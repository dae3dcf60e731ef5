use allocator::dtb::{
    fill_property_name, get_fdt_string, get_property_reg, padded_len, parse_dtb, parse_fdt_node,
    read_be_u32, read_be_u64, read_header, read_properties, starts_with, DevTreeError, DtbInfo,
    DtbParser, FDT_MAGIC,
};

// A device tree blob under construction.
struct Blob {
    structure: Vec<u8>,
    strings: Vec<u8>,
}

impl Blob {
    fn new() -> Blob {
        Blob { structure: Vec::new(), strings: Vec::new() }
    }

    fn word(&mut self, w: u32) {
        self.structure.extend_from_slice(&w.to_be_bytes());
    }

    fn pad(&mut self) {
        while self.structure.len() % 4 != 0 {
            self.structure.push(0);
        }
    }

    fn begin(&mut self, name: &str) {
        self.word(1);
        self.structure.extend_from_slice(name.as_bytes());
        self.structure.push(0);
        self.pad();
    }

    fn end(&mut self) {
        self.word(2);
    }

    fn nop(&mut self) {
        self.word(4);
    }

    fn prop(&mut self, name: &str, data: &[u8]) {
        let off = self.strings.len() as u32;
        self.strings.extend_from_slice(name.as_bytes());
        self.strings.push(0);
        self.word(3);
        self.word(data.len() as u32);
        self.word(off);
        self.structure.extend_from_slice(data);
        self.pad();
    }

    fn reg(&mut self, start: u64, size: u64) {
        let mut data = Vec::new();
        data.extend_from_slice(&start.to_be_bytes());
        data.extend_from_slice(&size.to_be_bytes());
        self.prop("reg", &data);
    }

    fn finish(mut self) -> Vec<u8> {
        self.word(9);
        let off_struct = 40 + 16;
        let off_strings = off_struct + self.structure.len();
        let total = off_strings + self.strings.len();
        let mut blob = Vec::new();
        for w in [
            FDT_MAGIC,
            total as u32,
            off_struct as u32,
            off_strings as u32,
            40,
            17,
            16,
            0,
            self.strings.len() as u32,
            self.structure.len() as u32,
        ] {
            blob.extend_from_slice(&w.to_be_bytes());
        }
        blob.extend_from_slice(&[0; 16]);
        blob.extend_from_slice(&self.structure);
        blob.extend_from_slice(&self.strings);
        blob
    }
}

fn machine() -> Vec<u8> {
    let mut b = Blob::new();
    b.begin("");
    b.prop("compatible", b"riscv-virtio\0");
    b.prop("#address-cells", &2u32.to_be_bytes());
    b.begin("chosen");
    b.prop("bootargs", b"console=ttyS0\0");
    b.end();
    b.begin("memory@80000000");
    b.prop("device_type", b"memory\0");
    b.reg(0x8000_0000, 0x0800_0000);
    b.end();
    b.begin("soc");
    b.prop("ranges", b"");
    b.begin("virtio_mmio@10008000");
    b.prop("interrupts", &8u32.to_be_bytes());
    b.reg(0x1000_8000, 0x1000);
    b.prop("compatible", b"virtio,mmio\0");
    b.end();
    b.nop();
    b.begin("virtio_mmio@10007000");
    b.reg(0x1000_7000, 0x1000);
    b.end();
    b.begin("uart@10000000");
    b.reg(0x1000_0000, 0x100);
    b.end();
    b.end();
    b.end();
    b.finish()
}

fn set_word(blob: &mut [u8], at: usize, w: u32) {
    blob[at..at + 4].copy_from_slice(&w.to_be_bytes());
}

#[test]
fn words_are_big_endian() {
    let data = [0x12, 0x34, 0x56, 0x78, 0x9a, 0xbc, 0xde, 0xf0, 0xff];
    assert_eq!(read_be_u32(&data, 0), 0x1234_5678);
    assert_eq!(read_be_u32(&data, 1), 0x3456_789a);
    assert_eq!(read_be_u32(&data, 5), 0xbcde_f0ff);
    assert_eq!(read_be_u64(&data, 0), 0x1234_5678_9abc_def0);
    assert_eq!(read_be_u64(&data, 1), 0x3456_789a_bcde_f0ff);
}

#[test]
fn values_are_padded_to_words() {
    assert_eq!(padded_len(0), 0);
    assert_eq!(padded_len(1), 4);
    assert_eq!(padded_len(4), 4);
    assert_eq!(padded_len(5), 8);
    assert_eq!(padded_len(16), 16);
    assert_eq!(padded_len(0xFFFF_FFFC), 0xFFFF_FFFC);
    assert_eq!(padded_len(0xFFFF_FFFD), 0);
    assert_eq!(padded_len(0xFFFF_FFFF), 0);
    for len in [0u32, 1, 2, 3, 4, 5, 77, 0xFFFF_FFFB, 0xFFFF_FFFC, 0xFFFF_FFFD, 0xFFFF_FFFF] {
        assert_eq!(padded_len(len), ((len.wrapping_sub(1) >> 2).wrapping_add(1)) << 2);
    }
}

#[test]
fn header_fields() {
    let blob = machine();
    let h = read_header(&blob).unwrap();
    assert_eq!(h.magic, 0xd00d_feed);
    assert_eq!(h.totalsize as usize, blob.len());
    assert_eq!(h.off_dt_struct, 56);
    assert_eq!(h.off_mem_rsvmap, 40);
    assert_eq!(h.version, 17);
    assert_eq!(h.last_comp_version, 16);
    assert_eq!(h.boot_cpuid_phys, 0);
    assert_eq!(h.off_dt_strings + h.size_dt_strings, h.totalsize);
    assert_eq!(h.off_dt_struct + h.size_dt_struct, h.off_dt_strings);
    assert_eq!(read_header(&blob[..39]), Err(DevTreeError::ParseError));
    assert!(read_header(&blob[..40]).is_ok());
}

#[test]
fn strings_end_at_a_zero_byte() {
    let data = b"abc\0de\0\0xyz";
    assert_eq!(get_fdt_string(data, 0), Ok(b"abc".to_vec()));
    assert_eq!(get_fdt_string(data, 1), Ok(b"bc".to_vec()));
    assert_eq!(get_fdt_string(data, 3), Ok(Vec::new()));
    assert_eq!(get_fdt_string(data, 4), Ok(b"de".to_vec()));
    assert_eq!(get_fdt_string(data, 7), Ok(Vec::new()));
    assert_eq!(get_fdt_string(data, 8), Err(DevTreeError::ParseError));
    assert_eq!(get_fdt_string(data, 11), Err(DevTreeError::ParseError));
    assert_eq!(get_fdt_string(data, 12), Err(DevTreeError::InvalidOffset));
    assert_eq!(get_fdt_string(data, usize::MAX), Err(DevTreeError::InvalidOffset));
}

#[test]
fn prefixes() {
    assert!(starts_with(b"memory@80000000\0", b"memory"));
    assert!(starts_with(b"memory", b"memory"));
    assert!(starts_with(b"memory", b""));
    assert!(!starts_with(b"memor", b"memory"));
    assert!(!starts_with(b"memorx@0", b"memory"));
    assert!(!starts_with(b"", b"m"));
}

#[test]
fn reader_reads_words_and_runs() {
    let data = [0, 0, 0, 3, 1, 2, 3, 4, 5, 6];
    let mut p = DtbParser::new(&data);
    assert_eq!(p.read_u32(), Ok(3));
    assert_eq!(p.read_buf(3), Ok(vec![1, 2, 3]));
    assert_eq!(p.read_u32(), Err(DevTreeError::ParseError));
    assert_eq!(p.read_buf(4), Err(DevTreeError::ParseError));
    assert_eq!(p.read_buf(0), Ok(vec![]));
    assert_eq!(p.read_buf(3), Ok(vec![4, 5, 6]));
    assert_eq!(p.read_buf(1), Err(DevTreeError::ParseError));
    assert_eq!(p.read_buf(usize::MAX), Err(DevTreeError::ParseError));
}

#[test]
fn names_run_to_a_word_that_ends_in_zero() {
    let data = b"cpus\0\0\0\0ab\0\0\0\0\0\0xyz";
    let mut p = DtbParser::new(data);
    assert_eq!(p.read_name(), Ok(b"cpus\0\0\0\0".to_vec()));
    assert_eq!(p.read_name(), Ok(b"ab\0\0".to_vec()));
    assert_eq!(p.read_name(), Ok(b"\0\0\0\0".to_vec()));
    assert_eq!(p.read_name(), Err(DevTreeError::ParseError));
    let mut p = DtbParser::new(b"abcdefgh");
    assert_eq!(p.read_name(), Err(DevTreeError::ParseError));
}

#[test]
fn properties_up_to_the_next_tag() {
    let mut b = Blob::new();
    b.prop("a", b"12345");
    b.prop("bc", b"");
    b.end();
    let mut p = DtbParser::new(&b.structure);
    let (props, tag) = read_properties(&mut p).unwrap();
    assert_eq!(tag, 2);
    assert_eq!(props.len(), 2);
    assert_eq!(props[0].nameoff, 0);
    assert_eq!(props[0].name, b"none".to_vec());
    assert_eq!(props[0].data, b"12345\0\0\0".to_vec());
    assert_eq!(props[1].nameoff, 2);
    assert_eq!(props[1].data, Vec::<u8>::new());
    assert_eq!(p.read_u32(), Err(DevTreeError::ParseError));
    // A value that runs past the end.
    let cut = &b.structure[..b.structure.len() - 20];
    let mut p = DtbParser::new(cut);
    assert_eq!(read_properties(&mut p).err(), Some(DevTreeError::ParseError));
}

#[test]
fn node_tree() {
    let blob = machine();
    let mut p = DtbParser::new(&blob[60..]);
    let root = parse_fdt_node(&mut p).unwrap();
    assert_eq!(root.name, b"\0\0\0\0".to_vec());
    assert_eq!(root.properties.len(), 2);
    assert_eq!(root.properties[0].data, b"riscv-virtio\0\0\0\0".to_vec());
    assert_eq!(root.children.len(), 3);
    assert_eq!(root.children[0].name, b"chosen\0\0".to_vec());
    assert_eq!(root.children[1].name, b"memory@80000000\0".to_vec());
    assert_eq!(root.children[1].properties.len(), 2);
    assert_eq!(root.children[1].children.len(), 0);
    let soc = &root.children[2];
    assert_eq!(soc.name, b"soc\0".to_vec());
    assert_eq!(soc.properties.len(), 1);
    assert_eq!(soc.children.len(), 3);
    assert_eq!(soc.children[0].name, b"virtio_mmio@10008000\0\0\0\0".to_vec());
    assert_eq!(soc.children[0].properties.len(), 3);
    assert_eq!(soc.children[2].name, b"uart@10000000\0\0\0".to_vec());
    // The reader stands behind the tag that closed the root.
    assert_eq!(p.read_u32(), Ok(9));
}

#[test]
fn node_cut_short() {
    let blob = machine();
    let h = read_header(&blob).unwrap();
    let end = h.off_dt_strings as usize;
    for cut in [61, 64, 70, 100, end - 9, end - 8] {
        let mut p = DtbParser::new(&blob[60..cut]);
        assert_eq!(parse_fdt_node(&mut p).err(), Some(DevTreeError::ParseError));
    }
    // With the tag that closes the root the node is whole.
    let mut p = DtbParser::new(&blob[60..end - 4]);
    assert!(parse_fdt_node(&mut p).is_ok());
}

#[test]
fn names_are_looked_up() {
    let blob = machine();
    let h = read_header(&blob).unwrap();
    let mut p = DtbParser::new(&blob[60..]);
    let mut root = parse_fdt_node(&mut p).unwrap();
    assert_eq!(fill_property_name(&mut root, &blob, h.off_dt_strings as usize), Ok(()));
    assert_eq!(root.properties[0].name, b"compatible".to_vec());
    assert_eq!(root.properties[1].name, b"#address-cells".to_vec());
    assert_eq!(root.children[0].properties[0].name, b"bootargs".to_vec());
    assert_eq!(root.children[1].properties[1].name, b"reg".to_vec());
    assert_eq!(root.children[2].children[0].properties[0].name, b"interrupts".to_vec());
    assert_eq!(root.children[2].children[0].properties[2].name, b"compatible".to_vec());
    // Names are not touched when none can be read.
    let mut p = DtbParser::new(&blob[60..]);
    let mut root = parse_fdt_node(&mut p).unwrap();
    assert_eq!(
        fill_property_name(&mut root, &blob, blob.len() + 1),
        Err(DevTreeError::InvalidOffset)
    );
    assert_eq!(
        fill_property_name(&mut root, &blob, usize::MAX),
        Err(DevTreeError::InvalidOffset)
    );
    assert_eq!(
        fill_property_name(&mut root, &blob[..blob.len() - 1], h.off_dt_strings as usize),
        Err(DevTreeError::ParseError)
    );
}

#[test]
fn regions_by_node_name() {
    let blob = machine();
    let h = read_header(&blob).unwrap();
    let mut p = DtbParser::new(&blob[60..]);
    let mut root = parse_fdt_node(&mut p).unwrap();
    fill_property_name(&mut root, &blob, h.off_dt_strings as usize).unwrap();
    let mut v = vec![(1, 2)];
    assert_eq!(get_property_reg(&root, "virtio_mmio", &mut v), Ok(()));
    assert_eq!(v, vec![(1, 2), (0x1000_8000, 0x1000), (0x1000_7000, 0x1000)]);
    let mut v = Vec::new();
    assert_eq!(get_property_reg(&root, "memory", &mut v), Ok(()));
    assert_eq!(v, vec![(0x8000_0000, 0x0800_0000)]);
    let mut v = Vec::new();
    assert_eq!(get_property_reg(&root, "cpus", &mut v), Ok(()));
    assert_eq!(v, vec![]);
    // Every name starts with the empty one; `soc` and `chosen` hold no region.
    let mut v = Vec::new();
    assert_eq!(get_property_reg(&root, "", &mut v), Ok(()));
    assert_eq!(
        v,
        vec![
            (0x8000_0000, 0x0800_0000),
            (0x1000_8000, 0x1000),
            (0x1000_7000, 0x1000),
            (0x1000_0000, 0x100)
        ]
    );
}

#[test]
fn first_reg_property_counts() {
    let mut b = Blob::new();
    b.begin("memory");
    b.prop("regulator", &[0, 0, 0, 0, 0, 0, 0, 1, 0, 0, 0, 0, 0, 0, 0, 2, 9, 9, 9, 9]);
    b.reg(3, 4);
    b.begin("memory-controller");
    b.prop("re", &[0; 16]);
    b.prop("reg", &[0; 12]);
    b.end();
    b.end();
    let blob = b.finish();
    let h = read_header(&blob).unwrap();
    let mut p = DtbParser::new(&blob[60..]);
    let mut root = parse_fdt_node(&mut p).unwrap();
    fill_property_name(&mut root, &blob, h.off_dt_strings as usize).unwrap();
    // The region of the root is taken before the short one below it is met.
    let mut v = Vec::new();
    assert_eq!(get_property_reg(&root, "memory", &mut v), Err(DevTreeError::ParseError));
    assert_eq!(v, vec![(1, 2)]);
    let mut v = Vec::new();
    assert_eq!(get_property_reg(&root, "memory\0", &mut v), Ok(()));
    assert_eq!(v, vec![(1, 2)]);
    assert_eq!(parse_dtb(&blob), Err(DevTreeError::ParseError));
}

#[test]
fn machine_is_described() {
    let blob = machine();
    assert_eq!(
        parse_dtb(&blob),
        Ok(DtbInfo {
            memory_addr: 0x8000_0000,
            memory_size: 0x0800_0000,
            mmio_regions: vec![(0x1000_8000, 0x1000), (0x1000_7000, 0x1000)],
        })
    );
    // Bytes behind the blob are not read.
    let mut longer = blob.clone();
    longer.extend_from_slice(&[0xff; 7]);
    assert_eq!(parse_dtb(&longer), parse_dtb(&blob));
}

#[test]
fn blob_errors() {
    let blob = machine();
    assert_eq!(parse_dtb(&[]), Err(DevTreeError::ParseError));
    assert_eq!(parse_dtb(&blob[..39]), Err(DevTreeError::ParseError));
    let mut b = blob.clone();
    set_word(&mut b, 0, 0xfeed_d00d);
    assert_eq!(parse_dtb(&b), Err(DevTreeError::InvalidMagicNumber));
    assert_eq!(parse_dtb(&blob[..blob.len() - 1]), Err(DevTreeError::InvalidOffset));
    let mut b = blob.clone();
    set_word(&mut b, 8, blob.len() as u32 + 1);
    assert_eq!(parse_dtb(&b), Err(DevTreeError::InvalidOffset));
    let mut b = blob.clone();
    set_word(&mut b, 8, blob.len() as u32);
    assert_eq!(parse_dtb(&b), Err(DevTreeError::ParseError));
    let mut b = blob.clone();
    set_word(&mut b, 8, 60);
    assert_eq!(parse_dtb(&b), Err(DevTreeError::ParseError));
    let mut b = blob.clone();
    set_word(&mut b, 12, blob.len() as u32 + 5);
    assert_eq!(parse_dtb(&b), Err(DevTreeError::InvalidOffset));
    let mut b = blob.clone();
    let h = read_header(&blob).unwrap();
    set_word(&mut b, 4, h.off_dt_strings - 8);
    assert_eq!(parse_dtb(&b), Err(DevTreeError::ParseError));
}

#[test]
fn machine_without_memory() {
    let mut b = Blob::new();
    b.begin("");
    b.begin("virtio_mmio@10008000");
    b.reg(0x1000_8000, 0x1000);
    b.end();
    b.end();
    assert_eq!(parse_dtb(&b.finish()), Err(DevTreeError::ParseError));
}

#[test]
fn machine_without_devices() {
    let mut b = Blob::new();
    b.begin("");
    b.begin("memory@0");
    b.reg(0, 0x4000_0000);
    b.end();
    b.begin("memory@40000000");
    b.reg(0x4000_0000, 0x4000_0000);
    b.end();
    b.end();
    assert_eq!(
        parse_dtb(&b.finish()),
        Ok(DtbInfo { memory_addr: 0, memory_size: 0x4000_0000, mmio_regions: vec![] })
    );
}
