//! A table from strings to values with open addressing: a key is put in the
//! first free bucket after the one that its hash names, and is looked for
//! along the same way.

use vstd::prelude::*;
use vstd::set_lib::{lemma_int_range, lemma_len_subset, set_int_range};
use vstd::string::StringSliceAdditionalSpecFns;
use vstd::utf8::encode_utf8;

verus! {

/// The number of buckets of every table.
pub const INITIAL_CAPACITY: usize = 102400;

/// The hash after one more byte: thirty-three times the hash before, cut to
/// 64 bits, with the byte mixed into the low bits.
pub open spec fn hash_step(hash: u64, byte: u8) -> u64 {
    (hash << 5).wrapping_add(hash) ^ (byte as u64)
}

/// The hash of a run of bytes, taken in from the first to the last.
pub open spec fn hash_bytes(bytes: Seq<u8>) -> u64
    decreases bytes.len(),
{
    if bytes.len() == 0 {
        0
    } else {
        hash_step(hash_bytes(bytes.drop_last()), bytes.last())
    }
}

/// The hash of a key: that of its bytes in UTF-8.
pub open spec fn hash_of(key: Seq<char>) -> u64 {
    hash_bytes(encode_utf8(key))
}

/// The hash of a string.
pub fn custom_hash(input: &str) -> (hash: u64)
    ensures
        hash == hash_of(input@),
{
    let bytes = input.as_bytes();
    let mut hash: u64 = 0;
    let mut i: usize = 0;
    while i < bytes.len()
        invariant
            i <= bytes@.len(),
            hash == hash_bytes(bytes@.take(i as int)),
        decreases bytes@.len() - i,
    {
        assert(bytes@.take(i + 1).drop_last() == bytes@.take(i as int));
        hash = (hash << 5).wrapping_add(hash) ^ (bytes[i] as u64);
        i += 1;
    }
    assert(bytes@.take(i as int) == bytes@);
    hash
}

/// What a table holds: for each bucket, nothing or a key and its value.
pub type Table<V> = Seq<Option<(Seq<char>, V)>>;

/// The bucket at which the search for `key` starts: the one after the bucket
/// that its hash names.
pub open spec fn home(key: Seq<char>) -> int {
    ((hash_of(key) as usize) as int % (INITIAL_CAPACITY as int) + 1) % (INITIAL_CAPACITY as int)
}

/// Whether the search for `key` ends at `bucket`: it is empty or holds `key`.
pub open spec fn stops<V>(bucket: Option<(Seq<char>, V)>, key: Seq<char>) -> bool {
    match bucket {
        None => true,
        Some((k, _)) => k == key,
    }
}

/// The bucket at which a search for `key` ends that is at `from` and has
/// `steps` buckets left to look at.
pub open spec fn probe<V>(table: Table<V>, key: Seq<char>, from: int, steps: nat) -> int
    decreases steps,
{
    if steps == 0 || stops(table[from], key) {
        from
    } else {
        probe(table, key, (from + 1) % (INITIAL_CAPACITY as int), (steps - 1) as nat)
    }
}

/// The bucket of `key`: the first one from its home on, going round, that is
/// empty or holds `key`.
pub open spec fn slot<V>(table: Table<V>, key: Seq<char>) -> int {
    probe(table, key, home(key), INITIAL_CAPACITY as nat)
}

/// The value that a search for `key` finds.
pub open spec fn lookup<V>(table: Table<V>, key: Seq<char>) -> Option<V> {
    match table[slot(table, key)] {
        Some((_, v)) => Some(v),
        None => None,
    }
}

/// The buckets that hold a key.
pub open spec fn occupied<V>(table: Table<V>) -> Set<int> {
    Set::new(|i: int| 0 <= i < table.len() && table[i] is Some)
}

/// What holds of every table: it has all its buckets, and one of them at
/// least is empty, so that every search ends.
pub open spec fn table_ok<V>(table: Table<V>) -> bool {
    table.len() == INITIAL_CAPACITY && occupied(table).len() < INITIAL_CAPACITY
}

/// How many buckets a search at `from` looks at before it reaches `to`.
pub open spec fn ahead(from: int, to: int) -> int {
    if to >= from {
        to - from
    } else {
        to - from + INITIAL_CAPACITY
    }
}

/// The occupied buckets are finitely many, and no more than there are buckets.
pub proof fn lemma_occupied_finite<V>(table: Table<V>)
    ensures
        occupied(table).finite(),
        occupied(table).len() <= table.len(),
{
    lemma_int_range(0, table.len() as int);
    assert(occupied(table).subset_of(set_int_range(0, table.len() as int)));
    lemma_len_subset(occupied(table), set_int_range(0, table.len() as int));
}

/// A table with fewer keys than buckets has an empty bucket.
pub proof fn lemma_empty_bucket<V>(table: Table<V>) -> (e: int)
    requires
        occupied(table).len() < table.len(),
    ensures
        0 <= e < table.len(),
        table[e] is None,
{
    lemma_int_range(0, table.len() as int);
    if forall|i: int| 0 <= i < table.len() ==> table[i] is Some {
        assert(occupied(table) =~= set_int_range(0, table.len() as int));
    }
    choose|i: int| 0 <= i < table.len() && table[i] is None
}

/// A search that has more buckets left to look at than lie before an empty
/// bucket ends where the search is over, and does not depend on how many it
/// has left.
pub proof fn lemma_probe_ends<V>(table: Table<V>, key: Seq<char>, from: int, steps: nat, e: int)
    requires
        table.len() == INITIAL_CAPACITY,
        0 <= from < INITIAL_CAPACITY,
        0 <= e < INITIAL_CAPACITY,
        table[e] is None,
        steps > ahead(from, e),
    ensures
        0 <= probe(table, key, from, steps) < INITIAL_CAPACITY,
        stops(table[probe(table, key, from, steps)], key),
        ahead(from, probe(table, key, from, steps)) <= ahead(from, e),
        forall|more: nat| more > ahead(from, e) ==> probe(table, key, from, more) == probe(
            table,
            key,
            from,
            steps,
        ),
        forall|i: int|
            0 <= i < INITIAL_CAPACITY && ahead(from, i) < ahead(from, probe(table, key, from, steps))
                ==> !stops(#[trigger] table[i], key),
    decreases steps,
{
    let n = INITIAL_CAPACITY as int;
    if !stops(table[from], key) {
        let next = (from + 1) % n;
        lemma_probe_ends(table, key, next, (steps - 1) as nat, e);
        let end = probe(table, key, next, (steps - 1) as nat);
        assert(from != e);
        assert(ahead(next, e) == ahead(from, e) - 1);
        assert forall|more: nat| more > ahead(from, e) implies probe(table, key, from, more)
            == probe(table, key, from, steps) by {
            assert((more - 1) as nat > ahead(next, e));
            assert(probe(table, key, from, more) == probe(table, key, next, (more - 1) as nat));
        }
        assert forall|i: int|
            0 <= i < n && ahead(from, i) < ahead(from, end) implies !stops(
            #[trigger] table[i],
            key,
        ) by {
            if i != from {
                assert(ahead(next, i) < ahead(next, end));
            }
        }
    }
}

/// The bucket of `key` is the one that ends a search which no bucket before
/// it, from the home of `key` on, ends.
pub proof fn lemma_slot_is<V>(table: Table<V>, key: Seq<char>, i: int)
    requires
        table_ok(table),
        0 <= i < INITIAL_CAPACITY,
        stops(table[i], key),
        forall|j: int|
            0 <= j < INITIAL_CAPACITY && ahead(home(key), j) < ahead(home(key), i) ==> !stops(
                #[trigger] table[j],
                key,
            ),
    ensures
        slot(table, key) == i,
{
    let e = lemma_empty_bucket(table);
    lemma_probe_ends(table, key, home(key), INITIAL_CAPACITY as nat, e);
}

/// What the bucket of `key` is like: it ends the search, no bucket before
/// it does, and it stays the bucket of `key` whatever is put into it.
pub proof fn lemma_slot<V>(table: Table<V>, key: Seq<char>)
    requires
        table_ok(table),
    ensures
        0 <= slot(table, key) < INITIAL_CAPACITY,
        stops(table[slot(table, key)], key),
        forall|j: int|
            0 <= j < INITIAL_CAPACITY && ahead(home(key), j) < ahead(
                home(key),
                slot(table, key),
            ) ==> !stops(#[trigger] table[j], key),
{
    let e = lemma_empty_bucket(table);
    lemma_probe_ends(table, key, home(key), INITIAL_CAPACITY as nat, e);
}

/// The occupied buckets after a bucket was filled or emptied.
pub proof fn lemma_occupied_update<V>(table: Table<V>, i: int, bucket: Option<(Seq<char>, V)>)
    requires
        0 <= i < table.len(),
    ensures
        bucket is Some ==> occupied(table.update(i, bucket)) == occupied(table).insert(i),
        bucket is None ==> occupied(table.update(i, bucket)) == occupied(table).remove(i),
        occupied(table.update(i, bucket)).len() == occupied(table).len() + (if bucket is Some {
            1int
        } else {
            0int
        }) - (if table[i] is Some {
            1int
        } else {
            0int
        }),
{
    lemma_occupied_finite(table);
    let after = table.update(i, bucket);
    if bucket is Some {
        assert(occupied(after) =~= occupied(table).insert(i));
    } else {
        assert(occupied(after) =~= occupied(table).remove(i));
    }
}

/// A key that was put into its bucket is found there with its value, and a
/// key whose bucket was emptied is not found.
pub proof fn lemma_lookup_after_update<V>(table: Table<V>, key: Seq<char>, value: V)
    requires
        table_ok(table),
        lookup(table, key) is Some || occupied(table).len() + 1 < INITIAL_CAPACITY,
    ensures
        table_ok(table.update(slot(table, key), Some((key, value)))),
        lookup(table.update(slot(table, key), Some((key, value))), key) == Some(value),
        table_ok(table.update(slot(table, key), None)),
        lookup(table.update(slot(table, key), None), key) is None,
{
    lemma_slot(table, key);
    let i = slot(table, key);
    lemma_occupied_update(table, i, Some((key, value)));
    lemma_occupied_update(table, i, None);
    lemma_slot_is(table.update(i, Some((key, value))), key, i);
    lemma_slot_is(table.update(i, None), key, i);
}

/// The first occupied bucket at or after `from`; the number of buckets if
/// there is none.
pub open spec fn next_occupied<V>(table: Table<V>, from: int) -> int
    decreases table.len() - from,
{
    if from >= table.len() {
        table.len() as int
    } else if table[from] is Some {
        from
    } else {
        next_occupied(table, from + 1)
    }
}

/// The table that a run of buckets stands for: each key by its characters.
pub open spec fn table_of<V>(buckets: Seq<Option<(String, V)>>) -> Table<V> {
    Seq::new(
        buckets.len(),
        |i: int|
            match buckets[i] {
                Some((k, v)) => Some((k@, v)),
                None => None,
            },
    )
}

/// A table from strings to values of type `V`.
pub struct HashMap<V> {
    buckets: Vec<Option<(String, V)>>,
    size: usize,
}

impl<V> View for HashMap<V> {
    type V = Table<V>;

    closed spec fn view(&self) -> Table<V> {
        table_of(self.buckets@)
    }
}

impl<V> HashMap<V> {
    /// Every table is well formed, and knows how many keys it holds.
    #[verifier::type_invariant]
    pub closed spec fn well_formed(self) -> bool {
        table_ok(self@) && self.size == occupied(self@).len()
    }

    /// The number of keys in the table.
    pub open spec fn spec_size(&self) -> nat {
        occupied(self@).len()
    }

    /// A table without keys.
    pub fn new() -> (r: Self)
        ensures
            r@ == Seq::new(INITIAL_CAPACITY as nat, |i: int| None::<(Seq<char>, V)>),
            r.spec_size() == 0,
    {
        let mut buckets: Vec<Option<(String, V)>> = Vec::new();
        while buckets.len() < INITIAL_CAPACITY
            invariant
                buckets@.len() <= INITIAL_CAPACITY,
                forall|i: int| 0 <= i < buckets@.len() ==> buckets@[i] is None,
            decreases INITIAL_CAPACITY - buckets@.len(),
        {
            buckets.push(None);
        }
        proof {
            assert(table_of(buckets@) =~= Seq::new(
                INITIAL_CAPACITY as nat,
                |i: int| None::<(Seq<char>, V)>,
            ));
            assert(occupied(table_of(buckets@)) =~= Set::empty());
        }
        HashMap { buckets, size: 0 }
    }

    /// Puts `value` under `key`, in place of the value that `key` had, if it
    /// had one. A new key needs a table that keeps an empty bucket after it.
    pub fn insert(&mut self, key: String, value: V)
        requires
            lookup(old(self)@, key@) is Some || old(self).spec_size() + 1 < INITIAL_CAPACITY,
        ensures
            final(self)@ == old(self)@.update(slot(old(self)@, key@), Some((key@, value))),
            lookup(final(self)@, key@) == Some(value),
            final(self).spec_size() == old(self).spec_size() + (if lookup(old(self)@, key@)
                is Some {
                0int
            } else {
                1int
            }),
    {
        proof {
            use_type_invariant(&*self);
            lemma_slot(self@, key@);
            lemma_lookup_after_update(self@, key@, value);
            lemma_occupied_update(self@, slot(self@, key@), Some((key@, value)));
            lemma_occupied_finite(self@);
        }
        let i = self.find(&key);
        fill(&mut self.buckets, &mut self.size, i, key, value);
    }

    /// The value under `key`.
    pub fn get(&self, key: &String) -> (r: Option<&V>)
        ensures
            match r {
                Some(v) => lookup(self@, key@) == Some(*v),
                None => lookup(self@, key@) is None,
            },
    {
        proof {
            use_type_invariant(self);
        }
        let i = self.find(key);
        assert(self@[i as int] == match self.buckets@[i as int] {
            Some((k, v)) => Some((k@, v)),
            None => None,
        });
        match &self.buckets[i] {
            Some((_, v)) => Some(v),
            None => None,
        }
    }

    /// Takes `key` out of the table, and hands back the value that it had.
    /// The bucket is left empty: a key that was put behind it, because the
    /// bucket was taken then, is not found any more.
    pub fn remove(&mut self, key: &String) -> (r: Option<V>)
        ensures
            r == lookup(old(self)@, key@),
            final(self)@ == old(self)@.update(slot(old(self)@, key@), None),
            lookup(final(self)@, key@) is None,
            final(self).spec_size() == old(self).spec_size() - (if r is Some {
                1int
            } else {
                0int
            }),
    {
        proof {
            use_type_invariant(&*self);
            lemma_slot(self@, key@);
            lemma_occupied_update(self@, slot(self@, key@), None);
            lemma_occupied_finite(self@);
            lemma_slot_is(self@.update(slot(self@, key@), None), key@, slot(self@, key@));
        }
        let i = self.find(key);
        clear(&mut self.buckets, &mut self.size, i)
    }

    /// An iterator over the keys and values, in the order of the buckets.
    pub fn iter(&self) -> (r: HashMapIterator<'_, V>)
        ensures
            r.table() == self@,
            r.position() == 0,
    {
        proof {
            use_type_invariant(self);
        }
        HashMapIterator { hashmap: self, index: 0 }
    }

    /// The number of keys in the table.
    pub fn size(&self) -> (r: usize)
        ensures
            r == self.spec_size(),
    {
        proof {
            use_type_invariant(self);
        }
        self.size
    }

    /// The bucket of `key`.
    fn hash(&self, key: &str) -> (i: usize)
        ensures
            i == (hash_of(key@) as usize),
    {
        #[verifier::truncate]
        (custom_hash(key) as usize)
    }

    /// The bucket at which the search for `key` ends.
    fn find(&self, key: &String) -> (i: usize)
        ensures
            i == slot(self@, key@),
            i < INITIAL_CAPACITY,
            stops(self@[i as int], key@),
    {
        proof {
            use_type_invariant(self);
        }
        let ghost e = lemma_empty_bucket(self@);
        let mut i = (self.hash(key.as_str()) % INITIAL_CAPACITY + 1) % INITIAL_CAPACITY;
        let ghost start = i as int;
        proof {
            lemma_probe_ends(self@, key@, start, INITIAL_CAPACITY as nat, e);
        }
        loop
            invariant
                self@.len() == INITIAL_CAPACITY,
                self.buckets@.len() == INITIAL_CAPACITY,
                0 <= e < INITIAL_CAPACITY,
                self@[e] is None,
                i < INITIAL_CAPACITY,
                start == home(key@),
                ahead(start, i as int) <= ahead(start, slot(self@, key@)),
                ahead(start, slot(self@, key@)) <= ahead(start, e),
                0 <= slot(self@, key@) < INITIAL_CAPACITY,
                stops(self@[slot(self@, key@)], key@),
                forall|j: int|
                    0 <= j < INITIAL_CAPACITY && ahead(start, j) < ahead(start, slot(self@, key@))
                        ==> !stops(#[trigger] self@[j], key@),
            decreases ahead(start, slot(self@, key@)) - ahead(start, i as int),
        {
            let done = match &self.buckets[i] {
                None => true,
                Some((k, _)) => *k == *key,
            };
            assert(self@[i as int] == match self.buckets@[i as int] {
                Some((k, v)) => Some((k@, v)),
                None => None,
            });
            if done {
                assert(stops(self@[i as int], key@));
                return i;
            }
            assert(!stops(self@[i as int], key@));
            i = (i + 1) % INITIAL_CAPACITY;
        }
    }
}

/// Fills the bucket `i` and counts the key if the bucket was empty.
fn fill<V>(
    buckets: &mut Vec<Option<(String, V)>>,
    size: &mut usize,
    i: usize,
    key: String,
    value: V,
)
    requires
        i < old(buckets)@.len(),
        *old(size) == occupied(table_of(old(buckets)@)).len(),
        old(buckets)@[i as int] is Some || *old(size) < usize::MAX,
    ensures
        table_of(final(buckets)@) == table_of(old(buckets)@).update(
            i as int,
            Some((key@, value)),
        ),
        *final(size) == occupied(table_of(final(buckets)@)).len(),
    no_unwind
{
    proof {
        lemma_occupied_update(table_of(buckets@), i as int, Some((key@, value)));
    }
    let was_empty = match &buckets[i] {
        None => true,
        Some(_) => false,
    };
    assert(was_empty == (table_of(buckets@)[i as int] is None));
    buckets[i] = Some((key, value));
    if was_empty {
        *size += 1;
    }
    assert(table_of(buckets@) =~= table_of(old(buckets)@).update(i as int, Some((key@, value))));
}

/// Empties the bucket `i`, hands back the value that it held and counts the
/// key out.
fn clear<V>(buckets: &mut Vec<Option<(String, V)>>, size: &mut usize, i: usize) -> (r: Option<V>)
    requires
        i < old(buckets)@.len(),
        *old(size) == occupied(table_of(old(buckets)@)).len(),
    ensures
        table_of(final(buckets)@) == table_of(old(buckets)@).update(i as int, None),
        *final(size) == occupied(table_of(final(buckets)@)).len(),
        r == match table_of(old(buckets)@)[i as int] {
            Some((_, v)) => Some(v),
            None => None,
        },
    no_unwind
{
    proof {
        lemma_occupied_update(table_of(buckets@), i as int, None);
        lemma_occupied_finite(table_of(buckets@));
    }
    let mut taken: Option<(String, V)> = None;
    core::mem::swap(&mut buckets[i], &mut taken);
    assert(table_of(buckets@) =~= table_of(old(buckets)@).update(i as int, None));
    assert(table_of(old(buckets)@)[i as int] == match old(buckets)@[i as int] {
        Some((k, v)) => Some((k@, v)),
        None => None,
    });
    match taken {
        Some((_, v)) => {
            assert(occupied(table_of(old(buckets)@)).contains(i as int));
            *size -= 1;
            Some(v)
        },
        None => None,
    }
}

/// An iterator over the keys and values of a table, in the order of the
/// buckets.
pub struct HashMapIterator<'a, V> {
    hashmap: &'a HashMap<V>,
    index: usize,
}

impl<'a, V> HashMapIterator<'a, V> {
    /// No iterator is past the last bucket.
    #[verifier::type_invariant]
    pub closed spec fn well_formed(self) -> bool {
        self.index <= self.hashmap@.len() && self.hashmap@.len() == self.hashmap.buckets@.len()
    }

    /// The table that is gone through.
    pub closed spec fn table(&self) -> Table<V> {
        self.hashmap@
    }

    /// The bucket that is looked at next.
    pub closed spec fn position(&self) -> int {
        self.index as int
    }

    /// The key and value in the next occupied bucket, if there is one; the
    /// iterator goes on behind that bucket.
    pub fn next(&mut self) -> (r: Option<(&'a String, &'a V)>)
        ensures
            final(self).table() == old(self).table(),
            match r {
                Some((k, v)) => {
                    &&& next_occupied(old(self).table(), old(self).position()) < old(
                        self,
                    ).table().len()
                    &&& old(self).table()[next_occupied(old(self).table(), old(self).position())]
                        == Some((k@, *v))
                    &&& final(self).position() == next_occupied(
                        old(self).table(),
                        old(self).position(),
                    ) + 1
                },
                None => {
                    &&& next_occupied(old(self).table(), old(self).position()) == old(
                        self,
                    ).table().len()
                    &&& final(self).position() == old(self).table().len()
                },
            },
    {
        proof {
            use_type_invariant(&*self);
        }
        let hashmap: &'a HashMap<V> = self.hashmap;
        while self.index < hashmap.buckets.len()
            invariant
                hashmap == self.hashmap,
                hashmap == old(self).hashmap,
                hashmap@.len() == hashmap.buckets@.len(),
                old(self).index <= self.index <= hashmap.buckets@.len(),
                next_occupied(hashmap@, self.index as int) == next_occupied(
                    hashmap@,
                    old(self).index as int,
                ),
            decreases hashmap.buckets@.len() - self.index,
        {
            let at = self.index;
            assert(hashmap@[at as int] == match hashmap.buckets@[at as int] {
                Some((k, v)) => Some((k@, v)),
                None => None,
            });
            self.index += 1;
            if let Some((k, v)) = &hashmap.buckets[at] {
                return Some((k, v));
            }
        }
        None
    }
}

} // verus!
