[package]
name = "allocator"
version = "0.1.0"
edition = "2021"
publish = false

[dependencies]
kspin = "*"
linked_list_allocator = { version = "=0.10.6", default-features = false }
log = "=0.4.34"
