[package]
name = "tunicore"
version = "0.6.0"
edition = "2021"
publish = false

[dependencies]
spin = "=0.9.9"
x86_64 = { version = "=0.15.5", default-features = false, features = ["instructions"] }
limine = "0.6"
linked_list_allocator = "=0.10.6"
wasmi = "=1.0.9"
