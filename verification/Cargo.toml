[package]
name = "kernel_heap"
version = "0.1.0"
edition = "2021"
publish = false

[dependencies]
linked_list_allocator = "=0.10.6"
spin = "=0.12.3"
x86_64 = { version = "=0.15.5", default-features = false, features = ["instructions"] }
