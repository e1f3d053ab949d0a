[package]
name = "kernel_core"
version = "0.1.0"
edition = "2021"
publish = false

[dependencies]
bit_field = "=0.10.3"
riscv = "=0.10.1"
sbi = "0.2"
spin = "0.9"
log = "0.4"
linked_list_allocator = "0.10"
virtio-drivers = "0.1"
device_tree = "1"
