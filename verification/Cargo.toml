[package]
name = "virtio_console"
version = "0.1.0"
edition = "2021"
publish = false

[dependencies]
axaddrspace = "0.1"
axdevice_base = "0.1"
axerrno = "0.1"
axhal = "=0.2.2-preview.6"
axvisor_api = "0.1"
axvmconfig = "0.1"
log = "0.4"
memory_addr = "0.4"
spin = "0.9"
