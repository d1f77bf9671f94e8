[package]
name = "efi-handoff"
version = "0.1.0"
edition = "2021"
publish = false

[dependencies]
thiserror = "2"
vm-memory = { version = "*", features = ["backend-mmap", "backend-bitmap"] }
