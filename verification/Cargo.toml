[package]
name = "l3engine"
version = "0.1.0"
edition = "2021"
publish = false

[dependencies]
chashmap = "2.2"
crossbeam-queue = "0.3"
crossbeam = "0.8"
smoltcp = "0.7"
libc = "0.2"
log = "0.4"
ctrlc = "3"
rand = "0.8"
bincode = "1"
serde = { version = "1", features = ["derive"] }
pnet = "*"
thiserror = "1"
