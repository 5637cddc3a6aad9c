[package]
name = "coio"
version = "0.1.0"
edition = "2021"
publish = false

[dependencies]
chrono = "0.4"
clap = "2"
context = "2"
env_logger = "0.6"
hyper = { version = "0.10", default-features = false }
libc = "0.2"
linked-hash-map = "0.5"
log = "0.4"
mio = "0.6"
rand = "0.5"
slab = "0.3"
