[package]
name = "jj"
version = "0.1.0"
edition = "2021"
publish = false

[dependencies]
anyhow = "=1.0.104"
jj-lib = "=0.32.0"
# Not used directly. jj-lib pulls kstring in, and kstring 2.0.5 needs a compiler
# newer than Rust 1.95; this line holds it at a release that builds there.
kstring = "=2.0.2"
log = "=0.4.34"
parking_lot = "=0.12.5"
time = { version = "=0.3.55", features = ["formatting"] }
url = "=2.5.8"
