[package]
name = "ufos_core"
version = "0.1.0"
edition = "2021"
publish = false

[dependencies]
anyhow = "=1.0.104"
blake3 = "=1.8.7"
crossbeam = "=0.8.5"
libc = "=0.2.191"
log = "=0.4.34"
nix = "=0.17.0"
num = "=0.4.3"
promissory = "=0.1.3"
segment-map = "=0.1.1"
stderrlog = "=0.5.4"
userfaultfd = "=0.3.2"
