[package]
name = "spirit"
version = "0.1.0"
edition = "2021"
publish = false

[dependencies]
blake3 = "=1.8.7"
getrandom = "=0.3.4"
rkyv = "=0.8.18"
thiserror = "=2.0.21"
