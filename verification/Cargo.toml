[package]
name = "ra_core"
version = "0.1.0"
edition = "2021"
publish = false

[dependencies]
arrayvec = "=0.7.8"
hashbrown = "=0.14.5"
indexmap = "=2.14.2"
itertools = "=0.14.0"
la-arena = "=0.3.1"
rowan = "=0.15.19"
rustc-hash = "=2.1.3"
salsa = "=0.28.5"
smallvec = { version = "=1.16.4", features = ["const_generics"] }
thin-vec = "=0.2.21"
tracing = "=0.1.44"
