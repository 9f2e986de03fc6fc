[package]
name = "ckb_filter"
version = "0.1.0"
edition = "2021"
publish = false

[dependencies]
bloom-filters = "=0.1.2"
golomb-coded-set = "=0.2.1"
lru-cache = "=0.1.2"
crossbeam-channel = "=0.5.17"
blake2b-rs = "=0.2.0"
rand = "=0.10.3"
