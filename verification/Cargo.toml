[package]
name = "wascc_host"
version = "0.1.0"
edition = "2021"
publish = false

[dependencies]
wascap = "=0.13.0"
log = "=0.4.34"
nats = "=0.26.0"
crossbeam = "=0.8.5"
crossbeam-channel = "=0.5.17"
crossbeam-utils = "=0.8.23"
wapc = "=2.2.0"
