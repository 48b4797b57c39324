[package]
name = "scaphandre"
version = "0.1.0"
edition = "2021"
publish = false

[dependencies]
pcap = "=2.5.0"
sysinfo = { version = "=0.37.2", default-features = false, features = ["network"] }
