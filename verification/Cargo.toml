[package]
name = "nearclip_protocol"
version = "0.1.0"
edition = "2021"
publish = false

[dependencies]
protobuf = "=4.32.1-release"
