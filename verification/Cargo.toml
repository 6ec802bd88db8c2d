[package]
name = "steam_protobuf_dumper"
version = "0.1.0"
edition = "2021"
publish = false

[dependencies]
anyhow = "1"
env_logger = "*"
log = "0.4"
memmap2 = "*"
once_cell = "1"
protobuf = "3"
regex = "1"
