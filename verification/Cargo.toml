[package]
name = "axdriver_ahci"
version = "0.1.0"
edition = "2021"
publish = false

[dependencies]
axdriver_base = "*"
axhal = "0.3.0-preview.3"
axmm = "0.3.0-preview.3"
axtask = "0.3.0-preview.3"
log = "0.4"
