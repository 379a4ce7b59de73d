[package]
name = "kira_core"
version = "0.1.0"
edition = "2021"
publish = false

[dependencies]
adb_client = "*"
anyhow = "*"
fastboot-protocol = "*"
