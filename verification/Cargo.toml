[package]
name = "viow_plugin_api"
version = "0.1.0"
edition = "2021"
publish = false

[dependencies]
abi_stable = "*"
thiserror = "*"
