[package]
name = "sbom_policy"
version = "0.1.0"
edition = "2021"
publish = false

[dependencies]
csv = "1"
serde_json = "1"
spdx-rs = "*"
minidom = "*"
serde = { version = "1", features = ["derive"] }
clap = { version = "3", features = ["derive"] }
pyo3 = { version = "*", features = ["auto-initialize"] }
anyhow = "1"
ansi_term = "0.12"
thiserror = "1"
