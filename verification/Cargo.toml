[package]
name = "component_adaptive_card"
version = "0.1.0"
edition = "2021"
publish = false

[dependencies]
greentic-interfaces-guest = "0.4"
once_cell = "=1.21.4"
serde = { version = "=1.0.229", features = ["derive"] }
serde_json = "=1.0.154"
thiserror = "=2.0.21"
