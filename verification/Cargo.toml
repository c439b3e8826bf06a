[package]
name = "service_registry"
version = "0.1.0"
edition = "2021"
publish = false

[dependencies]
actix-web = { version = "4", default-features = false }
async-trait = "0.1"
thiserror = "1"
tracing = "0.1"
