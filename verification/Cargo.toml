[package]
name = "jaeger_remote_tracer"
version = "0.1.0"
edition = "2021"
publish = false

[dependencies]
clap = "4"
fibers = "0.1"
futures = "0.1"
htrpc = "*"
rustracing = "*"
rustracing_jaeger = "*"
serde = { version = "1", features = ["derive"] }
trackable = "*"
