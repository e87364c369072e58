[package]
name = "lava_eval"
version = "0.1.0"
edition = "2021"
publish = false

[dependencies]
indexmap = "=2.14.2"
lava-arch = "=0.2.6"
lava-core = "=0.2.5"
lava-schema = "=0.1.8"
lava-types = "=0.1.2"
serde_json = { version = "=1.0.154", features = ["unbounded_depth"] }
thiserror = "=2.0.21"
