[package]
name = "slatedb_nbd"
version = "0.1.0"
edition = "2021"
publish = false

[dependencies]
slatedb = "*"
tokio-nbd = "*"
tokio = { version = "*", features = ["full"] }
object_store = { version = "*", features = ["aws"] }
clap = { version = "*", features = ["derive", "env"] }
tracing = "*"
tracing-subscriber = { version = "*", features = ["env-filter"] }
thiserror = "*"
