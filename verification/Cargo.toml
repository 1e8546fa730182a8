[package]
name = "parquet_demo"
version = "0.1.0"
edition = "2021"
publish = false

[dependencies]
thrift = "0.13"
parquet-format = "4"
zstd = "0.13"
byteorder = "1"
base64 = "0.22"
hex = "0.4"
serde_json = "1"
arrow-ipc = "*"
url = "2"
anyhow = "1"
clap = { version = "4", features = ["derive"] }
tokio = { version = "1", features = ["rt-multi-thread", "macros", "sync", "time"] }
rand = "0.8"
futures = "0.3"
arrow = { version = "*", default-features = false }
arrow-array = "*"
parquet = { version = "*", default-features = false, features = ["arrow", "async", "object_store", "zstd"] }
object_store = { version = "*", default-features = false, features = ["aws"] }
