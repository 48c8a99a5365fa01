[package]
name = "weather"
version = "0.1.0"
edition = "2021"
publish = false

[dependencies]
getopts = "0.2"
hyper = { version = "0.14", features = ["full"] }
rustc-serialize = "0.3"
time = { version = "0.3", features = ["parsing"] }
tokio = { version = "1", features = ["rt", "macros"] }
xmltree = "0.10"
