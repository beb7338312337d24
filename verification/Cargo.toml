[package]
name = "learn_more_rust"
version = "0.1.0"
edition = "2021"
publish = false

[dependencies]
byteorder = "1"
hashbrown = "0.14"
rand = "0.8"
reqwest = "0.11"
tokio = { version = "1", features = ["macros", "rt-multi-thread", "sync"] }
unescape = "0.1"
unicode-segmentation = "1"
