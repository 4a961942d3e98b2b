[package]
name = "ztarcc"
version = "0.1.0"
edition = "2021"
publish = false

[dependencies]
trie-rs = { version = "*", features = ["serde"] }
jieba-rs = "*"
miniz_oxide = "*"
postcard = { version = "*", features = ["use-std"] }
clap = { version = "*", features = ["derive"] }
encoding_rs = "*"
charset-normalizer-rs = "*"
rayon = "*"
anyhow = "*"
