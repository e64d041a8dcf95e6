[package]
name = "struct_bindgen"
version = "0.1.0"
edition = "2021"
publish = false

[dependencies]
anyhow = "=1.0.104"
btfdump = "=0.0.5"
clap = { version = "=4.6.7", features = ["derive"] }
faerie = "=0.16.0"
object = "=0.40.0"
target-lexicon = "=0.11.2"
