[package]
name = "huoziyinshua_rs"
version = "0.1.0"
edition = "2021"
publish = false

[dependencies]
anyhow = "1"
hound = "3.5"
pinyin = "0.10"
symphonia = "0.5"
