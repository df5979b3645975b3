[package]
name = "spoonfed_pekzep"
version = "0.1.0"
edition = "2021"
publish = false

[dependencies]
linked-hash-map = "*"
csv = "*"
serde = "*"
serde_derive = "*"
log = "*"
env_logger = "*"
match-pinyin-with-hanzi = "*"
