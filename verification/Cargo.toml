[package]
name = "aim_keymap"
version = "0.1.0"
edition = "2021"
publish = false

[dependencies]
dashmap = "5"
serde_json = "1"
tokio = { version = "1", features = ["fs", "io-std", "macros", "rt-multi-thread"] }
tower-lsp = "0.20"
