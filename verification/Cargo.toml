[package]
name = "spider_tui"
version = "0.1.0"
edition = "2021"
publish = false

[dependencies]
unicode-width = "=0.2.2"
crossterm = { version = "=0.26.1", features = ["bracketed-paste"] }
tokio = { version = "=1.53.2", features = ["sync", "macros", "rt-multi-thread"] }
tui = "=0.19.0"
serde = { version = "=1.0.229", features = ["derive"] }
serde_json = "=1.0.151"
async-trait = "=0.1.92"
