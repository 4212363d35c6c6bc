[package]
name = "expenses"
version = "0.1.0"
edition = "2021"
publish = false

[dependencies]
directories = "*"
eyre = "*"
inquire = { version = "*", features = ["date"] }
notion = "*"
serde = { version = "*", features = ["derive"] }
serde_json = "*"
serde_yaml = "*"
tokio = { version = "*", features = ["macros", "rt-multi-thread"] }
