[package]
name = "sheet_access"
version = "0.1.0"
edition = "2021"
publish = false

[dependencies]
bcrypt = "*"
once_cell = "*"
serde = { version = "*", features = ["derive"] }
tokio = { version = "*", features = ["rt-multi-thread", "macros", "net"] }
axum = "*"
