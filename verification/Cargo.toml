[package]
name = "furby"
version = "0.1.0"
edition = "2021"
publish = false

[dependencies]
actix-web = "*"
actix-identity = "*"
actix-session = { version = "*", features = ["cookie-session"] }
actix-cors = "*"
serde = { version = "*", features = ["derive"] }
bcrypt = "*"
chrono = "*"
rand = "*"
redis = "*"
log = "*"
pretty_env_logger = "*"
