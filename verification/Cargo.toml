[package]
name = "rides"
version = "0.1.0"
edition = "2021"
publish = false

[dependencies]
uuid = { version = "=1.29.0", features = ["v4"] }
chrono = "=0.4.45"
bcrypt = "=0.19.3"
sqlite = "=0.37.4"
actix-web = "=4.18.1"
actix-session = { version = "=0.11.0", features = ["cookie-session"] }
askama = "=0.16.1"
serde = { version = "=1.0.229", features = ["derive"] }
reqwest = { version = "=0.13.5", features = ["form"] }
dotenv = "=0.15.0"
simple_logger = "=5.2.0"
log = "=0.4.34"
lazy_static = "=1.5.1"
