[package]
name = "checkai"
version = "0.1.0"
edition = "2021"
publish = false

[dependencies]
actix = "*"
actix-cors = "*"
actix-files = "*"
actix-web = "*"
actix-web-actors = "*"
clap = { version = "*", features = ["derive"] }
colored = "*"
env_logger = "*"
log = "*"
reqwest = { version = "*", default-features = false, features = ["json"] }
semver = "*"
serde = { version = "*", features = ["derive"] }
serde_json = "*"
sys-locale = "*"
tokio = { version = "*", features = ["time"] }
utoipa = { version = "*", features = ["actix_extras"] }
utoipa-swagger-ui = { version = "*", features = ["actix-web"] }
uuid = { version = "*", features = ["v4"] }
zstd = "*"
