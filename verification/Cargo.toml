[package]
name = "tax_engine"
version = "0.1.0"
edition = "2021"
publish = false

[dependencies]
rust_decimal = "1"
strsim = "0.11"
rayon = "1"
lopdf = "*"
pdf-extract = "*"
serde = { version = "1", features = ["derive"] }
serde_json = "1"
thiserror = "1"
async-trait = "0.1"
uuid = { version = "1", features = ["v4"] }
tokio = { version = "1", features = ["sync", "fs", "rt-multi-thread", "macros"] }
chrono = { version = "0.4", default-features = false, features = ["clock"] }
jsonwebtoken = "9"
sha2 = "0.10"
sqlx = { version = "0.8", default-features = false, features = ["postgres", "runtime-tokio", "uuid", "json"] }
reqwest = { version = "0.12", default-features = false, features = ["json", "rustls-tls"] }
actix-web = { version = "4", default-features = false, features = ["macros", "cookies"] }
actix-multipart = "0.7"
