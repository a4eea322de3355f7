[package]
name = "ebm25"
version = "0.1.0"
edition = "2021"
publish = false

[dependencies]
sha3 = "0.10"
aes-gcm = "0.10"
rand = "0.8"
tantivy = { version = "0.22", default-features = false }
serde = { version = "1", features = ["derive"] }
serde_json = "1"
tokio = { version = "1", features = ["macros", "rt-multi-thread"] }
reqwest = { version = "0.11", default-features = false, features = ["json"] }
actix-web = { version = "4", default-features = false, features = ["macros"] }
actix-rt = "2"
