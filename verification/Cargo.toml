[package]
name = "voter"
version = "0.1.0"
edition = "2021"
publish = false

[dependencies]
bitvec = "1"
slug = "0.1"
markdown = "1"
url = "2"
base58 = "0.2"
rand = "0.9"
rand_chacha = "0.9"
argon2 = "0.5"
chrono = { version = "0.4", features = ["serde"] }
serde = { version = "1", features = ["derive"] }
serde_json = "1"
serde_repr = "0.1"
itertools = "*"
clap = { version = "4", features = ["derive"] }
anyhow = "1"
async-trait = "0.1"
dotenvy = "0.15"
tracing = "0.1"
tracing-subscriber = { version = "0.3", features = ["env-filter"] }
tokio = { version = "1", features = ["rt-multi-thread", "macros", "net", "time", "fs"] }
axum = "0.8"
axum-extra = { version = "0.10", features = ["typed-header"] }
tower-http = { version = "0.6", features = ["fs", "set-header"] }
sea-orm = { version = "1", default-features = false, features = ["macros", "with-json", "with-chrono", "postgres-array", "sqlx-postgres", "runtime-tokio"] }
reqwest = { version = "0.12", default-features = false, features = ["json"] }
openidconnect = { version = "4", default-features = false, features = ["reqwest"] }
