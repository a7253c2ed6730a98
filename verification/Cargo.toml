[package]
name = "cookiejar"
version = "0.1.0"
edition = "2021"
publish = false

[dependencies]
async-graphql = "7"
async-graphql-warp = "7"
cookie = "0.17"
dotenv = "0.15"
http = "0.2"
serde_json = "1"
sqlx = { version = "0.8", default-features = false, features = ["postgres", "runtime-tokio"] }
time = "0.3"
tokio = { version = "1", features = ["macros", "rt-multi-thread", "sync"] }
warp = { version = "0.3", default-features = false }
