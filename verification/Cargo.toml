[package]
name = "mccraft"
version = "0.1.0"
edition = "2021"
publish = false

[dependencies]
string-interner = "0.7"
fxhash = "0.2"
serde = { version = "1", features = ["derive"] }
serde_json = "1"
log = "0.4"
env_logger = "*"
dotenv = "0.15"
diesel = { version = "1.4", features = ["postgres"] }
diesel-derive-enum = { version = "0.4", features = ["postgres"] }
actix = "0.7"
actix-web = "0.7"
clap = "2"
failure = "0.1"
futures = "0.1"
