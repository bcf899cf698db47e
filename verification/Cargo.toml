[package]
name = "sync_memo"
version = "0.1.0"
edition = "2021"
publish = false

[dependencies]
clap = "2.34"
daemonize = "0.2"
dotenv = "0.10"
hyper = "0.12"
log = "0.4"
log4rs = "0.8"
notify = "4"
reqwest = { version = "0.9", default-features = false, features = ["rustls-tls"] }
serde = "1"
serde_derive = "1"
serde_json = "1"
