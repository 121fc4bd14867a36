[package]
name = "repo_harvest"
version = "0.1.0"
edition = "2021"
publish = false

[dependencies]
linked_hash_set = "=0.1.6"
dotenv = "=0.15.0"
futures = "=0.3.34"
git2 = "=0.21.0"
log = "=0.4.34"
octocrab = "=0.41.2"
simple-logging = "=2.0.2"
structopt = "=0.3.26"
tokio = { version = "=1.54.1", features = ["rt-multi-thread", "macros"] }
