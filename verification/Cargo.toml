[package]
name = "postgres_conn"
version = "0.1.0"
edition = "2021"
publish = false

[dependencies]
secstr = "*"
clap = { version = "*", features = ["derive"] }
log = "*"
pretty_env_logger = "*"
