[package]
name = "striking_db"
version = "0.1.0"
edition = "2021"
publish = false

[dependencies]
lru_time_cache = "*"
num_cpus = "*"

[dev-dependencies]
rand = "*"
