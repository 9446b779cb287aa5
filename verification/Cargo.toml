[package]
name = "redis_conn"
version = "0.1.0"
edition = "2021"
publish = false

[dependencies]
futures = "0.1.26"
log = "0.4.6"
lru = "0.4.3"
