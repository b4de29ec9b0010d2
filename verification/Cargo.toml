[package]
name = "rkh_chk"
version = "1.0.0"
edition = "2021"
publish = false

[dependencies]
dotenvy = "0.15"
env_logger = "0.11"
jiff = "0.2"
log = "0.4"
