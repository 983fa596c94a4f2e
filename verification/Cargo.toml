[package]
name = "syslog_rfc3164"
version = "0.1.0"
edition = "2021"
publish = false

[dependencies]
time = "0.1"
serde = "1"
