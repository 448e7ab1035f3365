[package]
name = "rfe"
version = "0.1.0"
edition = "2021"
publish = false

[dependencies]
chrono = "*"
log = "*"
simple_logger = "*"
sysinfo = "*"
watchdog-device = "*"
