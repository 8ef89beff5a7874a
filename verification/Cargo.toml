[package]
name = "crond"
version = "0.1.0"
edition = "2021"
publish = false

[dependencies]
app_dirs = "1.2"
chrono = "0.4"
clap = "2.33"
cron-parser = "*"
log = "0.4"
pretty_env_logger = "0.4"
rustyline = "9.1"
