[package]
name = "webman"
version = "0.1.0"
edition = "2021"
publish = false

[dependencies]
regex = "=1.13.1"
rand = "=0.7.3"
indexmap = { version = "=2.14.2", features = ["serde"] }
convert_case = "=0.12.0"
ssh_cfg = "=0.3.0"
serde = { version = "=1.0.229", features = ["derive"] }
serde_json = "=1.0.154"
tokio = { version = "=1.54.1", features = ["full"] }
clap = { version = "=4.6.7", features = ["derive"] }
eyre = "=0.6.14"
home = "=0.5.12"
dirs = "=7.0.0"
rpassword = "=7.5.4"
colored = "=3.1.1"
sqlx = { version = "=0.8.6", default-features = false, features = ["sqlite", "mysql", "runtime-tokio", "macros", "migrate"] }
sea-query = "=0.32.7"
sea-query-binder = { version = "=0.7.0", features = ["sqlx-mysql"] }
tracing = "=0.1.44"
russh = "=0.65.1"
russh-sftp = "=3.0.1"
cli-table = "=0.5.0"
fs_extra = "=1.3.0"
