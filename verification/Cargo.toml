[package]
name = "embassy_inspect"
version = "0.1.0"
edition = "2021"
publish = false

[dependencies]
ansi-to-tui = "=7.0.0"
anyhow = "=1.0.104"
clap = { version = "=4.6.7", features = ["derive", "env"] }
ddbug_parser = "=0.6.0"
log = "=0.4.34"
probe-rs = { version = "=0.32.0", default-features = false }
process_path = "=0.1.4"
pyo3 = "=0.29.3"
pyo3-log = "=0.13.4"
ratatui = { version = "=0.29.0", features = ["unstable-rendered-line-info"] }
termion = "=4.0.6"
thiserror = "=2.0.21"
