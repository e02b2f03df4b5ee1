[package]
name = "rattler_installs_packages"
version = "0.1.0"
edition = "2021"
publish = false

[dependencies]
clap = { version = "=4.6.7", features = ["derive"] }
console = "=0.15.11"
dirs = "=5.0.1"
flate2 = "=1.1.10"
indicatif = "=0.17.11"
itertools = "=0.11.0"
miette = "=5.10.0"
parking_lot = "=0.12.5"
pep440_rs = "=0.3.12"
pep508_rs = "=0.2.3"
pyproject-toml = "=0.8.1"
rattler_libsolv_rs = "=0.9.0"
tabwriter = "=1.4.1"
tar = "=0.4.46"
thiserror = "=1.0.69"
tokio = { version = "=1.54.1", features = ["rt-multi-thread", "macros"] }
tracing = "=0.1.44"
tracing-subscriber = "=0.3.23"
url = "=2.5.8"
which = "=4.4.2"
