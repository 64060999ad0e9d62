[package]
name = "csi_types"
version = "0.1.0"
edition = "2021"
publish = false

[dependencies]
num = "0.4"
serde = { version = "1", features = ["derive"] }
bincode = "1.3"
reqwest = { version = "0.11", default-features = false, features = ["blocking"] }
crossbeam = "0.8"
ctrlc = "3"
exitfailure = "0.5"
structopt = "0.3"
actix-web = { version = "4", default-features = false, features = ["macros"] }
actix-rt = "2"
bytes = "1"
chrono = { version = "0.4", features = ["serde"] }
csv = "1"
env_logger = "0.10"
futures = "0.3"
