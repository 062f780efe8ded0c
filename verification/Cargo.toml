[package]
name = "vox_format"
version = "0.1.0"
edition = "2021"
publish = false

[dependencies]
byteorder = "1"
thiserror = "1"
log = "0.4"
serde = { version = "1", features = ["derive"] }
structopt = "0.3"
color-eyre = "0.5"
dotenv = "0.15"
pretty_env_logger = "0.4"
image = { version = "0.23", default-features = false, features = ["png"] }
