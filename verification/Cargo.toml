[package]
name = "steiger"
version = "0.1.0"
edition = "2021"
publish = false

[dependencies]
sha2 = "=0.10.9"
hex = "=0.4.3"
docker_credential = "=1.4.0"
change-case = "*"
oci-client = "=0.18.0"
tokio = { version = "=1.53.2", features = ["full"] }
which = "*"
clap = { version = "=4.6.7", features = ["derive"] }
serde = { version = "=1.0.229", features = ["derive"] }
serde_yml = "=0.0.13"
