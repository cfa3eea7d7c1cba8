[package]
name = "blinools"
version = "0.1.0"
edition = "2021"
publish = false

[dependencies]
anyhow = "1"
clap = { version = "4", features = ["derive"] }
clap_complete = { version = "4", features = ["unstable-dynamic"] }
config = { version = "=0.15.27", default-features = false, features = ["toml"] }
garde = { version = "=0.22.1", features = ["derive"] }
imago = { version = "=0.2.6", default-features = false, features = ["sync"] }
libc = "0.2"
log = "0.4"
rand = "=0.9.5"
serde = { version = "1", features = ["derive"] }
serde_json = "=1.0.154"
tabled = "=0.20.0"
unicode-general-category = "=1.1.0"
vte = { version = "=0.15.0", default-features = false }
wait-timeout = "0.2"

[dev-dependencies]
tempfile = "3"
