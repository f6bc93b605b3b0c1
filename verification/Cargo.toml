[package]
name = "wowsunpack"
version = "0.1.0"
edition = "2021"
publish = false

[dependencies]
bevy_mikktspace = "=1.0.0"
gettext = "=0.4.0"
image = { version = "=0.25.10", default-features = false, features = ["png"] }
image_dds = "=0.7.2"
link-cplusplus = { version = "=1.0.12", features = ["libstdc++"] }
rootcause = "=0.13.0"
roxmltree = "=0.21.2"
serde = { version = "=1.0.229", features = ["derive"] }
serde_json = "=1.0.154"
thiserror = "=2.0.21"
toml = "*"
unidecode = "=0.3.0"
vfs = "=0.13.0"

[dev-dependencies]
winnow = "=0.7.15"
