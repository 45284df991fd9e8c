[package]
name = "dictation"
version = "0.1.0"
edition = "2021"
publish = false

[dependencies]
regex = "=1.13.1"
serde_json = "=1.0.154"
chrono = "=0.4.45"
rand = "=0.8.8"
ogg = "=0.9.2"
serde = { version = "=1.0.229", features = ["derive"] }
clap = { version = "=4.6.7", features = ["derive"] }
toml = "=0.8.23"
directories = "=5.0.1"
zbus = "=5.19.0"
tokio = { version = "=1.54.1", features = ["full"] }
tokio-stream = "=0.1.19"
futures-util = "=0.3.34"
reqwest = { version = "=0.12.28", features = ["stream", "multipart", "json"] }
bytes = "=1.12.1"
bytemuck = "=1.25.2"
hound = "=3.5.1"
atspi = "=0.30.0"
earshot = "1"
rubato = "=0.16.2"
audiopus = "=0.2.0"
notify = "=8.2.1"
async-trait = "=0.1.92"
