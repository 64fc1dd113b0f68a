[package]
name = "family_frame"
version = "0.1.0"
edition = "2021"
publish = false

[dependencies]
image = { version = "=0.25.10", default-features = false, features = ["png"] }
anyhow = "=1.0.104"
clap = { version = "=4.6.7", features = ["derive"] }
tokio = { version = "=1.54.1", features = ["rt-multi-thread", "macros", "time"] }
reqwest = { version = "=0.12.28", default-features = false }
chrono = { version = "=0.4.45", default-features = false, features = ["clock", "std"] }
tracing = "=0.1.44"
tracing-subscriber = { version = "=0.3.23", features = ["env-filter", "fmt"] }
sha2 = "=0.10.9"
hex = "=0.4.3"
md-5 = "=0.10.6"
base64 = "=0.22.1"
chrono-tz = { version = "=0.10.4", default-features = false, features = ["std"] }
icalendar = "=0.17.17"
rrule = "=0.14.0"
aes = "=0.8.4"
cbc = { version = "=0.1.2", features = ["alloc", "block-padding"] }
flate2 = "=1.1.10"
serde_json = "=1.0.154"
rand = "0.8"
num-bigint = "0.4"
