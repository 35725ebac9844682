[package]
name = "workbench"
version = "0.1.0"
edition = "2021"
publish = false

[dependencies]
uuid = { version = "=1.29.0", features = ["v4", "serde"] }
rand = "=0.8.8"
mime_guess = "=2.0.5"
url = "=2.5.8"
chrono = { version = "=0.4.45", features = ["serde"] }
serde = { version = "=1.0.229", features = ["derive"] }
serde_json = "=1.0.154"
clap = { version = "=4.6.7", features = ["derive"] }
tokio = { version = "=1.54.1", features = ["full"] }
axum = { version = "=0.6.20", features = ["ws"] }
hyper = { version = "=0.14.32", features = ["full"] }
tower-http = { version = "=0.4.4", features = ["fs", "trace"] }
tokio-util = { version = "=0.7.20", features = ["io"] }
tracing-subscriber = { version = "=0.3.23", features = ["env-filter"] }
dotenv = "=0.15.0"
futures = "=0.3.34"
once_cell = "=1.21.4"
ordered-float = { version = "=3.9.2", features = ["rand"] }
ndarray = "=0.15.6"
itertools = "=0.11.0"
rayon = "=1.12.0"
reqwest = { version = "=0.11.27", default-features = false, features = ["json", "rustls-tls", "multipart"] }
git2 = { version = "=0.18.3", default-features = false }
oauth2 = { version = "=4.4.2", default-features = false, features = ["reqwest", "rustls-tls"] }
plotters = { version = "=0.3.7", default-features = false, features = ["bitmap_backend", "bitmap_encoder", "line_series", "point_series"] }
ping = "=0.5.2"
image = "=0.24.9"
imageproc = "0.23"
rusttype = "0.9"
