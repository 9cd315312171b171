[package]
name = "sfz"
version = "0.7.1"
edition = "2021"
publish = false

[dependencies]
async-compression = { version = "0.3", features = ["tokio", "brotli", "deflate", "gzip"] }
bytes = "1"
chrono = "0.4"
clap = { version = "3", features = ["cargo"] }
futures = "0.3"
headers = "0.3"
hyper = { version = "0.14", features = ["http1", "server", "runtime", "stream", "tcp"] }
ignore = "0.4"
mime_guess = "2"
percent-encoding = "2"
qstring = "0.7"
serde = { version = "1", features = ["derive"] }
tempfile = "3"
tera = { version = "1", default-features = false }
tokio = { version = "1", features = ["rt-multi-thread", "macros", "sync", "io-util"] }
tokio-util = { version = "0.7", features = ["io"] }
zip = { version = "0.6", default-features = false }
