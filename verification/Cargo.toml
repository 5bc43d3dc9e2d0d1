[package]
name = "delphis_nap"
version = "0.1.0"
edition = "2021"

[dependencies]
chrono = "=0.4.45"
env_logger = "0.11"
plotters = { version = "0.3", default-features = false, features = ["bitmap_backend", "bitmap_encoder", "line_series", "chrono"] }
polars = { version = "*", default-features = false, features = ["csv", "dtype-date", "temporal", "fmt"] }
reqwest = { version = "0.12", default-features = false, features = ["blocking", "rustls-tls"] }
