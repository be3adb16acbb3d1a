[package]
name = "datafusion_ducklake"
version = "0.1.0"
edition = "2021"
publish = false

[dependencies]
arrow = { version = "=59.3.2", default-features = false }
chrono = "=0.4.45"
datafusion = { version = "=55.2.0", default-features = false }
duckdb = { version = "=1.10506.1", default-features = false }
futures = "=0.3.34"
object_store = { version = "=0.13.2", default-features = false }
sqlx = { version = "=0.9.0", default-features = false, features = ["runtime-tokio", "sqlite", "postgres", "mysql", "chrono"] }
tracing = "=0.1.44"

[dev-dependencies]
regex = "=1.13.1"
tokio = { version = "=1.54.1", default-features = false, features = ["rt"] }
