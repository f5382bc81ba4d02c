[package]
name = "canp"
version = "0.1.0"
edition = "2021"
publish = false

[dependencies]
anyhow = "*"
arrow = "*"
bytes = "*"
can-dbc = "*"
chrono = "*"
crossbeam = "*"
flate2 = "*"
futures = "*"
lock_pool = "*"
lru = "*"
memmap2 = "*"
metrics = "*"
metrics-exporter-prometheus = "*"
num_cpus = "*"
parquet = "*"
rayon = "*"
serde = { version = "*", features = ["derive"] }
serde_json = "*"
sysinfo = "*"
tempfile = "*"
threadpool = "*"
tokio = { version = "*", features = ["full"] }
tracing = "*"
tracing-subscriber = "*"
