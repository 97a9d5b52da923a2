[package]
name = "event_schedule"
version = "0.1.0"
edition = "2021"
publish = false

[dependencies]
chrono = "=0.4.45"
diesel = { version = "2", features = ["sqlite", "chrono", "r2d2"] }
juniper = "0.16"
juniper_rocket = "0.9"
maud = { version = "0.26", features = ["rocket"] }
rocket = { version = "0.5", features = ["json"] }
rocket_sync_db_pools = { version = "0.1", features = ["diesel_sqlite_pool"] }
serde = { version = "1", features = ["derive"] }
uuid = { version = "=0.8.2", features = ["v4"] }
