[package]
name = "test_rocket_back"
version = "0.1.0"
edition = "2021"
publish = false

[dependencies]
rocket = { version = "0.5", features = ["json"] }
diesel = { version = "2", features = ["postgres"] }
diesel_migrations = "2"
rocket_sync_db_pools = { version = "0.1", features = ["diesel_postgres_pool"] }
