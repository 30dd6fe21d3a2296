[package]
name = "startpage"
version = "0.1.0"
edition = "2021"
publish = false

[dependencies]
bcrypt = "=0.15.1"
chrono = "=0.4.45"
cookie = "=0.18.2"
fern = "=0.6.2"
jsonwebtoken = "=9.3.1"
log = "=0.4.34"
regex = "=1.13.1"
rocket = { version = "=0.5.2", features = ["json"] }
rocket_db_pools = { version = "0.2", features = ["sqlx_mysql", "deadpool_redis"] }
serde = { version = "=1.0.229", features = ["derive"] }
sha2 = "=0.10.9"
sqlx = { version = "=0.7.4", default-features = false, features = ["mysql", "chrono", "macros"] }
uuid = { version = "=1.29.0", features = ["v4"] }
