[package]
name = "geofence_audit"
version = "0.1.0"
edition = "2021"
publish = false

[dependencies]
geo = "=0.33.1"
geo-types = "=0.7.20"
geo-raycasting = "=0.7.0"
serde_json = "=1.0.151"
mysql = { version = "=28.0.3", default-features = false, features = ["minimal-rust"] }
log = "=0.4.34"
env_logger = "=0.11.11"
