[package]
name = "serial_telemetry"
version = "0.1.0"
edition = "2021"
publish = false

[dependencies]
chrono = { version = "0.4", default-features = false, features = ["clock"] }
colored = "2"
csv = "1"
serialport = { version = "4", default-features = false }
