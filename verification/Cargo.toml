[package]
name = "pwm2_rust"
version = "0.1.0"
edition = "2021"
publish = false

[dependencies]
sha2 = "0.10"
chrono = { version = "0.4", default-features = false, features = ["std", "clock"] }
rand = "0.8"
rpassword = "7"
clearscreen = "2"
device_query = "2"
local-ip-address = "*"
