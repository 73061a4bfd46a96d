[package]
name = "instaling_bot"
version = "0.1.0"
edition = "2021"
publish = false

[dependencies]
configparser = "=3.3.0"
json = "=0.12.4"
rand = "=0.8.8"
tl = "=0.2.1"
reqwest = { version = "=0.11.27", features = ["blocking", "cookies"] }
colored = "=3.1.1"
rustlate = "=1.0.0"
