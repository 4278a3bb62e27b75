[package]
name = "etw-gecko"
version = "0.1.0"
edition = "2021"
publish = false

[dependencies]
bitflags = "2"
debugid = "0.8"
etw-reader = "*"
fxprof-processed-profile = "0.7"
pico-args = "0.5"
serde_json = "1"
uuid = "1"
