[package]
name = "webdav"
version = "0.1.0"
edition = "2021"
publish = false

[dependencies]
xml-rs = "0.8"
mime_guess = "1.8"
iron = "0.6"
time = "0.1"
