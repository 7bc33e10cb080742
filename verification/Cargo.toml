[package]
name = "todolist"
version = "0.1.0"
edition = "2021"
publish = false

[dependencies]
sha1 = "=0.10.7"

[dev-dependencies]
scanf = "=1.3.1"
