[package]
name = "lifter"
version = "0.1.0"
edition = "2021"

[dependencies]
iced-x86 = { version = "*", default-features = false, features = ["std", "decoder"] }
object = "*"
rangemap = "*"
