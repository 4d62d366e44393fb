[package]
name = "gix-command"
version = "0.4.1"
edition = "2021"
publish = false

[dependencies]
bstr = { version = "1.5.0", default-features = false, features = ["std", "unicode"] }
gix-path = "0.10.14"
gix-quote = "0.4.15"
gix-trace = "0.1.12"
shell-words = "1.0"
