[package]
name = "telegram_onedrive"
version = "0.1.0"
edition = "2021"
publish = false

[dependencies]
mime_guess = "2"
url = "2"
percent-encoding = "2"
