[package]
name = "mail_reader"
version = "0.1.0"
edition = "2021"
publish = false

[dependencies]
chrono = "0.4"
crossterm = "0.28"
dotenvy = "0.15"
html2text = "0.12"
imap = "2.4"
lettre = "0.11"
mailparse = "0.15"
native-tls = "0.2"
ratatui = "0.29"
tui-textarea = "0.7"
