[package]
name = "metw_mailer"
version = "0.1.0"
edition = "2021"
publish = false

[dependencies]
strfmt = "=0.2.6"
html-minifier = "=5.0.2"
rand = "=0.8.8"
lettre = { version = "=0.11.23", default-features = false, features = ["builder", "smtp-transport", "tokio1", "hostname", "pool"] }
serde = { version = "=1.0.229", features = ["derive"] }
axum = "=0.7.9"
tokio = { version = "=1.54.1", features = ["macros", "rt-multi-thread", "net"] }
dotenv = "=0.15.0"
