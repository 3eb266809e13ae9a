[package]
name = "email_classifier"
version = "0.1.0"
edition = "2021"
publish = false

[dependencies]
fastembed = { version = "=4.9.1", default-features = false, features = ["hf-hub-native-tls", "ort-load-dynamic"] }
linfa = "=0.7.1"
linfa-logistic = "=0.7.1"
mail-parser = "=0.11.9"
ndarray = "=0.15.6"
psl = "=2.1.246"
redb = "=2.6.4"
serde = { version = "1", features = ["derive"] }
serde_json = "1"
