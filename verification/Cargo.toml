[package]
name = "nom_greedyerror"
version = "0.1.0"
edition = "2021"
publish = false

[dependencies]
nom = { version = "6", default-features = false, features = ["std"] }
nom_locate = "3"
