[package]
name = "covid19db"
version = "0.1.0"
edition = "2021"
publish = false
