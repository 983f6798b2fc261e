[package]
name = "coralswap"
version = "0.1.0"
edition = "2021"
publish = false

[dependencies]
ethnum = "1"
soroban-sdk = "22"
