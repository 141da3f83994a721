[package]
name = "r1cs_std"
version = "0.1.0"
edition = "2021"
publish = false
