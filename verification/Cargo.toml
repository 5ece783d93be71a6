[package]
name = "swap_assist"
version = "0.1.0"
edition = "2021"
publish = false

[dependencies]
ra_ap_syntax = "=0.0.300"
