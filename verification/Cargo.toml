[package]
name = "bitspan_codec"
version = "0.1.0"
edition = "2021"
publish = false

[dependencies]
borsh = "=1.8.1"
wyz = "=0.5.1"
