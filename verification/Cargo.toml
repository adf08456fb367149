[package]
name = "rgbconv"
version = "0.1.0"
edition = "2021"
