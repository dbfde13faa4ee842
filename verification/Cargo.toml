[package]
name = "rusty_xml"
version = "0.1.0"
edition = "2021"
publish = false
