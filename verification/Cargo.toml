[package]
name = "the_super_tiny_compiler"
version = "0.1.0"
edition = "2021"
publish = false
