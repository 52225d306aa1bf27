[package]
name = "mmftool"
version = "0.1.0"
edition = "2021"
publish = false

[dependencies]
anyhow = "=1.0.104"
mmf_parser = "=0.1.2"
pretty_env_logger = "=0.5.0"
