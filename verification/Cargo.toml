[package]
name = "spell_check"
version = "0.1.0"
edition = "2021"
publish = false

[dependencies]
strsim = "*"
regex = "*"
rayon = "*"
log = "*"
env_logger = "*"
