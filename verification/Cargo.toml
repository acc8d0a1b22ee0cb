[package]
name = "symex"
version = "0.1.0"
edition = "2021"
publish = false

[dependencies]
armv6-m-instruction-parser = "*"
disarmv7 = "*"
gimli = "*"
hashbrown = "*"
object = "*"
regex = "*"
thiserror = "*"
