[package]
name = "genomic_fx"
version = "0.1.0"
edition = "2021"
publish = false

[dependencies]
bio = "*"
bio-types = "*"
csv = "*"
itertools = "*"
linked-hash-map = "*"
multimap = "*"
quick-error = "*"
regex = "*"
