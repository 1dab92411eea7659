[package]
name = "hashcode_score_calc"
version = "0.1.0"
edition = "2021"
publish = false

[dependencies]
itertools = "0.9"
thiserror = "1.0"
