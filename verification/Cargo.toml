[package]
name = "rap_machine"
version = "0.1.0"
edition = "2021"
publish = false

[dependencies]
p3-field = "*"
p3-baby-bear = "*"
p3-matrix = "*"
p3-air = "*"
p3-commit = "*"
p3-uni-stark = "*"
p3-challenger = "*"
p3-maybe-rayon = "*"
p3-util = "*"
itertools = "*"
hashbrown = "*"
serde = { version = "1", features = ["derive"] }
syn = "2"
quote = "1"
proc-macro2 = "1"
