[package]
name = "cg_clif"
version = "0.1.0"
edition = "2021"
publish = false

[dependencies]
cranelift = "=0.130.2"
cranelift-module = "=0.130.2"
cranelift-object = "=0.130.2"
target-lexicon = "0.13"

[dev-dependencies]
object = { version = "*", features = ["read", "write"] }
