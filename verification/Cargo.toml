[package]
name = "wdl"
version = "0.1.0"
edition = "2021"
publish = false

[dependencies]
regex = "=1.13.1"
pest = "=2.9.5"
pest-wdl-1 = "=0.1.5"
tree-sitter = "=0.20.10"
tree-sitter-wdl-1 = "=0.1.10"
error-stack = "=0.3.1"
thiserror = "=1.0.69"
