[package]
name = "zettel_diag"
version = "0.1.0"
edition = "2021"
publish = false

[dependencies]
lsp-document = "=0.6.0"
lsp-types = "=0.93.2"
