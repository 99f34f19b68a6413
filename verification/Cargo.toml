[package]
name = "mesh_parsers"
version = "0.1.0"
edition = "2021"
publish = false

[dependencies]
tree-sitter = "=0.25.10"
streaming-iterator = "=0.1.9"
tree-sitter-java = "=0.23.5"
tree-sitter-go = "=0.23.4"
tree-sitter-python = "=0.25.0"
tree-sitter-typescript = "=0.23.2"
tree-sitter-rust = "=0.24.2"
tree-sitter-cpp = "=0.23.4"
tree-sitter-kotlin-ng = "=1.1.0"
tree-sitter-c-sharp = "=0.23.5"
tree-sitter-ruby = "=0.23.1"
tree-sitter-php = "=0.25.1"
tree-sitter-swift = "=0.7.4"
tree-sitter-scala = "=0.26.4"
tree-sitter-proto = "=0.6.0"
regex = "=1.13.1"
serde = { version = "=1.0.229", features = ["derive"] }
serde_json = "=1.0.154"
serde_yaml = "=0.9.34"
thiserror = "=1.0.69"
tracing = "=0.1.44"
