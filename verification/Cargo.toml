[package]
name = "code_retriever"
version = "0.1.0"
edition = "2021"
publish = false

[dependencies]
tiktoken-rs = "=0.12.1"
sha2 = "=0.11.1"
hex = "=0.4.3"
tree-sitter = "=0.27.1"
tree-sitter-python = "=0.25.0"
tree-sitter-java = "=0.23.5"
tree-sitter-typescript = "=0.23.2"
tree-sitter-cpp = "=0.23.4"
tree-sitter-go = "=0.25.0"
tree-sitter-rust = "=0.24.2"
tree-sitter-ruby = "=0.23.1"
tree-sitter-php = "=0.25.1"
tree-sitter-c-sharp = "=0.23.5"
tree-sitter-c = "=0.24.2"
tree-sitter-language = "=0.1.9"
petgraph = "=0.8.3"
anyhow = "=1.0.104"
clap = { version = "=4.6.7", features = ["derive"] }
ignore = "=0.4.34"
serde = { version = "=1.0.229", features = ["derive"] }
serde_json = "=1.0.154"
regex = "1"
globset = "0.4"
