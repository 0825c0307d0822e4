[package]
name = "blast_radius_engine"
version = "0.1.0"
edition = "2021"
publish = false

[dependencies]
tree-sitter = "*"
tree-sitter-rust = "*"
tree-sitter-typescript = "*"
tree-sitter-python = "*"
tree-sitter-java = "*"
tree-sitter-javascript = "*"
tree-sitter-bash = "*"
tree-sitter-html = "*"
tree-sitter-julia = "*"
tree-sitter-r = "*"
tree-sitter-json = "*"
tree-sitter-yaml = "*"
tree-sitter-toml-ng = "*"
tree-sitter-sequel = "*"
tree-sitter-prisma-io = "*"
tree-sitter-hcl = "*"
tree-sitter-go = "*"
tree-sitter-c-sharp = "*"
tree-sitter-php = "*"
tree-sitter-ruby = "*"
tree-sitter-c = "*"
tree-sitter-cpp = "*"
regex = "1"
blake3 = "1"
serde = { version = "1", features = ["derive"] }
serde_json = "1"
toml = "*"
ignore = "*"
clap = { version = "4", features = ["derive"] }
anyhow = "1"
