[package]
name = "munchrs"
version = "0.1.0"
edition = "2021"
publish = false

[dependencies]
tree-sitter = "*"
tree-sitter-python = "*"
tree-sitter-javascript = "*"
tree-sitter-typescript = "*"
tree-sitter-go = "*"
tree-sitter-rust = "*"
tree-sitter-java = "*"
tree-sitter-php = "*"
tree-sitter-c = "*"
tree-sitter-cpp = "*"
tree-sitter-c-sharp = "*"
tree-sitter-swift = "*"
tree-sitter-dart = "*"
tree-sitter-elixir = "*"
tree-sitter-erlang = "*"
sha2 = "*"
glob = "*"
regex = "*"
serde = { version = "*", features = ["derive"] }
serde_json = "*"
rmcp = { version = "*", features = ["server", "macros", "transport-io"] }
tokio = { version = "*", features = ["macros", "rt-multi-thread"] }
clap = { version = "*", features = ["derive", "env"] }
tracing = "*"
tracing-subscriber = { version = "*", features = ["env-filter"] }
dirs = "*"
ignore = "*"
shellexpand = "*"
reqwest = { version = "*", default-features = false, features = ["json"] }
chrono = "*"
