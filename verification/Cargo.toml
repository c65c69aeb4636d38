[package]
name = "beancount_language_server"
version = "0.1.0"
edition = "2021"
publish = false

[dependencies]
thiserror = "=2.0.21"
tokio = { version = "=1.54.1", features = ["io-std", "macros", "rt-multi-thread", "sync"] }
tower-lsp = "=0.20.0"
tree-sitter = "=0.20.10"
tree-sitter-beancount = "=2.0.0"
trie-rs = "=0.4.2"
