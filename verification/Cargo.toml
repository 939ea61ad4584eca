[package]
name = "clios"
version = "0.1.0"
edition = "2021"
publish = false

[dependencies]
chrono = "*"
glob = "*"
inquire = "*"
nix = { version = "*", features = ["signal", "process", "term", "fs"] }
reqwest = { version = "*", default-features = false, features = ["blocking", "rustls-tls"] }
rhai = "*"
rustyline = { version = "*", features = ["derive"] }
serde = { version = "*", features = ["derive"] }
serde_json = "*"
shlex = "*"
toml = "*"
which = "*"
