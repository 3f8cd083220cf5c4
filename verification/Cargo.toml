[package]
name = "confidential_storage"
version = "0.1.0"
edition = "2021"
publish = false

[dependencies]
anyhow = "1"
async-compression = { version = "0.4", features = ["tokio", "gzip"] }
async-trait = "0.1"
base64 = "0.22"
libc = "0.2"
log = "0.4"
nix = { version = "0.30", features = ["dir", "fs", "mount", "user"] }
oci-spec = { version = "0.8", features = ["runtime"] }
pathrs = "0.2"
procfs = "0.18"
serde = { version = "1", features = ["derive"] }
serde_json = { version = "1", features = ["raw_value"] }
sha2 = "0.10"
slog = "2"
slog-async = "2"
slog-scope = "4"
slog-stdlog = "4"
tokio = { version = "1", features = ["fs", "io-util", "process", "rt", "sync", "time", "macros"] }
toml = "0.5"
