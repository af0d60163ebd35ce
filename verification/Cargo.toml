[package]
name = "semquery"
version = "0.2.0"
edition = "2021"
publish = false

[dependencies]
anyhow = "=1.0.104"
async-trait = "=0.1.92"
chrono = "=0.4.45"
clap = { version = "=4.6.7", features = ["derive"] }
dirs = "=6.0.0"
encoding_rs = "=0.8.44"
fastembed = { version = "=5.13.4", default-features = false, features = ["hf-hub", "ort-load-dynamic"] }
flexi_logger = "=0.31.10"
glob = "=0.3.4"
hf-hub = { version = "=0.5.0", default-features = false, features = ["ureq"] }
jieba-rs = "=0.8.1"
llama-cpp-2 = { version = "=0.1.160", default-features = false }
log = "=0.4.35"
pdf-extract = "=0.10.0"
rayon = "=1.12.0"
regex = "=1.13.1"
rusqlite = { version = "=0.37.0", features = ["bundled"] }
serde = { version = "=1.0.229", features = ["derive"] }
serde_json = "=1.0.154"
sha2 = "=0.10.9"
sqlite-vec = "=0.1.9"
thiserror = "=2.0.21"
tokenizers = { version = "=0.22.2", default-features = false, features = ["fancy-regex"] }
tokio = { version = "=1.54.1", features = ["rt-multi-thread", "macros", "sync"] }
tokio-stream = "=0.1.19"
toml = "=0.9.12"
walkdir = "=2.5.0"

[dev-dependencies]
lopdf = "=0.38.0"
