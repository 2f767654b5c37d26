[package]
name = "externalip_manager"
version = "0.1.0"
edition = "2021"
publish = false

[dependencies]
kube = { version = "=3.1.0", default-features = false, features = ["client", "derive", "runtime", "rustls-tls"] }
k8s-openapi = { version = "=0.27.1", features = ["latest"] }
tokio = { version = "*", features = ["macros", "rt-multi-thread", "time", "sync"] }
reqwest = { version = "*", default-features = false, features = ["json", "rustls-tls"] }
hickory-resolver = "*"
serde = { version = "*", features = ["derive"] }
serde_json = "*"
schemars = "*"
anyhow = "*"
thiserror = "*"
async-trait = "*"
tracing = "*"
