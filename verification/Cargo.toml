[package]
name = "kube-ingress-dns-manager"
version = "0.1.0"
edition = "2021"
publish = false

[dependencies]
serde = { version = "1", features = ["derive"] }
config = { version = "0.15", default-features = false, features = ["yaml"] }
tokio = { version = "1", features = ["macros", "rt-multi-thread", "signal", "time"] }
futures = "0.3"
kube = { version = "*", default-features = false, features = ["client", "runtime", "rustls-tls"] }
k8s-openapi = { version = "*", features = ["latest"] }
reqwest = { version = "0.12", default-features = false, features = ["rustls-tls", "hickory-dns", "json"] }
aws-config = { version = "1", features = ["behavior-version-latest"] }
aws-sdk-route53 = "1"
chrono = "0.4"
