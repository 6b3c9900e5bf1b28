[package]
name = "k8netd"
version = "0.1.0"
edition = "2021"
publish = false

[dependencies]
dhcproto = "*"
hickory-proto = "*"
libc = "0.2"
serde = { version = "1", features = ["derive"] }
serde_json = "1"
thiserror = "2"
tracing = "0.1"
tracing-subscriber = { version = "0.3", features = ["env-filter"] }
vhost = { version = "*", features = ["vhost-user-frontend", "vhost-user-backend"] }
vhost-user-backend = "*"
virtio-queue = "*"
vm-memory = { version = "*", features = ["backend-mmap", "backend-atomic"] }
vmm-sys-util = "*"
