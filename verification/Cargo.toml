[package]
name = "blocka_dns"
version = "0.1.0"
edition = "2021"
publish = false

[dependencies]
lru = { version = "=0.7.8", default-features = false }
libc = "=0.2.190"
tokio = { version = "=1.53.2", features = ["rt-multi-thread", "net", "time"] }
trust-dns-client = "=0.19.7"
trust-dns-proto = "=0.19.7"
trust-dns-resolver = "=0.19.7"
trust-dns-server = "=0.19.7"
doh-dns = "=0.2.0"
