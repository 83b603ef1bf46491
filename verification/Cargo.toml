[package]
name = "socket_server"
version = "0.1.0"
edition = "2021"
publish = false

[dependencies]
data-encoding = "=2.11.1"
httparse = "=1.10.1"
sha1 = "=0.11.0"
mio = { version = "=1.2.4", features = ["net", "os-poll"] }
