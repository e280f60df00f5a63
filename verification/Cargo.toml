[package]
name = "picoserve"
version = "0.1.0"
edition = "2021"
publish = false

[dependencies]
lhash = { version = "=1.1.0", features = ["sha1"] }
data-encoding = { version = "=2.11.1", default-features = false }
const-sha1 = { version = "=0.3.0", default-features = false }
heapless = "=0.9.3"
serde = { version = "=1.0.229", default-features = false, features = ["derive"] }
embedded-io-async = "=0.7.0"
futures-util = { version = "=0.3.34", default-features = false }
ryu = "=1.0.23"
thiserror = { version = "=2.0.21", default-features = false }

[dev-dependencies]
futures-util = { version = "=0.3.34", default-features = false }
