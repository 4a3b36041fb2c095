[package]
name = "kq_cx"
version = "0.1.0"
edition = "2021"
publish = false

[dependencies]
heapless = "0.7"
hash32 = "0.2"
pgrx = { version = "0.12", features = ["pg16"] }
