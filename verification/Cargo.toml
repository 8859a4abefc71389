[package]
name = "pitch-core"
version = "0.1.0"
edition = "2021"
publish = false

[dependencies]
rubato = "=0.16.2"
realfft = "=3.5.1"
swipe-rs = "=0.3.0"
pyin = "=1.2.0"
ndarray = "=0.16.1"
ort = { version = "=2.0.0-rc.10", default-features = false, features = ["ndarray", "load-dynamic"] }
thiserror = "=2.0.21"
pyo3 = "=0.30.1"
numpy = "=0.30.0"
