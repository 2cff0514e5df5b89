[package]
name = "iced_css"
version = "0.1.0"
edition = "2021"
publish = false

[dependencies]
cssparser = "=0.35.0"
iced = { version = "=0.14.0", default-features = false, features = ["advanced", "x11", "tiny-skia", "thread-pool"] }
syn = { version = "=2.0.119", features = ["full", "visit-mut"] }
quote = "=1.0.47"
proc-macro2 = "=1.0.107"
