[package]
name = "atlas"
version = "0.1.0"
edition = "2021"
publish = false

[dependencies]
rand = "=0.10.3"
wasm-bindgen = "=0.2.129"
js-sys = "=0.3.106"
web-sys = { version = "=0.3.106", features = ["BroadcastChannel", "DedicatedWorkerGlobalScope", "EventTarget", "MessageChannel", "MessageEvent", "MessagePort", "OffscreenCanvas", "Worker", "console"] }
tokio = { version = "=1.54.1", default-features = false, features = ["sync"] }
serde-wasm-bindgen = "=0.6.5"
serde = "=1.0.229"
log = "=0.4.34"
fern = "=0.7.1"
console_log = "=1.1.0"
console_error_panic_hook = "=0.1.7"
rayon = "=1.12.0"
syn = "=3.0.9"
proc-macro2 = "=1.0.107"
