[package]
name = "literacy"
version = "0.1.0"
edition = "2021"
publish = false

[dependencies]
rand = "=0.9.5"
serde = { version = "=1.0.229", features = ["derive"] }
serde_json = "=1.0.154"
wasm-bindgen = "=0.2.129"
wasm-bindgen-futures = "=0.4.79"
web-sys = { version = "=0.3.106", features = ["AudioBuffer", "AudioBufferSourceNode", "AudioContext", "AudioDestinationNode", "AudioNode", "AudioScheduledSourceNode", "BaseAudioContext", "Document", "Element", "HtmlCollection", "Response", "ScrollBehavior", "ScrollIntoViewOptions", "ScrollLogicalPosition", "Window"] }
leptos = { version = "=0.8.22", features = ["ssr"] }
leptos_meta = { version = "=0.8.7", features = ["ssr"] }
leptos_router = { version = "=0.8.17", features = ["ssr"] }
leptos-mview = "=0.5.0"
leptos-use = "=0.20.0"
leptos_axum = "=0.8.10"
axum = "=0.8.9"
tokio = { version = "=1.54.1", features = ["rt-multi-thread", "macros", "net"] }
icondata = "*"
leptos_icons = "*"
