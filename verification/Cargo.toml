[package]
name = "dom_logo"
version = "0.1.0"
edition = "2021"
publish = false

[dependencies]
serde = { version = "1", features = ["derive"] }
wasm-bindgen = { version = "=0.2.92", features = ["serde-serialize"] }
web-sys = { version = "=0.3.69", features = ["Window", "Document", "Element", "HtmlCanvasElement", "CanvasRenderingContext2d"] }
