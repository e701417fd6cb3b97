[package]
name = "resizable_canvas"
version = "0.1.0"
edition = "2021"
publish = false

[dependencies]
gloo = "0.11"
serde = { version = "1", features = ["derive"] }
wasm-bindgen = "0.2"
web-sys = { version = "0.3", features = ["DomRect", "Element", "MouseEvent", "SvgsvgElement", "Window"] }
yew = { version = "0.21", features = ["csr"] }
