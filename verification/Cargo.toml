[package]
name = "eiriad"
version = "0.1.0"
edition = "2021"
publish = false

[dependencies]
reqwest = { version = "0.12", default-features = false, features = ["blocking"] }
tiny_http = "0.12"
wasm-bindgen = "0.2"
web-sys = { version = "0.3", features = ["Window", "Document", "Element", "Node", "EventTarget", "HtmlElement", "HtmlInputElement", "KeyboardEvent", "XmlHttpRequest"] }
