[package]
name = "vdom"
version = "0.1.0"
edition = "2021"
publish = false

[dependencies]
anyhow = "1"
wasm-bindgen = "0.2"
web-sys = { version = "0.3", features = ["Window", "Document", "Element", "Node", "Text", "HtmlInputElement", "HtmlTextAreaElement", "HtmlSelectElement", "FileList", "File", "InputEvent", "Location"] }
