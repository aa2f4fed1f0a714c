[package]
name = "tasklist"
version = "0.1.0"
edition = "2021"
publish = false

[dependencies]
gloo = { version = "0.11", default-features = false, features = ["console", "dialogs", "storage", "utils"] }
gloo-events = "0.2"
wasm-bindgen = "0.2"
web-sys = { version = "0.3", features = ["Document", "DomTokenList", "Element", "Event", "EventTarget", "HtmlButtonElement", "HtmlElement", "HtmlInputElement", "HtmlUListElement", "Node", "Storage", "Window"] }
