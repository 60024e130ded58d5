[package]
name = "fluid"
version = "0.1.0"
edition = "2021"
publish = false

[dependencies]
syn = "2"
proc-macro2 = "1"
quote = "1"
wasm-bindgen = "0.2"
wasm-bindgen-futures = "0.4"
web-sys = { version = "0.3", features = ["Document", "Element", "Event", "EventTarget", "HtmlElement", "Node", "Text", "Window"] }
gloo-utils = "0.2"
gloo-console = "0.3"
log = "0.4"
console_log = "1"
console_error_panic_hook = "0.1"
rayon = "1"
wee_alloc = "0.4"
