[package]
name = "rengo_client"
version = "0.1.0"
edition = "2021"
publish = false

[dependencies]
wasm-bindgen = "0.2"
js-sys = "0.3"
console_error_panic_hook = "0.1"
web-sys = { version = "0.3", features = ["BinaryType", "Blob", "CanvasRenderingContext2d", "CssStyleDeclaration", "Document", "Element", "Event", "EventTarget", "FileReader", "HtmlCanvasElement", "HtmlCollection", "HtmlElement", "HtmlImageElement", "HtmlInputElement", "KeyboardEvent", "MessageEvent", "MouseEvent", "Node", "ProgressEvent", "WebSocket", "Window", "console"] }

[dev-dependencies]
bincode = "1.3"
