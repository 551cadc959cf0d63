[package]
name = "ascii_art"
version = "0.1.0"
edition = "2021"
publish = false

[dependencies]
image = { version = "*", default-features = false, features = ["png", "jpeg", "gif", "bmp", "webp", "tiff"] }
rayon = "*"
eframe = { version = "*", default-features = false, features = ["default_fonts", "glow", "x11"] }
poll-promise = "*"
pollster = "*"
rfd = { version = "*", default-features = false, features = ["xdg-portal", "tokio"] }
log = "*"
wasm-bindgen = "*"
wasm-bindgen-futures = "*"
js-sys = "*"
web-sys = { version = "*", features = ["HtmlCanvasElement", "HtmlInputElement", "HtmlElement", "Window", "Document", "Element", "Node", "EventTarget", "FileList", "File", "FileReader", "Blob", "BlobPropertyBag", "Url", "MouseEvent", "Event", "CssStyleDeclaration"] }
