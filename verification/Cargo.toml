[package]
name = "mandelbrot"
version = "0.1.0"
edition = "2021"
publish = false

[dependencies]
url = "*"
wasm-bindgen = "*"
js-sys = "*"
console_error_panic_hook = "*"
web-sys = { version = "*", features = ["CanvasRenderingContext2d", "CssStyleDeclaration", "Document", "Element", "HtmlCanvasElement", "HtmlElement", "ImageData", "Location", "Node", "Window"] }
