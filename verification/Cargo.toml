[package]
name = "wasm-game-of-life"
version = "0.1.0"
edition = "2021"
publish = false

[dependencies]
itertools = "*"
js-sys = "*"
rand = "*"
wasm-bindgen = "*"
web-sys = { version = "*", features = ["CanvasRenderingContext2d", "WebGl2RenderingContext", "WebGlBuffer", "WebGlProgram", "WebGlShader", "WebGlTexture", "WebGlUniformLocation", "WebGlVertexArrayObject"] }
