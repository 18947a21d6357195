[package]
name = "frontest"
version = "0.1.0"
edition = "2021"
publish = false

[dependencies]
gloo = { version = "0.8", features = ["futures"] }
wasm-bindgen = "0.2"
web-sys = { version = "0.3", features = ["Attr", "Document", "Element", "HtmlButtonElement", "HtmlCollection", "HtmlElement", "HtmlInputElement", "HtmlLabelElement", "HtmlMeterElement", "HtmlOutputElement", "HtmlProgressElement", "HtmlSelectElement", "HtmlTextAreaElement", "NamedNodeMap", "Node", "NodeList", "Window"] }
yew = { version = "0.20", features = ["csr"] }
