[package]
name = "schafkopf"
version = "0.1.0"
edition = "2021"
publish = false

[dependencies]
rand = "0.8"
yew = { version = "0.21", features = ["csr"] }
gloo = "0.10"
web-sys = { version = "0.3", features = ["HtmlDivElement", "MouseEvent", "CssStyleDeclaration"] }
