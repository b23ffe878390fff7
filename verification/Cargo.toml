[package]
name = "sel4_xml_types"
version = "0.1.0"
edition = "2021"
publish = false

[dependencies]
argh = "*"
minijinja = "*"
quick-xml = { version = "*", features = ["serialize"] }
roxmltree = "*"
serde = { version = "*", features = ["derive"] }
