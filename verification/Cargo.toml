[package]
name = "rdf_to_html"
version = "0.1.0"
edition = "2021"
publish = false

[dependencies]
rio_api = "*"
rio_turtle = "*"
url = "*"
serde = { version = "*", features = ["derive"] }
tera = "*"
clap = { version = "*", features = ["derive"] }
walkdir = "*"
