[package]
name = "bashdoc"
version = "0.4.12"
edition = "2021"
publish = false

[dependencies]
clap = "2.33"
colored = "1.9"
dirs = "1.0"
glob = "0.3"
handlebars = "3.5"
notify = "4.0"
rayon = "1"
serde = { version = "1.0", features = ["derive"] }
serde_json = "1.0"
toml = "0.5"
