[package]
name = "microdot"
version = "0.1.0"
edition = "2021"
publish = false

[dependencies]
anyhow = "=1.0.104"
hyphenation = { version = "=0.8.4", features = ["embed_en-us"] }
rustyline = "=18.0.1"
textwrap = { version = "=0.16.4", features = ["hyphenation"] }
