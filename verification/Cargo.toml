[package]
name = "quickdraw_fonts"
version = "0.1.0"
edition = "2021"
publish = false

[dependencies]
ab_glyph = "0.2"
ttf-parser = "0.25"
