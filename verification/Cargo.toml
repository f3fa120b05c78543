[package]
name = "sdf_text"
version = "0.1.0"
edition = "2021"
publish = false

[dependencies]
fontdue = "*"
sdf_glyph_renderer = "*"
