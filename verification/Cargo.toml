[package]
name = "tl_lang_syn"
version = "0.1.0"
edition = "2021"
publish = false

[dependencies]
nom = "4.2"
proc-macro2 = "1"
quote = "1"

[dev-dependencies]
lipsum = "*"
