[package]
name = "jaq_core"
version = "1.5.0"
edition = "2021"
publish = false

[dependencies]
aho-corasick = "1"
base64 = "0.22"
hifijson = "0.2"
libm = "0.2"
log = "0.4"
regex = "1"
time = { version = "0.3", features = ["formatting", "parsing"] }
urlencoding = "2.1"
