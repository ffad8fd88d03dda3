[package]
name = "wiki_rs"
version = "0.1.0"
edition = "2021"
publish = false

[dependencies]
anyhow = "=1.0.104"
bzip2-rs = "=0.1.2"
chrono = "=0.4.45"
memmap = "=0.7.0"
minidom = "=0.19.0"
parse_wiki_text = "=0.1.5"
rayon = "=1.12.0"
regex = "=1.13.1"
thiserror = "=1.0.69"
url = "=2.5.8"
urlencoding = "=2.1.3"
