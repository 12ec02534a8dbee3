[package]
name = "rosin_core"
version = "0.1.0"
edition = "2021"
publish = false

[dependencies]
qfilter = "=0.3.1"
cssparser = "=0.38.0"
fluent-bundle = "=0.16.0"
unic-langid = "=0.9.6"
intl-memoizer = "=0.5.3"
