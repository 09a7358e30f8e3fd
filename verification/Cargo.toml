[package]
name = "xmltree"
version = "0.1.0"
edition = "2021"
publish = false

[dependencies]
xml-rs = "0.8"
indexmap = "2"
tree_iterators_rs = "*"
