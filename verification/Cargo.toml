[package]
name = "json_objects_to_csv"
version = "0.1.0"
edition = "2021"
publish = false

[dependencies]
csv = "*"
flatten-json-object = "*"
serde_json = "*"
tempfile = "*"
thiserror = "*"
