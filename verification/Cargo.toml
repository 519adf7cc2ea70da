[package]
name = "sensor_plot"
version = "0.1.0"
edition = "2021"
publish = false

[dependencies]
chrono = "0.4"
crossterm = "0.25"
csv = "1"
encoding_rs = "0.8"
encoding_rs_io = "0.1"
itertools = "0.10"
rusqlite = { version = "0.28", features = ["bundled"] }
serde_json = "1"
tui = "0.19"
tui-tree-widget = "0.11"
