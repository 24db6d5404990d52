[package]
name = "dtui"
version = "0.1.0"
edition = "2021"
publish = false

[dependencies]
zvariant = "4"
zbus = { version = "4", default-features = false, features = ["tokio"] }
zbus_xml = "4"
ratatui = "0.27"
crossterm = "0.27"
tui-textarea = "0.5"
tui-tree-widget = "0.21"
tokio = { version = "1", features = ["rt-multi-thread", "macros", "sync"] }
clap = { version = "4", features = ["derive"] }
tracing = "0.1"
tracing-subscriber = "0.3"
tracing-journald = "0.3"
itertools = "0.12"
async-recursion = "1"
