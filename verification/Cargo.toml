[package]
name = "probe_engine"
version = "0.1.0"
edition = "2021"
publish = false

[dependencies]
clap = { version = "4", features = ["derive"] }
colored = "2"
futures = "0.3"
get_if_addrs = "0.5"
rayon = "1"
reqwest = "0.12"
tasklist = "*"
tokio = { version = "1", features = ["macros", "rt-multi-thread"] }
windows = { version = "0.58", features = ["Win32_Foundation", "Win32_NetworkManagement_NetManagement", "Win32_Security", "Win32_System_Services"] }
