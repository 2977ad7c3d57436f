[package]
name = "ttrack"
version = "0.1.0"
edition = "2021"

[dependencies]
chrono = "0.4"
uuid = { version = "*", features = ["v4"] }
rusqlite = { version = "*", features = ["bundled"] }
dirs = "*"
exitcode = "*"
structopt = "0.3"
