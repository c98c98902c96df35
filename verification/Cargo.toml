[package]
name = "standby"
version = "0.2.0"
edition = "2021"
publish = false

[dependencies]
clap = { version = "4", features = ["derive"] }
thiserror = "1"
nix = { version = "0.29", features = ["signal", "process", "term", "poll", "time", "fs"] }
winapi = { version = "0.3", features = ["processthreadsapi", "winnt"] }
