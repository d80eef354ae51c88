[package]
name = "upside_down"
version = "0.1.0"
edition = "2021"
publish = false

[dependencies]
rand = "0.7"
winapi = { version = "0.3", features = ["errhandlingapi", "excpt", "libloaderapi", "minwinbase", "winnt"] }
