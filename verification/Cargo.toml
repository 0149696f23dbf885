[package]
name = "pprof"
version = "0.1.0"
edition = "2021"
publish = false

[dependencies]
backtrace = "0.3"
findshlibs = "0.10"
libc = "0.2"
log = "0.4"
nix = { version = "0.26", default-features = false, features = ["signal"] }
once_cell = "1.9"
parking_lot = "0.12"
smallvec = "1.7"
