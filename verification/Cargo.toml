[package]
name = "k9"
version = "0.1.0"
edition = "2021"
publish = false

[dependencies]
proc-macro2 = { version = "1", features = ["span-locations"] }
diff = "0.1"
colored = "2"
regex = "1"
terminal_size = "0.3"
libc = "0.2"

[dev-dependencies]
strip-ansi-escapes = "0.2"
