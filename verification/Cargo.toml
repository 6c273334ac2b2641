[package]
name = "s2binlib"
version = "0.1.0"
edition = "2021"
publish = false

[dependencies]
anyhow = "=1.0.104"
object = "=0.37.3"
iced-x86 = "=1.22.0"
hashbrown = "=0.17.1"
cpp_demangle = "=0.5.1"
msvc-demangler = "=0.11.0"
region = "=4.0.1"
serde = { version = "=1.0.229", features = ["derive"] }
serde_json = "=1.0.154"
log = "=0.4.35"
clap = { version = "=4.6.7", features = ["derive"] }
stringvec = "=0.1.0"
tracing-subscriber = "=0.3.23"
