[package]
name = "asselect"
version = "0.1.0"
edition = "2021"
publish = false

[dependencies]
codee = { version = "=0.3.5", features = ["json_serde"] }
console_error_panic_hook = "=0.1.7"
futures = "=0.3.34"
gloo = { version = "=0.11.0", default-features = false, features = ["file", "net"] }
leptos = { version = "=0.7.8", features = ["csr"] }
leptos-use = { version = "=0.15.10", default-features = false, features = ["storage"] }
serde = { version = "=1.0.229", features = ["derive"] }
