[package]
name = "byteos"
version = "0.1.0"
edition = "2021"
publish = false

[dependencies]
uart_16550 = "=0.2.19"
buddy_system_allocator = "=0.13.0"
spin = "=0.9.9"
dtb-walker = "=0.1.3"
syn = { version = "=2.0.119", features = ["full"] }
quote = "=1.0.47"
proc-macro2 = "=1.0.107"
