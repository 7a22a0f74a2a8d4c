[package]
name = "async_stack_traces"
version = "0.1.0"
edition = "2021"
publish = false

[dependencies]
futures = "*"
futures-concurrency = "*"
