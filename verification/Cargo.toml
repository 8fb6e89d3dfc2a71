[package]
name = "desmos_test_tube"
version = "0.1.0"
edition = "2021"
publish = false

[dependencies]
desmos-bindings = "=3.0.0"
prost = "=0.12.6"
cosmrs = "=0.20.0"
cosmwasm-std = "=2.3.5"
serde = "=1.0.229"
test-tube = "=0.9.0"
