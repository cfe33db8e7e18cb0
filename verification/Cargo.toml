[package]
name = "pressure_field"
version = "0.1.0"
edition = "2021"
publish = false

[dependencies]
softfloat = "=1.0.0"
rustc_apfloat = "=0.1.3"
glium = "=0.25.1"
time = "=0.1.45"
