[package]
name = "synth_engine"
version = "0.1.0"
edition = "2021"
publish = false

[dependencies]
cpal = "=0.15.3"
pollster = "0.3"
simple_logger = "5"
winit = "0.30"
