[package]
name = "fast_fmt"
version = "0.1.0"
edition = "2021"
publish = false

[dependencies]
genio = "=0.2.1"
numtoa = "=0.0.7"
void = "=1.0.2"
