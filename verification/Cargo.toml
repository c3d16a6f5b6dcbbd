[package]
name = "oscilloscope-me"
version = "0.1.0"
edition = "2021"
publish = false

[dependencies]
clap = { version = "4", features = ["derive"] }
cpal = "0.15"
crossbeam-channel = "0.5"
crossterm = "0.28"
ctrlc = "3"
num-complex = "0.4"
nusb = "0.2"
ratatui = "0.29"
rs-spy = "*"
rtl-sdr-rs = "*"
rubato = "0.16"
symphonia = { version = "0.5", features = ["mp3"] }
