[package]
name = "glicol_cli"
version = "0.1.0"
edition = "2021"
publish = false

[dependencies]
anyhow = "*"
chrono = "*"
clap = { version = "*", features = ["derive"] }
cpal = "*"
crossterm = "*"
dirs = "*"
glicol = "*"
glicol_synth = "*"
hashbrown = "*"
hound = "*"
notify = "*"
ratatui = "*"
rayon = "*"
ringbuf = "*"
symphonia = "*"
tracing = "*"
tracing-subscriber = "*"
walkdir = "*"
