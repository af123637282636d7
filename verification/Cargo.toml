[package]
name = "music_speed"
version = "0.1.0"
edition = "2021"
publish = false

[dependencies]
rayon = "1"
minimp3 = "0.5"
pbr = "1"
clap = "2"
