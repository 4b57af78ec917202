[package]
name = "wave_poles"
version = "0.1.0"
edition = "2021"
publish = false

[dependencies]
bevy = { version = "=0.6.1", default-features = false, features = ["render", "bevy_winit", "x11"] }
bevy_egui = { version = "=0.11.1", default-features = false }
itertools = "=0.10.5"
# bevy's derive crates use the `full` feature of syn without asking for it;
# this macro crate, which bevy's windowing names as well, asks for it.
ndk-macro = "=0.3.0"
