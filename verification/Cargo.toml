[package]
name = "snake_game"
version = "0.1.0"
edition = "2021"
publish = false

[dependencies]
hecs = "=0.7.7"
quad-rand = "=0.2.3"
glam = "=0.34.1"
miniquad = "=0.4.11"
fontdue = "=0.9.5"
megaui = "=0.2.18"
