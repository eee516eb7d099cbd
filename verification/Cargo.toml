[package]
name = "td_sandbox"
version = "0.1.0"
edition = "2021"
publish = false

[dependencies]
rand = "=0.10.3"
bevy_northstar = { version = "=0.7.0", default-features = false }
bevy = { version = "=0.19.1", default-features = false, features = ["std", "bevy_state", "bevy_sprite", "bevy_log"] }
