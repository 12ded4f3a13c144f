[package]
name = "bevy_mod_ffi"
version = "0.1.0"
edition = "2021"

[dependencies]
bevy = { version = "0.17", default-features = false, features = ["std", "async_executor", "bevy_asset", "bevy_log"] }
bevy_ecs = "0.17"
bevy_reflect = "0.17"
bytemuck = "1"
libloading = "0.8"
thiserror = "2"
