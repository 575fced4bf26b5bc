[package]
name = "jagua_rs"
version = "0.1.0"
edition = "2021"
publish = false

[dependencies]
itertools = "*"
rayon = "1"
log = "0.4"
serde = { version = "1", features = ["derive"] }
serde_json = "1"
clap = { version = "4", features = ["derive"] }
fern = "*"
humantime = "2"
svg = "*"
dxf = "*"
rand = { version = "0.8", features = ["small_rng"] }
mimalloc = "0.1"
ordered-float = "*"
enum_dispatch = "0.3"
rocket = { version = "0.5", features = ["json"] }
rocket_cors = "*"
rocket_dyn_templates = { version = "*", features = ["tera"] }
