[package]
name = "fluster_core"
version = "0.1.0"
edition = "2021"
publish = false

[dependencies]
uuid = { version = "1", features = ["v4"] }
serde = { version = "1", features = ["derive"] }
bincode = "1"
circular = "0.3"
specs = "0.20"
palette = "0.5"
pathfinder_geometry = "0.5"
pathfinder_color = "0.5"
pathfinder_content = "0.5"
pathfinder_canvas = { version = "0.5", default-features = false }
streaming-iterator = "0.1"
serde_bytes = "0.11"

[dev-dependencies]
nom = { version = "5", default-features = false }
