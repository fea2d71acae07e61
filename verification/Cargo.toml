[package]
name = "timetable_calendar"
version = "0.1.0"
edition = "2021"
publish = false

[dependencies]
chrono = "0.4"
xxhash-rust = { version = "0.8", features = ["xxh3"] }
serde = { version = "1", features = ["derive"] }
serde_json = "1"
actix-web = { version = "4", default-features = false, features = ["macros", "cookies"] }
maud = { version = "*", features = ["actix-web"] }
reqwest = { version = "*", default-features = false, features = ["json"] }
scraper = "*"
env_logger = "*"
