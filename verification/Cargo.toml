[package]
name = "chatcore"
version = "0.1.0"
edition = "2021"
publish = false

[dependencies]
scraper = "*"
reqwest = { version = "*", default-features = false }
tokio = { version = "*", features = ["macros", "rt-multi-thread", "sync", "time"] }
serenity = "*"
poise = "*"
dotenv = "*"
llama-cpp-2 = "*"
