[package]
name = "llm_tui"
version = "0.1.0"
edition = "2021"
publish = false

[dependencies]
anyhow = "*"
crossterm = "*"
llm = { version = "*", default-features = false, features = ["openai", "anthropic", "google", "groq", "ollama", "xai", "phind"] }
ratatui = "*"
tokio = { version = "*", features = ["rt-multi-thread", "macros", "time", "sync"] }
tui-markdown = "*"
