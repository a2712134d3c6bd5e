[package]
name = "rag_pipeline"
version = "0.1.0"
edition = "2021"
publish = false

[dependencies]
uuid = { version = "=1.27.0", features = ["v4"] }
anyhow = "1"
async-trait = "0.1"
futures = "0.3"
tokio = { version = "1", features = ["macros", "rt-multi-thread"] }
inquire = "=0.9.4"
lopdf = "=0.45.0"
async-openai = { version = "=0.42.1", features = ["chat-completion", "embedding"] }
gemini-rust = "=2.1.0"
groqai = "=0.1.10"
