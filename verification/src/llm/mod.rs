//! Health tracking of the LLM roles (ingestion and retrieval).
pub mod health;
