pub mod auth;
pub mod error;
pub mod llm;
pub mod model;
pub mod rql;
pub mod store;
pub mod table;
pub mod text;
