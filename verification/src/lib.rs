//! The client side of Herdr: pane-visit history, the frontend socket's request
//! handling, the observations it publishes, and the sidebar configuration.
pub mod connection;
pub mod endpoint;
pub mod frontend_api;
pub mod history;
pub mod json;
pub mod keyed;
pub mod observation;
pub mod shell;
pub mod sidebar;
pub mod sidebar_rules;
pub mod sidebar_tokens;
pub mod text;
