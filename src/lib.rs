// A workflow engine: graphs of typed processing nodes run layer by layer,
// with each node's output handed on as its successor's input.

pub mod auth;
pub mod capability;
pub mod condition;
pub mod error;
pub mod laws;
pub mod model;
pub mod numeral;
pub mod scheduler;
pub mod store;
pub mod text;
