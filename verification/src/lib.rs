//! Directory tree assembly and change-notification decisions.

pub mod bridge;
pub mod directories;
pub mod fanout;
pub mod forest;
pub mod node;
pub mod row;
pub mod session;
pub mod tree_builder;
pub mod tree_laws;
pub mod tree_lemmas;
pub mod tree_model;
