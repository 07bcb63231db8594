pub mod document;
pub mod project;
pub mod conversation;
