//! Domain model, validation rules and storage semantics of a text clip
//! sharing service.
pub mod error;
pub mod text;
pub mod password;
pub mod field;
pub mod shortcode;
pub mod model;
pub mod store;
pub mod action;
