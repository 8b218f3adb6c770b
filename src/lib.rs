//! Tag registry and style cascade for a retained-mode GUI toolkit.
pub mod dom;
pub mod ui_state;
pub mod ui_description;
