//! The making of the pages and data of the website from the graph of a
//! project.

pub mod class;
pub mod document;
pub mod json;
pub mod model;
pub mod template;
