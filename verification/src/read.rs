//! What is read from a project before it is compiled: the records of the
//! model, of the project file and of the documents.

pub mod article;
pub mod content;
pub mod directory;
pub mod document;
pub mod model;
pub mod node;
pub mod project;
pub mod tex;
