//! Notarium compiles a set of documents describing articles, grouped into
//! classes and typed by a small model of article and link types, into one
//! cross-referenced graph.

pub mod text;
pub mod views;

pub mod class;
pub mod compile;
pub mod dependency;
pub mod document;
pub mod key;
pub mod model;
pub mod read;
pub mod web;
pub mod website;
