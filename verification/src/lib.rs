//! Pseudo-translation of i18n resources: strategies that alter translation
//! text so that internationalization problems show, applied while placeholders
//! and HTML tags are kept intact.
pub mod cli;
pub mod laws;
pub mod markup;
pub mod pseudo;
pub mod resource;
pub mod session;
pub mod strategies;
pub mod text;
