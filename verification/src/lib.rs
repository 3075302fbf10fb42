//! Health checks for a local Markdown / Obsidian knowledge base: broken
//! wiki links, orphan notes and image files that no note references.

pub mod models;
pub mod text;
pub mod path;
pub mod parser;
pub mod scanner;
pub mod diagnostic;
pub mod laws;
pub mod render;
pub mod properties;
