//! Renderers: total mappings from a finished document tree to output text.

pub mod html;
