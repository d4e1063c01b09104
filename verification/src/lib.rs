//! A verified reformatter for compact HTML, CSS and JS/TS source text.
//!
//! Each language engine scans a flat character stream once, left to right,
//! and lays it out with nesting-driven indentation and soft line wrapping.
//! The engines are specified as character-level state machines: a `spec`
//! transition function consumes one character at a time, and each executable
//! engine is proved to produce exactly the text that its machine describes.

pub mod brackets;
pub mod css;
pub mod dispatch;
pub mod html;
pub mod jsts;
pub mod spacing;
pub mod text;
