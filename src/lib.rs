//! Rendering of login banners from a small template language.
//!
//! A template mixes literal text with expression sections that show system
//! metrics or the output of shell commands, passed through text modifiers.
//! [`template`] parses it; [`render`] holds the decisions of a render run;
//! [`builtins`] and [`modifiers`] compute the metrics' text and style it.
pub mod builtins;
pub mod modifiers;
pub mod render;
pub mod space;
pub mod table;
pub mod template;
pub mod text;

pub use builtins::build_builtins;
pub use modifiers::{bold, build_modifiers, percent, underline, warn_color};
pub use template::MotdTemplateParser;
