//! Renders a music player's current playback state through a user-defined
//! text template.
//!
//! The crate has three parts: a lenient key-value parser that turns status
//! text into a [`record::PlaybackRecord`], a template compiler that turns a
//! format string with `%{name}` placeholders into a
//! [`template::CompiledTemplate`], and a renderer that combines the two into
//! the final output string.

pub mod record;
pub mod render;
pub mod template;
pub mod text;
pub mod unit;
