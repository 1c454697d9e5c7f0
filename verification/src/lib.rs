//! The rules behind a dynamic notch.

pub mod geometry;
pub mod json;
pub mod lyrics;
pub mod media;
pub mod number;
pub mod platform;
pub mod settings;
pub mod text;
