//! A miniature rendering-engine core: it resolves a stylesheet onto a
//! document tree (cascade and selector matching), lays the styled tree out
//! as CSS-style block boxes, and paints the boxes into a pixel buffer.
//!
//! All pixel quantities are whole `i64` values; arithmetic on them
//! saturates at the ends of the `i64` range (see [`px`]).

pub mod css;
pub mod dom;
pub mod layout;
pub mod painting;
pub mod px;
pub mod strutil;
pub mod style;
