//! Explains why a regular expression matched a text: finds the named capture
//! groups of the first match, locates each group's construct in the pattern's
//! own source, and renders pattern, match and captures with correlated colors.
//! A second part plans the same analysis over every file of a tree that a
//! configured matcher selects.

pub mod capture;
pub mod engine;
pub mod error;
pub mod palette;
pub mod pipeline;
pub mod plan;
pub mod render;
pub mod scan;
pub mod select;
pub mod span;
pub mod text;
