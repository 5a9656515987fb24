//! A render-agnostic model of styled rich text: inline style ranges, paragraphs
//! flattened to one string with merged highlights, and the block tree with its
//! list and table layout facts.

pub mod block;
pub mod compose;
pub mod list;
pub mod node;
pub mod paragraph;
pub mod ranges;
pub mod style;
pub mod table;
pub mod view;
