//! Narrative models of math-rich documents and pattern matching over their sentences.
//!
//! A document tree is linearized into plain text with a map from character
//! ranges back to the nodes that produced them; named patterns are matched
//! against parsed sentences and yield located markers.

pub mod text;
pub mod tree;
pub mod linearize;
pub mod dnm;
pub mod range;
pub mod laws;
pub mod pattern;
pub mod align;
pub mod matcher;
pub mod order;
pub mod locate;
pub mod extract;
