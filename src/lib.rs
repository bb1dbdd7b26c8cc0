//! Orchestration and layout core of a typesetting-language compiler.
//!
//! Source text is parsed into a syntax tree, the tree is laid out into a
//! sequence of boxes (pages), and diagnostics and decorations gathered along
//! the way are returned beside every result.
pub mod feedback;
pub mod geom;
pub mod layout;
pub mod style;
pub mod syntax;
pub mod typesetter;

pub use feedback::{Feedback, Pass};
pub use typesetter::Typesetter;
