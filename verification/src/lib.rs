//! Miful: a small homoiconic scripting language.
//!
//! Source text is cut into grapheme clusters, lexed into tokens, parsed into a
//! tree of nodes and evaluated by a tree-walking driver.  Every stage is given
//! as a mathematical function over sequences, and the executable code is
//! proved to compute exactly that function.

pub mod driver;
pub mod functions;
pub mod host;
pub mod parsing;
pub mod semantics;
pub mod typing;
