//! Semantic analysis for a gradually-typed scripting language with
//! first-class closures: scope and capture resolution over a parsed
//! syntax tree, followed by structural type checking.
//!
//! The resolver (`resolver`) decides, for every declared name, which
//! scope owns it, whether a nested function captures it (and must
//! therefore live in a heap cell), and which declaration every use
//! refers to; its output is the annotation store (`store`). The type
//! checker (`typechecker`) walks the tree a second time against that
//! store and computes a type (`types`) for every node. Trees are
//! arenas of nodes addressed by index (`ast`).

pub mod ast;
pub mod types;
pub mod assoc;
pub mod store;
pub mod resolver;
pub mod typechecker;
