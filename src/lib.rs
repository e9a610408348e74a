//! Name and type resolution for one parsed module: a module tree and an
//! arena of type slots, grown on demand, into which imports and type
//! definitions are resolved, with duplicate and unresolved names reported.

pub mod errors;
pub mod expr_parser;
pub mod graph;
pub mod ident;
pub mod item_parser;
pub mod laws;
pub mod number;
pub mod origin;
pub mod pass1;
pub mod resolve;
pub mod syntax;
pub mod table;
pub mod types_parser;
