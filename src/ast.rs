//! Items of a declarative UI description, as handed over by a source parser.
use vstd::prelude::*;

verus! {

/// A tag name, such as `button` or `vertical`.
#[derive(Debug)]
pub struct Ident(pub String);

/// A primitive value carried by a leaf item.
#[derive(Debug)]
pub enum Value {
    Int(i32),
    Ident(Ident),
    String(String),
}

/// One declarative item: a tag, an optional stable key, and either a nested
/// list of items (a block) or a primitive value.
#[derive(Debug)]
pub enum Decl {
    BlockItem(Ident, Option<String>, Vec<Decl>),
    SimpleItem(Ident, Option<String>, Value),
}

} // verus!
