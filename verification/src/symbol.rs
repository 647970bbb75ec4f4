//! Names.
use vstd::prelude::*;
use crate::text::same_text;

verus! {

/// The contents of a [`Symbol`].
#[verifier::ext_equal]
pub struct SymbolModel {
    pub id: u64,
    pub name: Seq<char>,
}

/// A symbol identifies something regardless of what it is called: symbols are told apart by their
/// `id`, the `name` is for people. What has one id has one name.
#[derive(Debug)]
pub struct Symbol {
    pub id: u64,
    pub name: String,
}

impl Symbol {
    /// The symbol as it stands in models.
    pub open spec fn model(self) -> SymbolModel {
        SymbolModel { id: self.id, name: self.name@ }
    }

    /// Whether the two symbols are the same.
    pub fn same(&self, other: &Symbol) -> (same: bool)
        ensures
            same == (self.model() == other.model()),
    {
        self.id == other.id && same_text(self.name.as_str(), other.name.as_str())
    }

    /// The symbol with this identity and this name.
    pub fn new(id: u64, name: String) -> (symbol: Symbol)
        ensures
            symbol == (Symbol { id, name }),
    {
        Symbol { id, name }
    }
}

impl Clone for Symbol {
    fn clone(&self) -> (symbol: Symbol)
        ensures
            symbol == *self,
    {
        Symbol { id: self.id, name: self.name.clone() }
    }
}

} // verus!
