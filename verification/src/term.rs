//! First-order terms: the mathematical model of the types that a substitution works on.
use vstd::prelude::*;

verus! {

/// A term is a variable, known by its id, or an operator applied to sub-terms.
pub enum Term<O> {
    Var(u32),
    Node(O, Seq<Term<O>>),
}

impl<O> Term<O> {
    /// The variable `id` is written somewhere in the term.
    pub open spec fn mentions(self, id: u32) -> bool
        decreases self,
    {
        match self {
            Term::Var(v) => v == id,
            Term::Node(_, kids) => exists|i: int|
                0 <= i < kids.len() && (#[trigger] kids[i]).mentions(id),
        }
    }
}

} // verus!
