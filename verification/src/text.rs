//! Texts.
use vstd::prelude::*;
use crate::symbol::Symbol;

verus! {

/// A trait for what can be shown to a user.
pub trait Show {
    /// The text that is shown.
    spec fn text(&self) -> Seq<char>;

    /// Shows the value.
    fn show(&self) -> (text: String)
        ensures
            text@ == self.text(),
    ;
}

impl Show for String {
    open spec fn text(&self) -> Seq<char> {
        self@
    }

    fn show(&self) -> (text: String) {
        self.clone()
    }
}

impl Show for Symbol {
    open spec fn text(&self) -> Seq<char> {
        self.name@
    }

    fn show(&self) -> (text: String) {
        self.name.clone()
    }
}

/// What several strings read.
pub open spec fn texts_of(strings: Seq<String>) -> Seq<Seq<char>> {
    Seq::new(strings.len(), |i: int| strings[i]@)
}

/// Whether the two texts are the same.
pub fn same_text(a: &str, b: &str) -> (same: bool)
    ensures
        same == (a@ == b@),
{
    a.to_owned() == b.to_owned()
}

/// Copies strings.
pub fn duplicate_texts(strings: &Vec<String>) -> (copy: Vec<String>)
    ensures
        copy@ == strings@,
{
    let mut copy: Vec<String> = Vec::new();
    let mut i: usize = 0;
    while i < strings.len()
        invariant
            i <= strings.len(),
            copy@ == strings@.take(i as int),
        decreases strings.len() - i,
    {
        copy.push(strings[i].clone());
        i = i + 1;
        assert(copy@ =~= strings@.take(i as int));
    }
    assert(copy@ =~= strings@);
    copy
}

/// Whether strings read the same, one by one.
pub fn same_texts(a: &Vec<String>, b: &Vec<String>) -> (same: bool)
    ensures
        same == (texts_of(a@) == texts_of(b@)),
{
    if a.len() != b.len() {
        assert(texts_of(a@).len() != texts_of(b@).len());
        return false;
    }
    let mut i: usize = 0;
    while i < a.len()
        invariant
            i <= a.len(),
            a@.len() == b@.len(),
            forall|k: int| 0 <= k < i ==> (#[trigger] a@[k])@ == b@[k]@,
        decreases a.len() - i,
    {
        if a[i] != b[i] {
            assert(texts_of(a@)[i as int] != texts_of(b@)[i as int]);
            return false;
        }
        i = i + 1;
    }
    assert(texts_of(a@) =~= texts_of(b@));
    true
}

} // verus!
