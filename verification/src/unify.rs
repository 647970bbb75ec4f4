//! Comparing types up to the variables in them.
use vstd::prelude::*;
use crate::fnv_map::{fnv_get, fnv_insert};
use crate::subs::Subs;
use crate::substitution::{Substitutable, Substitution, Variable};
use crate::term::Term;
use fnv::FnvHashMap;

verus! {

/// Trait implemented on types which can be compared term by term.
pub trait Unifiable<S>: Substitutable {
    /// The pairs of sub-terms that have to match for two terms that are not variables to match;
    /// `None` where their top levels differ.
    spec fn zipped(state: S, l: Term<Self::Op>, r: Term<Self::Op>) -> Option<
        Seq<(Term<Self::Op>, Term<Self::Op>)>,
    >;

    fn zip_match(&self, other: &Self, state: &S) -> (pairs: Option<Vec<(Self, Self)>>)
        requires
            self.term() is Node,
            other.term() is Node,
        ensures
            match pairs {
                Some(found) => Self::zipped(*state, self.term(), other.term()) matches Some(terms)
                    && {
                    &&& found@.len() == terms.len()
                    &&& forall|i: int|
                        0 <= i < terms.len() ==> ((#[trigger] found@[i]).0.term(), found@[i].1.term())
                            == terms[i]
                },
                None => Self::zipped(*state, self.term(), other.term()) is None,
            },
    ;
}

/// The types that variables stand for in one comparison, as terms.
pub open spec fn temp_of<T: Substitutable>(temp: Map<u64, T>) -> Map<u64, Term<T::Op>> {
    temp.map_values(|t: T| t.term())
}

/// What a term stands for in a comparison: first in the substitution; if that is a variable, then
/// in the comparison itself.
pub open spec fn looked_up<O>(s: Subs<O>, temp: Map<u64, Term<O>>, t: Term<O>) -> Term<O> {
    match s.actual(t) {
        Term::Var(var) => if temp.contains_key(var as u64) {
            temp[var as u64]
        } else {
            s.actual(t)
        },
        node => node,
    }
}

/// The comparison of two terms: what variables stand for afterwards, and whether the terms match.
///
/// A variable matches any term, for which it stands from then on; two terms that are not variables
/// match where their top levels and all their sub-terms do. There is no outcome where the
/// comparison would go deeper than `fuel` or meets a variable that cannot be asked for.
pub open spec fn matched<S, T: Unifiable<S>>(
    s: Subs<T::Op>,
    state: S,
    temp: Map<u64, Term<T::Op>>,
    l: Term<T::Op>,
    r: Term<T::Op>,
    fuel: nat,
) -> Option<(Map<u64, Term<T::Op>>, bool)>
    decreases fuel, 0nat,
{
    if fuel == 0 || !s.askable(l) || !s.askable(r) {
        None
    } else {
        let l = looked_up(s, temp, l);
        let r = looked_up(s, temp, r);
        match (l, r) {
            (Term::Var(a), Term::Var(b)) => if a == b {
                Some((temp, true))
            } else {
                Some((temp.insert(b as u64, l), true))
            },
            (_, Term::Var(b)) => Some((temp.insert(b as u64, l), true)),
            (Term::Var(a), _) => Some((temp.insert(a as u64, r), true)),
            _ => match T::zipped(state, l, r) {
                Some(pairs) => matched_list::<S, T>(s, state, temp, pairs, (fuel - 1) as nat),
                None => Some((temp, false)),
            },
        }
    }
}

/// The comparison of several pairs of terms, one after the other.
pub open spec fn matched_list<S, T: Unifiable<S>>(
    s: Subs<T::Op>,
    state: S,
    temp: Map<u64, Term<T::Op>>,
    pairs: Seq<(Term<T::Op>, Term<T::Op>)>,
    fuel: nat,
) -> Option<(Map<u64, Term<T::Op>>, bool)>
    decreases fuel, 1 + pairs.len(),
{
    if pairs.len() == 0 {
        Some((temp, true))
    } else {
        match matched::<S, T>(s, state, temp, pairs[0].0, pairs[0].1, fuel) {
            Some((after, first)) => match matched_list::<S, T>(
                s,
                state,
                after,
                pairs.drop_first(),
                fuel,
            ) {
                Some((end, rest)) => Some((end, first && rest)),
                None => None,
            },
            None => None,
        }
    }
}

/// The comparison comes to an end.
pub open spec fn match_ends<S, T: Unifiable<S>>(
    s: Subs<T::Op>,
    state: S,
    l: Term<T::Op>,
    r: Term<T::Op>,
) -> bool {
    exists|fuel: nat|
        (#[trigger] matched::<S, T>(s, state, Map::<u64, Term<T::Op>>::empty(), l, r, fuel)) is Some
}

/// Whether two terms match, where their comparison comes to an end.
pub open spec fn matches_term<S, T: Unifiable<S>>(
    s: Subs<T::Op>,
    state: S,
    l: Term<T::Op>,
    r: Term<T::Op>,
) -> bool {
    let fuel = choose|fuel: nat|
        (#[trigger] matched::<S, T>(s, state, Map::<u64, Term<T::Op>>::empty(), l, r, fuel)) is Some;
    matched::<S, T>(s, state, Map::<u64, Term<T::Op>>::empty(), l, r, fuel).unwrap().1
}

/// A comparison that comes to an end has the same outcome however deep it might have gone.
pub proof fn lemma_matched_fuel<S, T: Unifiable<S>>(
    s: Subs<T::Op>,
    state: S,
    temp: Map<u64, Term<T::Op>>,
    l: Term<T::Op>,
    r: Term<T::Op>,
    fuel: nat,
    more: nat,
)
    requires
        matched::<S, T>(s, state, temp, l, r, fuel) is Some,
        fuel <= more,
    ensures
        matched::<S, T>(s, state, temp, l, r, more) == matched::<S, T>(s, state, temp, l, r, fuel),
    decreases fuel, 0nat,
{
    let l1 = looked_up(s, temp, l);
    let r1 = looked_up(s, temp, r);
    if l1 is Node && r1 is Node {
        if let Some(pairs) = T::zipped(state, l1, r1) {
            lemma_matched_list_fuel::<S, T>(s, state, temp, pairs, (fuel - 1) as nat, (more - 1) as nat);
        }
    }
}

/// The same for several pairs.
pub proof fn lemma_matched_list_fuel<S, T: Unifiable<S>>(
    s: Subs<T::Op>,
    state: S,
    temp: Map<u64, Term<T::Op>>,
    pairs: Seq<(Term<T::Op>, Term<T::Op>)>,
    fuel: nat,
    more: nat,
)
    requires
        matched_list::<S, T>(s, state, temp, pairs, fuel) is Some,
        fuel <= more,
    ensures
        matched_list::<S, T>(s, state, temp, pairs, more) == matched_list::<S, T>(
            s,
            state,
            temp,
            pairs,
            fuel,
        ),
    decreases fuel, 1 + pairs.len(),
{
    if pairs.len() > 0 {
        lemma_matched_fuel::<S, T>(s, state, temp, pairs[0].0, pairs[0].1, fuel, more);
        let after = matched::<S, T>(s, state, temp, pairs[0].0, pairs[0].1, fuel).unwrap().0;
        lemma_matched_list_fuel::<S, T>(s, state, after, pairs.drop_first(), fuel, more);
    }
}

/// Any depth at which the comparison comes to an end says whether the terms match.
pub proof fn lemma_matches_fuel<S, T: Unifiable<S>>(
    s: Subs<T::Op>,
    state: S,
    l: Term<T::Op>,
    r: Term<T::Op>,
    fuel: nat,
)
    requires
        matched::<S, T>(s, state, Map::<u64, Term<T::Op>>::empty(), l, r, fuel) is Some,
    ensures
        match_ends::<S, T>(s, state, l, r),
        matched::<S, T>(s, state, Map::<u64, Term<T::Op>>::empty(), l, r, fuel).unwrap().1
            == matches_term::<S, T>(s, state, l, r),
{
    let none = Map::<u64, Term<T::Op>>::empty();
    let chosen = choose|fuel: nat|
        (#[trigger] matched::<S, T>(s, state, none, l, r, fuel)) is Some;
    if fuel <= chosen {
        lemma_matched_fuel::<S, T>(s, state, none, l, r, fuel, chosen);
    } else {
        lemma_matched_fuel::<S, T>(s, state, none, l, r, chosen, fuel);
    }
}

/// Whether the two types are the same up to the variables in them.
pub fn equivalent<S, T: Unifiable<S>>(
    state: &S,
    subs: &mut Substitution<T>,
    actual: &T,
    inferred: &T,
) -> (result: Result<(), ()>)
    requires
        old(subs).wf(),
        match_ends::<S, T>(old(subs)@, *state, actual.term(), inferred.term()),
    ensures
        final(subs)@ == old(subs)@,
        result is Ok <==> matches_term::<S, T>(
            old(subs)@,
            *state,
            actual.term(),
            inferred.term(),
        ),
{
    let mut unifier = Equivalent { equiv: true, temp_subs: FnvHashMap::default() };
    let ghost fuel = choose|fuel: nat|
        (#[trigger] matched::<S, T>(
            subs@,
            *state,
            Map::<u64, Term<T::Op>>::empty(),
            actual.term(),
            inferred.term(),
            fuel,
        )) is Some;
    proof {
        assert(unifier.temp() =~= Map::<u64, Term<T::Op>>::empty());
        lemma_matches_fuel::<S, T>(subs@, *state, actual.term(), inferred.term(), fuel);
    }
    unifier.try_match(state, subs, actual, inferred, Ghost(fuel));
    if unifier.equiv {
        Ok(())
    } else {
        Err(())
    }
}

/// A comparison under way.
pub struct Equivalent<T> {
    /// No difference was found so far.
    equiv: bool,
    /// What variables stand for in this comparison.
    temp_subs: FnvHashMap<u64, T>,
}

impl<T: Substitutable> Equivalent<T> {
    /// What variables stand for in this comparison, as terms.
    pub closed spec fn temp(&self) -> Map<u64, Term<T::Op>> {
        temp_of(self.temp_subs@)
    }

    /// No difference was found so far.
    pub closed spec fn agrees(&self) -> bool {
        self.equiv
    }

    /// The types are different.
    fn report_error(&mut self)
        ensures
            final(self).temp() == old(self).temp(),
            !final(self).agrees(),
    {
        self.equiv = false;
    }

    /// What the type stands for in this comparison.
    fn look_up(&self, subs: &mut Substitution<T>, typ: &T) -> (found: T)
        requires
            old(subs).wf(),
            old(subs)@.askable(typ.term()),
        ensures
            final(subs)@ == old(subs)@,
            found.term() == looked_up(old(subs)@, self.temp(), typ.term()),
    {
        let typ = subs.real_type(typ);
        match typ.get_var() {
            Some(var) => match fnv_get(&self.temp_subs, var.get_id() as u64) {
                Some(found) => found.duplicate(),
                None => typ.duplicate(),
            },
            None => typ.duplicate(),
        }
    }

    /// One step of a comparison: variables are made to stand for the other side; two types that
    /// are not variables, which come back, still have to be compared.
    pub fn try_match_res(&mut self, subs: &mut Substitution<T>, l: &T, r: &T) -> (open: Option<
        (T, T),
    >)
        requires
            old(subs).wf(),
            old(subs)@.askable(l.term()),
            old(subs)@.askable(r.term()),
        ensures
            final(subs)@ == old(subs)@,
            final(self).agrees() == old(self).agrees(),
            ({
                let left = looked_up(old(subs)@, old(self).temp(), l.term());
                let right = looked_up(old(subs)@, old(self).temp(), r.term());
                match open {
                    Some(pair) => {
                        &&& left is Node && right is Node
                        &&& (pair.0.term(), pair.1.term()) == (left, right)
                        &&& final(self).temp() == old(self).temp()
                    },
                    None => match (left, right) {
                        (Term::Var(a), Term::Var(b)) => final(self).temp() == (if a == b {
                            old(self).temp()
                        } else {
                            old(self).temp().insert(b as u64, left)
                        }),
                        (_, Term::Var(b)) => final(self).temp() == old(self).temp().insert(
                            b as u64,
                            left,
                        ),
                        (Term::Var(a), _) => final(self).temp() == old(self).temp().insert(
                            a as u64,
                            right,
                        ),
                        _ => false,
                    },
                }
            }),
    {
        let l = self.look_up(subs, l);
        let r = self.look_up(subs, r);
        let l_id = match l.get_var() {
            Some(var) => Some(var.get_id()),
            None => None,
        };
        let r_id = match r.get_var() {
            Some(var) => Some(var.get_id()),
            None => None,
        };
        match (l_id, r_id) {
            (Some(a), Some(b)) if a == b => None,
            (_, Some(b)) => {
                let ghost before = self.temp();
                let ghost bound = l.term();
                fnv_insert(&mut self.temp_subs, b as u64, l);
                assert(self.temp() =~= before.insert(b as u64, bound));
                None
            },
            (Some(a), None) => {
                let ghost before = self.temp();
                let ghost bound = r.term();
                fnv_insert(&mut self.temp_subs, a as u64, r);
                assert(self.temp() =~= before.insert(a as u64, bound));
                None
            },
            (None, None) => Some((l, r)),
        }
    }

    /// Compares the two types, down to their last sub-terms.
    fn try_match<S>(
        &mut self,
        state: &S,
        subs: &mut Substitution<T>,
        l: &T,
        r: &T,
        Ghost(fuel): Ghost<nat>,
    ) where T: Unifiable<S>
        requires
            old(subs).wf(),
            matched::<S, T>(
                old(subs)@,
                *state,
                old(self).temp(),
                l.term(),
                r.term(),
                fuel,
            ) is Some,
        ensures
            final(subs)@ == old(subs)@,
            ({
                let outcome = matched::<S, T>(
                    old(subs)@,
                    *state,
                    old(self).temp(),
                    l.term(),
                    r.term(),
                    fuel,
                );
                &&& final(self).temp() == outcome.unwrap().0
                &&& final(self).agrees() == (old(self).agrees() && outcome.unwrap().1)
            }),
        decreases fuel,
    {
        // Both sides are concrete types, the only way they can be equal is if
        // the matcher finds their top level to be equal (and their sub-terms
        // unify)
        if let Some((left, right)) = self.try_match_res(subs, l, r) {
            match left.zip_match(&right, state) {
                None => self.report_error(),
                Some(pairs) => {
                    let ghost terms = T::zipped(*state, left.term(), right.term()).unwrap();
                    let ghost depth = (fuel - 1) as nat;
                    let ghost whole = matched_list::<S, T>(
                        subs@,
                        *state,
                        old(self).temp(),
                        terms,
                        depth,
                    );
                    let ghost start = self.agrees();
                    assert(terms.skip(0) =~= terms);
                    let mut i: usize = 0;
                    while i < pairs.len()
                        invariant
                            i <= pairs.len(),
                            pairs@.len() == terms.len(),
                            forall|k: int|
                                0 <= k < terms.len() ==> ((#[trigger] pairs@[k]).0.term(), pairs@[k].1.term())
                                    == terms[k],
                            depth < fuel,
                            subs.wf(),
                            subs@ == old(subs)@,
                            whole is Some,
                            matched_list::<S, T>(
                                subs@,
                                *state,
                                self.temp(),
                                terms.skip(i as int),
                                depth,
                            ) matches Some((end, rest)) && end == whole.unwrap().0 && (self.agrees()
                                && rest) == (start && whole.unwrap().1),
                        decreases pairs.len() - i,
                    {
                        assert(terms.skip(i as int)[0] == terms[i as int]);
                        assert(terms.skip(i as int).drop_first() =~= terms.skip(i + 1));
                        self.try_match(state, subs, &pairs[i].0, &pairs[i].1, Ghost(depth));
                        i = i + 1;
                    }
                },
            }
        }
    }
}

} // verus!
