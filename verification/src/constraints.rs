//! Making types the same: binding variables and choosing between the candidates of a constraint.
use vstd::prelude::*;
use crate::fnv_map;
use crate::subs;
use crate::subs::Subs;
use crate::substitution;
use crate::substitution::{occurs, Constraints, Error, Substitutable, Substitution, Variable};
use crate::term::Term;
use crate::unify;
use crate::unify::{equivalent, Unifiable};
use fnv::FnvHashMap;

verus! {

/// Candidates by the id of the name that they are demanded under, as terms.
pub open spec fn demands_of<T: Substitutable>(constraints: Map<u64, Constraints<T>>) -> Map<
    u64,
    Seq<Term<T::Op>>,
> {
    constraints.map_values(|candidates: Constraints<T>| substitution::terms_of(candidates@))
}

/// Trait implemented on types whose generic parts can be replaced by new variables.
pub trait Instantiate: Substitutable {
    /// The term with new variables in place of its generic parts, and the substitution in which
    /// they were created; `None` where there is no room for them.
    spec fn instantiated(
        t: Term<Self::Op>,
        s: Subs<Self::Op>,
        constraints: Map<u64, Seq<Term<Self::Op>>>,
    ) -> Option<(Term<Self::Op>, Subs<Self::Op>)>;

    /// Instantiating creates variables and does nothing else.
    proof fn instantiated_extends(
        t: Term<Self::Op>,
        s: Subs<Self::Op>,
        constraints: Map<u64, Seq<Term<Self::Op>>>,
    )
        requires
            s.wf(),
            Self::instantiated(t, s, constraints) is Some,
        ensures
            Self::instantiated(t, s, constraints).unwrap().1.extends(s),
    ;

    /// Levels do not decide how a term is instantiated.
    proof fn instantiated_relevelled(
        t: Term<Self::Op>,
        before: Subs<Self::Op>,
        after: Subs<Self::Op>,
        constraints: Map<u64, Seq<Term<Self::Op>>>,
    )
        requires
            before.wf(),
            after.relevelled(before),
        ensures
            match (
                Self::instantiated(t, before, constraints),
                Self::instantiated(t, after, constraints),
            ) {
                (Some((typ, made)), Some((same, remade))) => same == typ && remade.relevelled(made),
                (None, None) => true,
                _ => false,
            },
    ;

    fn instantiate(
        &self,
        subs: &mut Substitution<Self>,
        constraints: &FnvHashMap<u64, Constraints<Self>>,
    ) -> (typ: Self)
        requires
            old(subs).wf(),
            Self::instantiated(self.term(), old(subs)@, demands_of(constraints@)) is Some,
        ensures
            Some((typ.term(), final(subs)@)) == Self::instantiated(
                self.term(),
                old(subs)@,
                demands_of(constraints@),
            ),
    ;
}

/// How making two types the same ends.
pub enum Outcome<O> {
    /// They are the same now. The term is the candidate that replaced the type, if one did.
    Same(Option<Term<O>>),
    /// The variable occurs in the term.
    Occurs(Term<O>, Term<O>),
    /// None of the candidates fits the term.
    Constraint(Term<O>, Seq<Term<O>>),
}

/// A result as it is modelled.
pub open spec fn outcome_of<T: Substitutable>(result: Result<Option<T>, Error<T>>) -> Outcome<T::Op> {
    match result {
        Ok(Some(typ)) => Outcome::Same(Some(typ.term())),
        Ok(None) => Outcome::Same(None),
        Err(Error::Occurs(var, typ)) => Outcome::Occurs(var.term(), typ.term()),
        Err(Error::Constraint(typ, candidates)) => Outcome::Constraint(
            typ.term(),
            substitution::terms_of(candidates@),
        ),
    }
}

/// The first of the candidates that, instantiated, matches `t`. Each candidate that is tried
/// leaves its variables behind.
pub open spec fn first_match<S, T: Unifiable<S> + Instantiate>(
    s: Subs<T::Op>,
    state: S,
    candidates: Seq<Term<T::Op>>,
    t: Term<T::Op>,
) -> Option<(Subs<T::Op>, Option<Term<T::Op>>)>
    decreases candidates.len(),
{
    if candidates.len() == 0 {
        Some((s, None))
    } else {
        match T::instantiated(candidates[0], s, Map::<u64, Seq<Term<T::Op>>>::empty()) {
            Some((candidate, s1)) => if !unify::match_ends::<S, T>(s1, state, candidate, t) {
                None
            } else if unify::matches_term::<S, T>(s1, state, candidate, t) {
                Some((s1, Some(candidate)))
            } else {
                first_match::<S, T>(s1, state, candidates.drop_first(), t)
            },
            None => None,
        }
    }
}

/// A candidate takes the place of a type where it is a variable with a lower number than the type,
/// or no variable.
pub open spec fn replaces<O>(candidate: Term<O>, t: Term<O>) -> bool {
    match (t, candidate) {
        (Term::Var(x), Term::Var(y)) => x > y,
        (_, Term::Node(..)) => true,
        _ => false,
    }
}

/// Takes `t` through the constraints, in the order of `entries`: each has to have a candidate that
/// matches, which may take the place of `t`. `replaced` says whether one already did.
pub open spec fn resolved_in<S, T: Unifiable<S> + Instantiate>(
    s: Subs<T::Op>,
    state: S,
    entries: Seq<(u64, usize)>,
    t: Term<T::Op>,
    replaced: bool,
) -> Option<(Subs<T::Op>, Outcome<T::Op>)>
    decreases entries.len(),
{
    if entries.len() == 0 {
        Some(
            (
                s,
                Outcome::Same(
                    if replaced {
                        Some(t)
                    } else {
                        None
                    },
                ),
            ),
        )
    } else {
        let candidates = s.lists[entries[0].1 as int];
        match first_match::<S, T>(s, state, candidates, t) {
            Some((s1, Some(candidate))) => if replaces(candidate, t) {
                resolved_in::<S, T>(s1, state, entries.drop_first(), candidate, true)
            } else {
                resolved_in::<S, T>(s1, state, entries.drop_first(), t, replaced)
            },
            Some((s1, None)) => Some((s1, Outcome::Constraint(t, candidates))),
            None => None,
        }
    }
}

/// Says that `id` stands for `t`; `None` where that cannot be said.
pub open spec fn bound<O>(s: Subs<O>, id: u32, t: Term<O>) -> Option<Subs<O>> {
    match t {
        Term::Var(other) => {
            let s1 = s.united(id, other);
            if id < s.size() && other < s.size() && s1.resolvable(id) && s1.resolvable(other) {
                Some(s1.level_updated(id, other).level_updated(other, id))
            } else {
                None
            }
        },
        Term::Node(..) => if s.types.contains_key(id) {
            None
        } else {
            Some(s.with_type(id, t))
        },
    }
}

/// What is left to do to make `id` and `t` the same once `id` is known not to occur in `t`. The
/// constraints on `id` come in the order of `entries`.
pub open spec fn joined_in<S, T: Unifiable<S> + Instantiate>(
    s: Subs<T::Op>,
    state: S,
    entries: Seq<(u64, usize)>,
    id: u32,
    t: Term<T::Op>,
) -> Option<(Subs<T::Op>, Outcome<T::Op>)> {
    if !s.resolvable(id) || !s.askable(t) {
        None
    } else if s.find(id) == Some(s.actual(t)) || s.actual(t) == Term::<T::Op>::Var(id) {
        Some((s, Outcome::Same(None)))
    } else if t is Var {
        match bound(s, id, t) {
            Some(end) => Some((end, Outcome::Same(None))),
            None => None,
        }
    } else {
        match resolved_in::<S, T>(s, state, entries, t, false) {
            Some((s1, Outcome::Same(candidate))) => match bound(
                s1,
                id,
                match candidate {
                    Some(c) => c,
                    None => t,
                },
            ) {
                Some(end) => Some((end, Outcome::Same(candidate))),
                None => None,
            },
            failed => failed,
        }
    }
}

/// Making `id` and `t` the same, with the constraints on `id` in the order of `entries`.
pub open spec fn unioned_in<S, T: Unifiable<S> + Instantiate>(
    s: Subs<T::Op>,
    state: S,
    entries: Seq<(u64, usize)>,
    id: u32,
    t: Term<T::Op>,
) -> Option<(Subs<T::Op>, Outcome<T::Op>)> {
    if t == Term::<T::Op>::Var(id) {
        Some((s, Outcome::Same(None)))
    } else if !s.walk_ends(id, t) {
        None
    } else {
        let (s1, found) = s.occurs(id, t);
        if found {
            Some((s1, Outcome::Occurs(Term::Var(id), t)))
        } else {
            joined_in::<S, T>(s1, state, entries, id, t)
        }
    }
}

/// In whatever order the constraints of `id` come, making `id` and `t` the same comes to an end.
pub open spec fn union_ends<S, T: Unifiable<S> + Instantiate>(
    s: Subs<T::Op>,
    state: S,
    id: u32,
    t: Term<T::Op>,
) -> bool {
    ||| t == Term::<T::Op>::Var(id)
    ||| s.walk_ends(id, t) && s.occurs(id, t).1
    ||| {
        &&& id < s.size()
        &&& s.walk_ends(id, t)
        &&& forall|entries: Seq<(u64, usize)>|
            fnv_map::enumerates(entries, s.table.class(id as usize).constraints)
                ==> (#[trigger] unioned_in::<S, T>(s, state, entries, id, t)) is Some
    }
}

/// Trying candidates creates variables and does nothing else.
pub proof fn lemma_first_match_extends<S, T: Unifiable<S> + Instantiate>(
    s: Subs<T::Op>,
    state: S,
    candidates: Seq<Term<T::Op>>,
    t: Term<T::Op>,
)
    requires
        s.wf(),
        first_match::<S, T>(s, state, candidates, t) is Some,
    ensures
        first_match::<S, T>(s, state, candidates, t).unwrap().0.extends(s),
    decreases candidates.len(),
{
    if candidates.len() > 0 {
        let none = Map::<u64, Seq<Term<T::Op>>>::empty();
        T::instantiated_extends(candidates[0], s, none);
        let (candidate, s1) = T::instantiated(candidates[0], s, none).unwrap();
        if !unify::matches_term::<S, T>(s1, state, candidate, t) {
            lemma_first_match_extends::<S, T>(s1, state, candidates.drop_first(), t);
            subs::lemma_extends_trans(
                s,
                s1,
                first_match::<S, T>(s, state, candidates, t).unwrap().0,
            );
        }
    }
}

/// Going through constraints creates variables and does nothing else.
pub proof fn lemma_resolved_extends<S, T: Unifiable<S> + Instantiate>(
    s: Subs<T::Op>,
    state: S,
    entries: Seq<(u64, usize)>,
    t: Term<T::Op>,
    replaced: bool,
)
    requires
        s.wf(),
        resolved_in::<S, T>(s, state, entries, t, replaced) is Some,
    ensures
        resolved_in::<S, T>(s, state, entries, t, replaced).unwrap().0.extends(s),
    decreases entries.len(),
{
    if entries.len() > 0 {
        let candidates = s.lists[entries[0].1 as int];
        lemma_first_match_extends::<S, T>(s, state, candidates, t);
        let (s1, found) = first_match::<S, T>(s, state, candidates, t).unwrap();
        if let Some(candidate) = found {
            if replaces(candidate, t) {
                lemma_resolved_extends::<S, T>(s1, state, entries.drop_first(), candidate, true);
            } else {
                lemma_resolved_extends::<S, T>(s1, state, entries.drop_first(), t, replaced);
            }
            subs::lemma_extends_trans(
                s,
                s1,
                resolved_in::<S, T>(s, state, entries, t, replaced).unwrap().0,
            );
        }
    }
}

/// A type that is no variable is only ever replaced by another one.
pub proof fn lemma_candidate_is_no_variable<S, T: Unifiable<S> + Instantiate>(
    s: Subs<T::Op>,
    state: S,
    entries: Seq<(u64, usize)>,
    t: Term<T::Op>,
    replaced: bool,
)
    requires
        resolved_in::<S, T>(s, state, entries, t, replaced) is Some,
        t is Node,
    ensures
        resolved_in::<S, T>(s, state, entries, t, replaced).unwrap().1 matches Outcome::Same(Some(c))
            ==> c is Node,
    decreases entries.len(),
{
    if entries.len() > 0 {
        let (s1, found) = first_match::<S, T>(s, state, s.lists[entries[0].1 as int], t).unwrap();
        if let Some(candidate) = found {
            if replaces(candidate, t) {
                lemma_candidate_is_no_variable::<S, T>(
                    s1,
                    state,
                    entries.drop_first(),
                    candidate,
                    true,
                );
            } else {
                lemma_candidate_is_no_variable::<S, T>(
                    s1,
                    state,
                    entries.drop_first(),
                    t,
                    replaced,
                );
            }
        }
    }
}

impl<T: Instantiate> Substitution<T> {
    /// Takes `typ` through the constraints on `id`: each has to have a candidate that is
    /// equivalent to it. Where a candidate is the better type, it comes back.
    pub fn resolve_constraints<S>(&mut self, state: &S, id: &T::Variable, typ: &T) -> (result: Result<
        Option<T>,
        Error<T>,
    >) where T: Unifiable<S>
        requires
            old(self).wf(),
            id.id() < old(self)@.size(),
            forall|entries: Seq<(u64, usize)>|
                fnv_map::enumerates(
                    entries,
                    old(self)@.table.class(id.id() as usize).constraints,
                ) ==> (#[trigger] resolved_in::<S, T>(
                    old(self)@,
                    *state,
                    entries,
                    typ.term(),
                    false,
                )) is Some,
        ensures
            final(self)@.extends(old(self)@),
            exists|entries: Seq<(u64, usize)>|
                fnv_map::enumerates(
                    entries,
                    old(self)@.table.class(id.id() as usize).constraints,
                ) && #[trigger] resolved_in::<S, T>(
                    old(self)@,
                    *state,
                    entries,
                    typ.term(),
                    false,
                ) == Some((final(self)@, outcome_of(result))),
    {
        let entries = self.constraint_entries(id.get_id());
        proof {
            let class = self@.table.class(id.id() as usize);
            assert(self@.table.classes.contains_key(self@.table.roots[id.id() as int]));
            assert forall|i: int| 0 <= i < entries@.len() implies (#[trigger] entries@[i]).1
                < self@.lists.len() by {
                assert(class.constraints.contains_key(entries@[i].0));
            }
        }
        self.resolve_constraints_in(state, &entries, typ)
    }

    /// Takes `typ` through constraints, in the order in which `entries` gives the positions of
    /// their candidates.
    pub fn resolve_constraints_in<S>(
        &mut self,
        state: &S,
        entries: &Vec<(u64, usize)>,
        typ: &T,
    ) -> (result: Result<Option<T>, Error<T>>) where T: Unifiable<S>
        requires
            old(self).wf(),
            forall|i: int|
                0 <= i < entries@.len() ==> (#[trigger] entries@[i]).1 < old(self)@.lists.len(),
            resolved_in::<S, T>(old(self)@, *state, entries@, typ.term(), false) is Some,
        ensures
            final(self)@.extends(old(self)@),
            resolved_in::<S, T>(old(self)@, *state, entries@, typ.term(), false) == Some(
                (final(self)@, outcome_of(result)),
            ),
    {
        proof {
            lemma_resolved_extends::<S, T>(self@, *state, entries@, typ.term(), false);
        }
        let ghost whole = resolved_in::<S, T>(self@, *state, entries@, typ.term(), false);
        let mut replacement: Option<T> = None;
        let mut current = typ.duplicate();
        let mut i: usize = 0;
        assert(entries@.skip(0) =~= entries@);
        while i < entries.len()
            invariant
                i <= entries.len(),
                self.wf(),
                self@.lists.len() >= old(self)@.lists.len(),
                forall|k: int|
                    0 <= k < entries@.len() ==> (#[trigger] entries@[k]).1 < old(self)@.lists.len(),
                whole is Some,
                whole.unwrap().0.extends(old(self)@),
                whole == resolved_in::<S, T>(old(self)@, *state, entries@, typ.term(), false),
                resolved_in::<S, T>(
                    self@,
                    *state,
                    entries@.skip(i as int),
                    current.term(),
                    replacement is Some,
                ) == whole,
                replacement matches Some(r) ==> r.term() == current.term(),
            decreases entries.len() - i,
        {
            assert(entries@.skip(i as int)[0] == entries@[i as int]);
            assert(entries@.skip(i as int).drop_first() =~= entries@.skip(i + 1));
            let candidates = self.candidates(entries[i].1);
            proof {
                lemma_first_match_extends::<S, T>(
                    self@,
                    *state,
                    substitution::terms_of(candidates@),
                    current.term(),
                );
            }
            match self.first_match(state, &candidates, &current) {
                None => {
                    return Err(Error::Constraint(current, candidates));
                },
                Some(candidate) => {
                    // Only replace the type if it is replaced by a lower level variable or a
                    // concrete type
                    let better = match (current.get_var(), candidate.get_var()) {
                        (Some(x), Some(y)) => x.get_id() > y.get_id(),
                        (_, None) => true,
                        (None, Some(_)) => false,
                    };
                    if better {
                        current = candidate.duplicate();
                        replacement = Some(candidate);
                    }
                },
            }
            i = i + 1;
        }
        Ok(replacement)
    }

    /// The first of the candidates that, instantiated, is equivalent to `typ`.
    fn first_match<S>(&mut self, state: &S, candidates: &Vec<T>, typ: &T) -> (found: Option<
        T,
    >) where T: Unifiable<S>
        requires
            old(self).wf(),
            first_match::<S, T>(
                old(self)@,
                *state,
                substitution::terms_of(candidates@),
                typ.term(),
            ) is Some,
        ensures
            final(self)@.extends(old(self)@),
            first_match::<S, T>(
                old(self)@,
                *state,
                substitution::terms_of(candidates@),
                typ.term(),
            ) == Some(
                (
                    final(self)@,
                    match found {
                        Some(candidate) => Some(candidate.term()),
                        None => None,
                    },
                ),
            ),
    {
        let ghost terms = substitution::terms_of(candidates@);
        proof {
            lemma_first_match_extends::<S, T>(self@, *state, terms, typ.term());
        }
        let ghost whole = first_match::<S, T>(self@, *state, terms, typ.term());
        let constraints: FnvHashMap<u64, Constraints<T>> = FnvHashMap::default();
        let mut i: usize = 0;
        assert(terms.skip(0) =~= terms);
        while i < candidates.len()
            invariant
                i <= candidates.len(),
                terms == substitution::terms_of(candidates@),
                self.wf(),
                constraints@ == Map::<u64, Constraints<T>>::empty(),
                whole is Some,
                whole.unwrap().0.extends(old(self)@),
                whole == first_match::<S, T>(old(self)@, *state, terms, typ.term()),
                first_match::<S, T>(self@, *state, terms.skip(i as int), typ.term()) == whole,
            decreases candidates.len() - i,
        {
            assert(terms.skip(i as int)[0] == candidates@[i as int].term());
            assert(terms.skip(i as int).drop_first() =~= terms.skip(i + 1));
            let ghost before = self@;
            proof {
                assert(demands_of(constraints@) =~= Map::<u64, Seq<Term<T::Op>>>::empty());
                T::instantiated_extends(
                    terms[i as int],
                    before,
                    Map::<u64, Seq<Term<T::Op>>>::empty(),
                );
            }
            let candidate = candidates[i].instantiate(self, &constraints);
            if equivalent(state, self, &candidate, typ).is_ok() {
                return Some(candidate);
            }
            i = i + 1;
        }
        None
    }

    /// Takes `id` and updates the substitution to say that it should have the same type as `typ`
    pub fn union<S>(&mut self, state: &S, id: &T::Variable, typ: &T) -> (result: Result<
        Option<T>,
        Error<T>,
    >) where T: Unifiable<S>
        requires
            old(self).wf(),
            union_ends::<S, T>(old(self)@, *state, id.id(), typ.term()),
        ensures
            final(self).wf(),
            typ.term() == Term::<T::Op>::Var(id.id()) ==> final(self)@ == old(self)@
                && outcome_of(result) == Outcome::Same(None::<Term<T::Op>>),
            typ.term() != Term::<T::Op>::Var(id.id()) && old(self)@.occurs(
                id.id(),
                typ.term(),
            ).1 ==> final(self)@ == old(self)@.occurs(id.id(), typ.term()).0 && outcome_of(result)
                == Outcome::Occurs(Term::Var(id.id()), typ.term()),
            typ.term() != Term::<T::Op>::Var(id.id()) && !old(self)@.occurs(
                id.id(),
                typ.term(),
            ).1 ==> exists|entries: Seq<(u64, usize)>|
                fnv_map::enumerates(
                    entries,
                    old(self)@.table.class(id.id() as usize).constraints,
                ) && #[trigger] unioned_in::<S, T>(
                    old(self)@,
                    *state,
                    entries,
                    id.id(),
                    typ.term(),
                ) == Some((final(self)@, outcome_of(result))),
    {
        // Nothing needs to be done if both are the same variable already (also prevents the occurs
        // check from failing)
        if let Some(other) = typ.get_var() {
            if other.get_id() == id.get_id() {
                return Ok(None);
            }
        }
        if occurs(typ, self, id) {
            return Err(Error::Occurs(T::from_variable(id.duplicate()), typ.duplicate()));
        }
        let ghost s1 = self@;
        let entries = self.constraint_entries(id.get_id());
        proof {
            assert(s1.table.roots == old(self)@.table.roots);
            assert(old(self)@.table.classes.contains_key(s1.table.roots[id.id() as int]));
            assert(unioned_in::<S, T>(old(self)@, *state, entries@, id.id(), typ.term()) is Some);
        }
        let other_type = self.real_type(typ).duplicate();
        let known = match self.find_type_for_var(id.get_id()) {
            Some(id_type) => id_type.same(&other_type),
            None => false,
        };
        let stands_for_id = match other_type.get_var() {
            Some(other) => other.get_id() == id.get_id(),
            None => false,
        };
        if known || stands_for_id {
            return Ok(None);
        }
        let resolved_type = if typ.get_var().is_none() {
            proof {
                let class = self@.table.class(id.id() as usize);
                assert(self@.table.classes.contains_key(self@.table.roots[id.id() as int]));
                assert forall|i: int| 0 <= i < entries@.len() implies (#[trigger] entries@[i]).1
                    < self@.lists.len() by {
                    assert(class.constraints.contains_key(entries@[i].0));
                }
            }
            match self.resolve_constraints_in(state, &entries, typ) {
                Ok(resolved) => resolved,
                Err(error) => {
                    return Err(error);
                },
            }
        } else {
            None
        };
        self.bind(
            id.get_id(),
            match &resolved_type {
                Some(candidate) => candidate,
                None => typ,
            },
        );
        Ok(resolved_type)
    }

    /// Says that `id` stands for `typ`.
    fn bind(&mut self, id: u32, typ: &T)
        requires
            old(self).wf(),
            bound(old(self)@, id, typ.term()) is Some,
        ensures
            final(self).wf(),
            Some(final(self)@) == bound(old(self)@, id, typ.term()),
    {
        match typ.get_var() {
            Some(other) => {
                let other_id = other.get_id();
                proof {
                    subs::lemma_united_wf(self@, id, other_id);
                }
                self.unite(id, other_id);
                let ghost s1 = self@;
                self.update_level(id, other_id);
                proof {
                    subs::lemma_relevelled_find(s1, self@, id);
                    subs::lemma_relevelled_find(s1, self@, other_id);
                }
                self.update_level(other_id, id);
            },
            None => {
                self.insert(id, typ.duplicate());
            },
        }
    }
}

} // verus!
