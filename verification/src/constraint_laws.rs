//! What holds of the choice between the candidates of a constraint.
use vstd::prelude::*;
use crate::constraints;
use crate::constraints::{Instantiate, Outcome};
use crate::fnv_map;
use crate::subs;
use crate::subs::Subs;
use crate::term::Term;
use crate::unify;
use crate::unify::Unifiable;

verus! {

/// The substitution after the first `i` candidates were instantiated.
pub open spec fn after_tries<T: Instantiate>(
    s: Subs<T::Op>,
    candidates: Seq<Term<T::Op>>,
    i: nat,
) -> Option<Subs<T::Op>>
    decreases i,
{
    if i == 0 {
        Some(s)
    } else if candidates.len() == 0 {
        None
    } else {
        match T::instantiated(candidates[0], s, Map::<u64, Seq<Term<T::Op>>>::empty()) {
            Some((_, s1)) => after_tries::<T>(s1, candidates.drop_first(), (i - 1) as nat),
            None => None,
        }
    }
}

/// The instance of the `i`th candidate, once those before it were tried, and the substitution in
/// which it was made.
pub open spec fn instance<T: Instantiate>(
    s: Subs<T::Op>,
    candidates: Seq<Term<T::Op>>,
    i: nat,
) -> Option<(Term<T::Op>, Subs<T::Op>)> {
    match after_tries::<T>(s, candidates, i) {
        Some(before) => T::instantiated(
            candidates[i as int],
            before,
            Map::<u64, Seq<Term<T::Op>>>::empty(),
        ),
        None => None,
    }
}

/// The instance of the `i`th candidate matches the type.
pub open spec fn fits<S, T: Unifiable<S> + Instantiate>(
    s: Subs<T::Op>,
    state: S,
    candidates: Seq<Term<T::Op>>,
    t: Term<T::Op>,
    i: nat,
) -> bool {
    i < candidates.len() && match instance::<T>(s, candidates, i) {
        Some((candidate, s1)) => unify::matches_term::<S, T>(s1, state, candidate, t),
        None => false,
    }
}

/// The `i`th candidate is the first whose instance matches the type.
pub open spec fn fits_first<S, T: Unifiable<S> + Instantiate>(
    s: Subs<T::Op>,
    state: S,
    candidates: Seq<Term<T::Op>>,
    t: Term<T::Op>,
    i: nat,
) -> bool {
    &&& fits::<S, T>(s, state, candidates, t, i)
    &&& forall|j: nat| j < i ==> !#[trigger] fits::<S, T>(s, state, candidates, t, j)
}

/// Of the candidates of a constraint the first whose instance matches the type is taken, and none
/// after it is tried; none is taken if and only if none matches, and all were tried then.
pub proof fn law_first_candidate_that_fits_is_taken<S, T: Unifiable<S> + Instantiate>(
    s: Subs<T::Op>,
    state: S,
    candidates: Seq<Term<T::Op>>,
    t: Term<T::Op>,
)
    requires
        constraints::first_match::<S, T>(s, state, candidates, t) is Some,
    ensures
        ({
            let (after, found) = constraints::first_match::<S, T>(s, state, candidates, t).unwrap();
            match found {
                Some(candidate) => exists|i: nat| #[trigger]
                    fits_first::<S, T>(s, state, candidates, t, i) && instance::<T>(
                        s,
                        candidates,
                        i,
                    ) == Some((candidate, after)),
                None => after_tries::<T>(s, candidates, candidates.len()) == Some(after)
                    && forall|i: nat| !#[trigger] fits::<S, T>(s, state, candidates, t, i),
            }
        }),
    decreases candidates.len(),
{
    if candidates.len() > 0 {
        let none = Map::<u64, Seq<Term<T::Op>>>::empty();
        let (candidate, s1) = T::instantiated(candidates[0], s, none).unwrap();
        assert(after_tries::<T>(s, candidates, 0) == Some(s));
        assert(instance::<T>(s, candidates, 0) == Some((candidate, s1)));
        if unify::matches_term::<S, T>(s1, state, candidate, t) {
            assert(fits_first::<S, T>(s, state, candidates, t, 0));
        } else {
            let rest = candidates.drop_first();
            law_first_candidate_that_fits_is_taken::<S, T>(s1, state, rest, t);
            assert forall|i: nat| 0 < i < candidates.len() implies #[trigger] instance::<T>(
                s,
                candidates,
                i,
            ) == instance::<T>(s1, rest, (i - 1) as nat) by {
                assert(rest[i - 1] == candidates[i as int]);
            }
            assert forall|i: nat| #[trigger] fits::<S, T>(s, state, candidates, t, i) implies i > 0
                && fits::<S, T>(s1, state, rest, t, (i - 1) as nat) by {}
            let (after, found) = constraints::first_match::<S, T>(s1, state, rest, t).unwrap();
            if let Some(taken) = found {
                let i = choose|i: nat| #[trigger]
                    fits_first::<S, T>(s1, state, rest, t, i) && instance::<T>(s1, rest, i) == Some(
                        (taken, after),
                    );
                assert(instance::<T>(s, candidates, i + 1) == instance::<T>(s1, rest, i));
                assert(fits::<S, T>(s, state, candidates, t, i + 1));
                assert(fits_first::<S, T>(s, state, candidates, t, i + 1));
            }
        }
    }
}

/// Where there is one constraint, there is an error if and only if the instance of none of its
/// candidates matches the type, and the error then holds the type and all of them. Else the type
/// is resolved by the instance of the first that does: that comes back where it is the better
/// type.
pub proof fn law_one_constraint<S, T: Unifiable<S> + Instantiate>(
    s: Subs<T::Op>,
    state: S,
    demanded: Map<u64, usize>,
    name: u64,
    position: usize,
    entries: Seq<(u64, usize)>,
    t: Term<T::Op>,
)
    requires
        demanded == Map::<u64, usize>::empty().insert(name, position),
        fnv_map::enumerates(entries, demanded),
        constraints::resolved_in::<S, T>(s, state, entries, t, false) is Some,
    ensures
        ({
            let candidates = s.lists[position as int];
            let (after, outcome) = constraints::resolved_in::<S, T>(
                s,
                state,
                entries,
                t,
                false,
            ).unwrap();
            if exists|i: nat| #[trigger] fits::<S, T>(s, state, candidates, t, i) {
                exists|i: nat| #[trigger]
                    fits_first::<S, T>(s, state, candidates, t, i) && (instance::<T>(
                        s,
                        candidates,
                        i,
                    ) matches Some((candidate, made)) && made == after && outcome == Outcome::Same(
                        if constraints::replaces(candidate, t) {
                            Some(candidate)
                        } else {
                            None
                        },
                    ))
            } else {
                outcome == Outcome::Constraint(t, candidates)
            }
        }),
{
    let candidates = s.lists[position as int];
    assert(demanded.contains_key(name));
    assert(entries.contains((name, demanded[name])));
    assert(entries.contains((name, position)));
    let k = entries.index_of((name, position));
    assert(entries.len() == 1) by {
        if entries.len() > 1 {
            let other: int = if k == 0 {
                1
            } else {
                0
            };
            assert(demanded.contains_key(entries[other].0));
            assert(entries[other].0 == name);
            assert(entries[k].0 == name);
        }
    }
    assert(entries[0] == (name, position));
    assert(entries.drop_first().len() == 0);
    law_first_candidate_that_fits_is_taken::<S, T>(s, state, candidates, t);
    let (s1, found) = constraints::first_match::<S, T>(s, state, candidates, t).unwrap();
    if let Some(candidate) = found {
        let i = choose|i: nat| #[trigger]
            fits_first::<S, T>(s, state, candidates, t, i) && instance::<T>(s, candidates, i)
                == Some((candidate, s1));
        assert(fits::<S, T>(s, state, candidates, t, i));
        if constraints::replaces(candidate, t) {
            assert(constraints::resolved_in::<S, T>(s1, state, entries.drop_first(), candidate, true)
                == Some((s1, Outcome::Same(Some(candidate)))));
        } else {
            assert(constraints::resolved_in::<S, T>(s1, state, entries.drop_first(), t, false)
                == Some((s1, Outcome::Same(None::<Term<T::Op>>))));
        }
    }
}

proof fn lemma_replaced_by_better<S, T: Unifiable<S> + Instantiate>(
    s: Subs<T::Op>,
    state: S,
    entries: Seq<(u64, usize)>,
    t: Term<T::Op>,
    replaced: bool,
)
    requires
        constraints::resolved_in::<S, T>(s, state, entries, t, replaced) is Some,
    ensures
        constraints::resolved_in::<S, T>(s, state, entries, t, replaced).unwrap().1 matches Outcome::Same(
            Some(c),
        ) ==> replaced && c == t || constraints::replaces(c, t),
    decreases entries.len(),
{
    if entries.len() > 0 {
        let (s1, found) = constraints::first_match::<S, T>(
            s,
            state,
            s.lists[entries[0].1 as int],
            t,
        ).unwrap();
        if let Some(candidate) = found {
            if constraints::replaces(candidate, t) {
                lemma_replaced_by_better::<S, T>(s1, state, entries.drop_first(), candidate, true);
            } else {
                lemma_replaced_by_better::<S, T>(s1, state, entries.drop_first(), t, replaced);
            }
        }
    }
}

/// A type is only ever replaced by a type that is no variable, or, where it is a variable itself,
/// by a variable of a lower number. However the constraints are met, what was known of the
/// variables that were there stays as it is.
pub proof fn law_only_better_types_replace<S, T: Unifiable<S> + Instantiate>(
    s: Subs<T::Op>,
    state: S,
    entries: Seq<(u64, usize)>,
    t: Term<T::Op>,
    after: Subs<T::Op>,
    outcome: Outcome<T::Op>,
)
    requires
        s.wf(),
        constraints::resolved_in::<S, T>(s, state, entries, t, false) == Some((after, outcome)),
    ensures
        outcome matches Outcome::Same(Some(c)) ==> match c {
            Term::Node(..) => true,
            Term::Var(y) => t matches Term::Var(x) && y < x,
        },
        forall|v: u32|
            v < s.size() && s.resolvable(v) ==> #[trigger] after.find(v) == s.find(v),
{
    lemma_replaced_by_better::<S, T>(s, state, entries, t, false);
    constraints::lemma_resolved_extends::<S, T>(s, state, entries, t, false);
    assert forall|v: u32| v < s.size() && s.resolvable(v) implies #[trigger] after.find(v) == s.find(
        v,
    ) by {
        assert(after.table.roots[v as int] == s.table.roots[v as int]);
        assert(s.table.roots[v as int] < s.size());
        let r = s.root(v);
        if r < s.vars.len() {
            assert(s.vars[r as int] == Term::<T::Op>::Var(r));
            assert(after.vars[r as int] == Term::<T::Op>::Var(r));
        }
    }
}

/// A variable without a type is equivalent to anything, whether or not it occurs in it.
pub proof fn law_variables_match_anything<S, T: Unifiable<S>>(
    s: Subs<T::Op>,
    state: S,
    l: Term<T::Op>,
    r: Term<T::Op>,
)
    requires
        s.askable(l),
        s.askable(r),
        s.actual(l) is Var || s.actual(r) is Var,
    ensures
        unify::match_ends::<S, T>(s, state, l, r),
        unify::matches_term::<S, T>(s, state, l, r),
{
    let none = Map::<u64, Term<T::Op>>::empty();
    assert(unify::matched::<S, T>(s, state, none, l, r, 1) is Some);
    unify::lemma_matches_fuel::<S, T>(s, state, l, r, 1);
}

/// Levels do not decide whether terms match.
proof fn lemma_matched_relevelled<S, T: Unifiable<S>>(
    before: Subs<T::Op>,
    after: Subs<T::Op>,
    state: S,
    temp: Map<u64, Term<T::Op>>,
    l: Term<T::Op>,
    r: Term<T::Op>,
    fuel: nat,
)
    requires
        after.relevelled(before),
    ensures
        unify::matched::<S, T>(after, state, temp, l, r, fuel) == unify::matched::<S, T>(
            before,
            state,
            temp,
            l,
            r,
            fuel,
        ),
    decreases fuel, 0nat,
{
    if let Term::Var(v) = l {
        subs::lemma_relevelled_find(before, after, v);
    }
    if let Term::Var(v) = r {
        subs::lemma_relevelled_find(before, after, v);
    }
    if fuel > 0 {
        let l1 = unify::looked_up(before, temp, l);
        let r1 = unify::looked_up(before, temp, r);
        assert(unify::looked_up(after, temp, l) == l1);
        assert(unify::looked_up(after, temp, r) == r1);
        if let Some(pairs) = T::zipped(state, l1, r1) {
            lemma_matched_list_relevelled::<S, T>(
                before,
                after,
                state,
                temp,
                pairs,
                (fuel - 1) as nat,
            );
        }
    }
}

proof fn lemma_matched_list_relevelled<S, T: Unifiable<S>>(
    before: Subs<T::Op>,
    after: Subs<T::Op>,
    state: S,
    temp: Map<u64, Term<T::Op>>,
    pairs: Seq<(Term<T::Op>, Term<T::Op>)>,
    fuel: nat,
)
    requires
        after.relevelled(before),
    ensures
        unify::matched_list::<S, T>(after, state, temp, pairs, fuel) == unify::matched_list::<S, T>(
            before,
            state,
            temp,
            pairs,
            fuel,
        ),
    decreases fuel, 1 + pairs.len(),
{
    if pairs.len() > 0 {
        lemma_matched_relevelled::<S, T>(
            before,
            after,
            state,
            temp,
            pairs[0].0,
            pairs[0].1,
            fuel,
        );
        if let Some((next, _)) = unify::matched::<S, T>(
            before,
            state,
            temp,
            pairs[0].0,
            pairs[0].1,
            fuel,
        ) {
            lemma_matched_list_relevelled::<S, T>(
                before,
                after,
                state,
                next,
                pairs.drop_first(),
                fuel,
            );
        }
    }
}

proof fn lemma_matches_relevelled<S, T: Unifiable<S>>(
    before: Subs<T::Op>,
    after: Subs<T::Op>,
    state: S,
    l: Term<T::Op>,
    r: Term<T::Op>,
)
    requires
        after.relevelled(before),
        unify::match_ends::<S, T>(before, state, l, r),
    ensures
        unify::match_ends::<S, T>(after, state, l, r),
        unify::matches_term::<S, T>(after, state, l, r) == unify::matches_term::<S, T>(
            before,
            state,
            l,
            r,
        ),
{
    let none = Map::<u64, Term<T::Op>>::empty();
    let fuel = choose|fuel: nat|
        (#[trigger] unify::matched::<S, T>(before, state, none, l, r, fuel)) is Some;
    lemma_matched_relevelled::<S, T>(before, after, state, none, l, r, fuel);
    unify::lemma_matches_fuel::<S, T>(before, state, l, r, fuel);
    unify::lemma_matches_fuel::<S, T>(after, state, l, r, fuel);
}

/// Levels do not decide which candidate fits.
proof fn lemma_first_match_relevelled<S, T: Unifiable<S> + Instantiate>(
    before: Subs<T::Op>,
    after: Subs<T::Op>,
    state: S,
    candidates: Seq<Term<T::Op>>,
    t: Term<T::Op>,
)
    requires
        before.wf(),
        after.relevelled(before),
        constraints::first_match::<S, T>(before, state, candidates, t) is Some,
    ensures
        ({
            let (s, found) = constraints::first_match::<S, T>(before, state, candidates, t).unwrap();
            constraints::first_match::<S, T>(after, state, candidates, t) matches Some((s1, found1))
                && found1 == found && s1.relevelled(s)
        }),
    decreases candidates.len(),
{
    if candidates.len() > 0 {
        let none = Map::<u64, Seq<Term<T::Op>>>::empty();
        T::instantiated_relevelled(candidates[0], before, after, none);
        T::instantiated_extends(candidates[0], before, none);
        let (c, s) = T::instantiated(candidates[0], before, none).unwrap();
        let (c1, s1) = T::instantiated(candidates[0], after, none).unwrap();
        lemma_matches_relevelled::<S, T>(s, s1, state, c, t);
        if !unify::matches_term::<S, T>(s, state, c, t) {
            lemma_first_match_relevelled::<S, T>(s, s1, state, candidates.drop_first(), t);
        }
    }
}

/// Levels do not decide how constraints are met.
proof fn lemma_resolved_relevelled<S, T: Unifiable<S> + Instantiate>(
    before: Subs<T::Op>,
    after: Subs<T::Op>,
    state: S,
    entries: Seq<(u64, usize)>,
    t: Term<T::Op>,
    replaced: bool,
)
    requires
        before.wf(),
        after.relevelled(before),
        constraints::resolved_in::<S, T>(before, state, entries, t, replaced) is Some,
    ensures
        ({
            let (s, outcome) = constraints::resolved_in::<S, T>(
                before,
                state,
                entries,
                t,
                replaced,
            ).unwrap();
            constraints::resolved_in::<S, T>(after, state, entries, t, replaced) matches Some(
                (s1, outcome1),
            ) && outcome1 == outcome && s1.relevelled(s)
        }),
    decreases entries.len(),
{
    if entries.len() > 0 {
        let candidates = before.lists[entries[0].1 as int];
        lemma_first_match_relevelled::<S, T>(before, after, state, candidates, t);
        constraints::lemma_first_match_extends::<S, T>(before, state, candidates, t);
        let (s, found) = constraints::first_match::<S, T>(before, state, candidates, t).unwrap();
        let (s1, _) = constraints::first_match::<S, T>(after, state, candidates, t).unwrap();
        if let Some(candidate) = found {
            if constraints::replaces(candidate, t) {
                lemma_resolved_relevelled::<S, T>(s, s1, state, entries.drop_first(), candidate, true);
            } else {
                lemma_resolved_relevelled::<S, T>(s, s1, state, entries.drop_first(), t, replaced);
            }
        }
    }
}

/// There is one entry at most.
pub open spec fn one_at_most(map: Map<u64, usize>) -> bool {
    forall|x: u64, y: u64| #[trigger]
        map.contains_key(x) && #[trigger] map.contains_key(y) ==> x == y
}

/// A map with one entry at most has one order.
pub proof fn lemma_one_order(map: Map<u64, usize>, a: Seq<(u64, usize)>, b: Seq<(u64, usize)>)
    requires
        one_at_most(map),
        fnv_map::enumerates(a, map),
        fnv_map::enumerates(b, map),
    ensures
        a == b,
        a.len() <= 1,
{
    assert(a.len() <= 1) by {
        if a.len() > 1 {
            assert(map.contains_key(a[0].0) && map.contains_key(a[1].0));
        }
    }
    assert(b.len() <= 1) by {
        if b.len() > 1 {
            assert(map.contains_key(b[0].0) && map.contains_key(b[1].0));
        }
    }
    if a.len() > 0 {
        let name = a[0].0;
        assert(map.contains_key(name));
        assert(b.contains((name, map[name])));
    }
    if b.len() > 0 {
        let name = b[0].0;
        assert(map.contains_key(name));
        assert(a.contains((name, map[name])));
    }
    assert(a =~= b);
}

/// Making a variable and a type that is no variable, and in which it does not occur, the same ends
/// as going through the constraints of the variable does, in the same order or where there is one
/// constraint at most: with that error, where there is one, and the variable stays unknown then.
/// Else the variable, and every variable that it stands for, has the type from then on, or the
/// candidate that took its place.
pub proof fn law_union_ends_as_its_constraints_do<S, T: Unifiable<S> + Instantiate>(
    s: Subs<T::Op>,
    state: S,
    id: u32,
    t: Term<T::Op>,
    entries: Seq<(u64, usize)>,
    after: Subs<T::Op>,
    outcome: Outcome<T::Op>,
    asked: Seq<(u64, usize)>,
    tried: Subs<T::Op>,
    resolved: Outcome<T::Op>,
)
    requires
        s.wf(),
        id < s.size(),
        s.find(id) is None,
        t is Node,
        s.walk_ends(id, t),
        !s.occurs(id, t).1,
        entries == asked || one_at_most(s.table.class(id as usize).constraints),
        fnv_map::enumerates(entries, s.table.class(id as usize).constraints),
        fnv_map::enumerates(asked, s.table.class(id as usize).constraints),
        constraints::unioned_in::<S, T>(s, state, entries, id, t) == Some((after, outcome)),
        constraints::resolved_in::<S, T>(s, state, asked, t, false) == Some((tried, resolved)),
    ensures
        outcome == resolved,
        resolved matches Outcome::Same(candidate) ==> forall|v: u32|
            v < s.size() && #[trigger] s.root(v) == id ==> after.find(v) == Some(
                match candidate {
                    Some(c) => c,
                    None => t,
                },
            ),
        !(resolved is Same) ==> after.find(id) is None,
{
    if entries != asked {
        lemma_one_order(s.table.class(id as usize).constraints, entries, asked);
    }
    let fuel = choose|fuel: nat| (#[trigger] s.occurs_walk(id, t, fuel)) is Some;
    subs::lemma_occurs_fuel(s, id, t, fuel);
    subs::lemma_walk_relevels(s, id, t, fuel);
    let (s1, found) = s.occurs(id, t);
    subs::lemma_relevelled_find(s, s1, id);
    lemma_resolved_relevelled::<S, T>(s, s1, state, entries, t, false);
    constraints::lemma_resolved_extends::<S, T>(s1, state, entries, t, false);
    constraints::lemma_candidate_is_no_variable::<S, T>(s1, state, entries, t, false);
    let s2 = constraints::resolved_in::<S, T>(s1, state, entries, t, false).unwrap().0;
    assert(s2.table.roots[id as int] == s1.table.roots[id as int]);
    assert forall|v: u32| v < s.size() && #[trigger] s.root(v) == id implies s2.root(v) == id by {
        assert(s2.table.roots[v as int] == s1.table.roots[v as int]);
    }
}

} // verus!
