//! What holds of types under a substitution.
use vstd::prelude::*;
use crate::acyclic;
use crate::alias;
use crate::constraints;
use crate::constraints::Instantiate;
use crate::inference;
use crate::rewrite;
use crate::subs;
use crate::subs::Subs;
use crate::term::Term;
use crate::types::{Op, Type};
use crate::unify;
use crate::union_table;

verus! {

/// What is applied, and the arguments, are parts of the application.
proof fn lemma_application_parts(t: Term<Op>, v: u32)
    ensures
        inference::applied_head(t).mentions(v) ==> t.mentions(v),
        forall|i: int|
            0 <= i < alias::unapplied_args(t).len() && (#[trigger] alias::unapplied_args(
                t,
            )[i]).mentions(v) ==> t.mentions(v),
    decreases t,
{
    if let Term::Node(Op::App, kids) = t {
        if kids.len() > 0 {
            lemma_application_parts(kids[0], v);
            assert(kids[0].mentions(v) ==> t.mentions(v));
            let first = alias::unapplied_args(kids[0]);
            let rest = kids.drop_first();
            assert forall|i: int|
                0 <= i < alias::unapplied_args(t).len() && (#[trigger] alias::unapplied_args(
                    t,
                )[i]).mentions(v) implies t.mentions(v) by {
                assert(alias::unapplied_args(t) == first + rest);
                if i < first.len() {
                    assert(first[i].mentions(v));
                } else {
                    assert(rest[i - first.len()] == kids[i - first.len() + 1]);
                    assert(kids[i - first.len() + 1].mentions(v));
                }
            }
        }
    }
}

/// Unrolling an application brings no variable in.
proof fn lemma_unrolled_mentions(t: Term<Op>, v: u32)
    requires
        inference::unrolled(t).mentions(v),
    ensures
        t.mentions(v),
{
    if inference::unrolled(t) != t {
        lemma_application_parts(t, v);
        let parts = seq![inference::applied_head(t)] + alias::unapplied_args(t);
        if parts.len() == 1 {
            assert(parts[0].mentions(v));
        } else {
            let i = choose|i: int| 0 <= i < parts.len() && (#[trigger] parts[i]).mentions(v);
            if i > 0 {
                assert(alias::unapplied_args(t)[i - 1].mentions(v));
            }
        }
    }
}

/// A type in which every variable was replaced by what it stands for has only variables left of
/// which nothing is known.
pub proof fn law_set_type_leaves_unknowns_only(s: Subs<Op>, t: Term<Op>, v: u32)
    requires
        s.wf(),
        inference::substitution_ends(s, t),
        inference::fully_substituted(s, t).mentions(v),
    ensures
        s.find(v) is None,
{
    let fuel = choose|fuel: nat| (#[trigger] inference::substituted(s, t, fuel)) is Some;
    lemma_unknowns_only(s, t, fuel, v);
}

proof fn lemma_unknowns_only(s: Subs<Op>, t: Term<Op>, fuel: nat, v: u32)
    requires
        s.wf(),
        inference::substituted(s, t, fuel) is Some,
        inference::substituted(s, t, fuel).unwrap().mentions(v),
    ensures
        s.find(v) is None,
    decreases fuel,
{
    match s.actual(t) {
        Term::Var(_) => {
            subs::lemma_actual_var(s, t);
        },
        Term::Node(op, kids) => {
            let depth = (fuel - 1) as nat;
            let found = inference::substituted_list(s, kids, depth).unwrap();
            inference::lemma_substituted_list_parts(s, kids, depth);
            lemma_unrolled_mentions(Term::Node(op, found), v);
            let i = choose|i: int| 0 <= i < found.len() && (#[trigger] found[i]).mentions(v);
            assert(inference::substituted(s, kids[i], depth) == Some(found[i]));
            lemma_unknowns_only(s, kids[i], depth, v);
        },
    }
}

/// In an acyclic substitution replacing variables by what they stand for comes to an end.
pub proof fn law_set_type_ends(s: Subs<Op>, t: Term<Op>)
    requires
        acyclic::acyclic(s),
        acyclic::in_range(s, t),
    ensures
        inference::substitution_ends(s, t),
{
    let height = choose|height: spec_fn(u32) -> nat| #[trigger] acyclic::ordered_by(s, height);
    let bound = acyclic::lemma_height_bound(s, height, t);
    let fuel = lemma_substitution_ends(s, height, t, bound);
    assert(inference::substituted(s, t, fuel) is Some);
}

proof fn lemma_substitution_ends(
    s: Subs<Op>,
    height: spec_fn(u32) -> nat,
    t: Term<Op>,
    bound: nat,
) -> (fuel: nat)
    requires
        acyclic::acyclic(s),
        acyclic::ordered_by(s, height),
        acyclic::in_range(s, t),
        forall|v: u32| #[trigger] t.mentions(v) ==> height(s.root(v)) < bound,
    ensures
        inference::substituted(s, t, fuel) is Some,
    decreases bound, t,
{
    match t {
        Term::Node(_, kids) => {
            assert forall|i: int, v: u32|
                0 <= i < kids.len() && #[trigger] kids[i].mentions(v) implies v < s.size() && height(
                s.root(v),
            ) < bound by {
                assert(t.mentions(v));
            }
            let depth = lemma_substitution_list_ends(s, height, kids, bound);
            depth + 1
        },
        Term::Var(v) => {
            assert(t.mentions(v));
            assert(s.table.roots[v as int] < s.size());
            let r = s.root(v);
            assert(s.table.roots[r as int] == r);
            if s.types.contains_key(r) {
                let found = s.types[r];
                let kids = found->Node_1;
                assert forall|i: int, w: u32|
                    0 <= i < kids.len() && #[trigger] kids[i].mentions(w) implies w < s.size()
                    && height(s.root(w)) < height(r) by {
                    assert(found.mentions(w));
                }
                let depth = lemma_substitution_list_ends(s, height, kids, height(r));
                depth + 1
            } else {
                assert(s.resolvable(v));
                1
            }
        },
    }
}

proof fn lemma_substitution_list_ends(
    s: Subs<Op>,
    height: spec_fn(u32) -> nat,
    kids: Seq<Term<Op>>,
    bound: nat,
) -> (fuel: nat)
    requires
        acyclic::acyclic(s),
        acyclic::ordered_by(s, height),
        forall|i: int, v: u32|
            0 <= i < kids.len() && #[trigger] kids[i].mentions(v) ==> v < s.size() && height(
                s.root(v),
            ) < bound,
    ensures
        inference::substituted_list(s, kids, fuel) is Some,
    decreases bound, kids,
{
    if kids.len() == 0 {
        0
    } else {
        let last = kids.len() - 1;
        assert forall|v: u32| #[trigger] kids[last].mentions(v) implies v < s.size() && height(
            s.root(v),
        ) < bound by {}
        let one = lemma_substitution_ends(s, height, kids[last], bound);
        let rest = kids.drop_last();
        assert forall|i: int, v: u32|
            0 <= i < rest.len() && #[trigger] rest[i].mentions(v) implies v < s.size() && height(
            s.root(v),
        ) < bound by {
            assert(kids[i].mentions(v));
        }
        let others = lemma_substitution_list_ends(s, height, rest, bound);
        let fuel = if one < others {
            others
        } else {
            one
        };
        inference::lemma_substituted_fuel(s, kids[last], one, fuel);
        inference::lemma_substituted_list_fuel(s, rest, others, fuel);
        fuel
    }
}

/// Every type is equivalent to itself, whatever is known of its variables.
pub proof fn law_equivalence_is_reflexive(s: Subs<Op>, t: Term<Op>)
    requires
        unify::match_ends::<(), Type>(s, (), t, t),
    ensures
        unify::matches_term::<(), Type>(s, (), t, t),
{
    let none = Map::<u64, Term<Op>>::empty();
    let fuel = choose|fuel: nat|
        (#[trigger] unify::matched::<(), Type>(s, (), none, t, t, fuel)) is Some;
    lemma_matches_itself(s, none, t, fuel);
}

proof fn lemma_matches_itself(s: Subs<Op>, temp: Map<u64, Term<Op>>, t: Term<Op>, fuel: nat)
    requires
        unify::matched::<(), Type>(s, (), temp, t, t, fuel) is Some,
    ensures
        unify::matched::<(), Type>(s, (), temp, t, t, fuel) == Some((temp, true)),
    decreases fuel, 0nat,
{
    if let Term::Node(op, kids) = unify::looked_up(s, temp, t) {
        let pairs = Seq::new(kids.len(), |i: int| (kids[i], kids[i]));
        assert(<Type as unify::Unifiable<()>>::zipped((), Term::Node(op, kids), Term::Node(op, kids)) == Some(pairs));
        lemma_pairs_match_themselves(s, temp, pairs, (fuel - 1) as nat);
    }
}

proof fn lemma_pairs_match_themselves(
    s: Subs<Op>,
    temp: Map<u64, Term<Op>>,
    pairs: Seq<(Term<Op>, Term<Op>)>,
    fuel: nat,
)
    requires
        unify::matched_list::<(), Type>(s, (), temp, pairs, fuel) is Some,
        forall|i: int| 0 <= i < pairs.len() ==> (#[trigger] pairs[i]).0 == pairs[i].1,
    ensures
        unify::matched_list::<(), Type>(s, (), temp, pairs, fuel) == Some((temp, true)),
    decreases fuel, 1 + pairs.len(),
{
    if pairs.len() > 0 {
        lemma_matches_itself(s, temp, pairs[0].0, fuel);
        lemma_pairs_match_themselves(s, temp, pairs.drop_first(), fuel);
    }
}

/// There are no variables in the type, no generics, and no quantifier around it.
pub open spec fn ground(t: Term<Op>) -> bool {
    &&& forall|v: u32| !#[trigger] t.mentions(v)
    &&& alias::remove_forall(t) == t
    &&& rewrite::gathered(Seq::empty(), t).len() == 0
}

/// Without rules nothing is replaced.
proof fn lemma_nothing_rewritten(t: Term<Op>)
    ensures
        rewrite::rewritten(t, Seq::empty()) == t,
    decreases t,
{
    if let Term::Node(op, kids) = t {
        let rules = Seq::<(rewrite::Leaf, Term<Op>)>::empty();
        assert forall|i: int| 0 <= i < kids.len() implies rewrite::rewritten(
            #[trigger] kids[i],
            rules,
        ) == kids[i] by {
            lemma_nothing_rewritten(kids[i]);
        }
        assert(rewrite::rewritten(t, rules)->Node_1 =~= kids);
    }
}

/// A ground type is its own instance.
proof fn lemma_ground_instance(s: Subs<Op>, t: Term<Op>)
    requires
        ground(t),
        s.vars.len() == s.size(),
        s.size() <= union_table::max_keys(),
    ensures
        <Type as Instantiate>::instantiated(t, s, Map::empty()) == Some((t, s)),
{
    let generics = rewrite::gathered(Seq::empty(), t);
    assert(generics =~= Seq::empty());
    assert(inference::variable_rules(generics, s.vars.len()) =~= Seq::empty());
    lemma_nothing_rewritten(t);
}

/// Everything that a comparison may meet exists.
pub open spec fn temp_in_range(s: Subs<Op>, temp: Map<u64, Term<Op>>) -> bool {
    forall|key: u64| #[trigger]
        temp.contains_key(key) ==> acyclic::in_range(s, temp[key])
}

/// Comparing a type without variables with any other comes to an end.
proof fn lemma_match_ends(
    s: Subs<Op>,
    temp: Map<u64, Term<Op>>,
    l: Term<Op>,
    r: Term<Op>,
) -> (fuel: nat)
    requires
        acyclic::acyclic(s),
        temp_in_range(s, temp),
        forall|v: u32| !#[trigger] l.mentions(v),
        acyclic::in_range(s, r),
    ensures
        unify::matched::<(), Type>(s, (), temp, l, r, fuel) is Some,
        temp_in_range(s, unify::matched::<(), Type>(s, (), temp, l, r, fuel).unwrap().0),
    decreases l,
{
    if let Term::Var(v) = l {
        assert(l.mentions(v));
    }
    if let Term::Var(v) = r {
        assert(r.mentions(v));
        assert(s.table.roots[v as int] < s.size());
    }
    assert(s.askable(r));
    let r1 = unify::looked_up(s, temp, r);
    assert(acyclic::in_range(s, r1)) by {
        if let Term::Var(v) = r {
            assert(s.table.roots[s.root(v) as int] == s.root(v));
            assert(s.vars[s.root(v) as int] == Term::<Op>::Var(s.root(v)));
            if let Term::Var(w) = s.actual(r) {
                assert forall|x: u32| #[trigger] r1.mentions(x) implies x < s.size() by {
                    if temp.contains_key(w as u64) {
                        assert(acyclic::in_range(s, temp[w as u64]));
                    }
                }
            }
        }
    }
    match r1 {
        Term::Var(b) => 1,
        Term::Node(_, ls) => {
            let zipped = <Type as unify::Unifiable<()>>::zipped((), l, r1);
            if let Some(pairs) = zipped {
                let ks = l->Node_1;
                assert forall|i: int, v: u32|
                    0 <= i < ks.len() implies !#[trigger] ks[i].mentions(v) by {
                    assert(!l.mentions(v));
                }
                assert forall|i: int, v: u32|
                    0 <= i < ls.len() && #[trigger] ls[i].mentions(v) implies v < s.size() by {
                    assert(r1.mentions(v));
                }
                assert(pairs =~= Seq::new(ks.len(), |i: int| (ks[i], ls[i])));
                let depth = lemma_matches_end(s, temp, ks, ls);
                depth + 1
            } else {
                1
            }
        },
    }
}

proof fn lemma_matches_end(
    s: Subs<Op>,
    temp: Map<u64, Term<Op>>,
    ks: Seq<Term<Op>>,
    ls: Seq<Term<Op>>,
) -> (fuel: nat)
    requires
        acyclic::acyclic(s),
        temp_in_range(s, temp),
        ks.len() == ls.len(),
        forall|i: int, v: u32| 0 <= i < ks.len() ==> !#[trigger] ks[i].mentions(v),
        forall|i: int, v: u32|
            0 <= i < ls.len() && #[trigger] ls[i].mentions(v) ==> v < s.size(),
    ensures
        ({
            let pairs = Seq::new(ks.len(), |i: int| (ks[i], ls[i]));
            &&& unify::matched_list::<(), Type>(s, (), temp, pairs, fuel) is Some
            &&& temp_in_range(
                s,
                unify::matched_list::<(), Type>(s, (), temp, pairs, fuel).unwrap().0,
            )
        }),
    decreases ks,
{
    let pairs = Seq::new(ks.len(), |i: int| (ks[i], ls[i]));
    if ks.len() == 0 {
        0
    } else {
        assert forall|v: u32| !#[trigger] ks[0].mentions(v) by {}
        assert forall|v: u32| #[trigger] ls[0].mentions(v) implies v < s.size() by {}
        let first = lemma_match_ends(s, temp, ks[0], ls[0]);
        let after = unify::matched::<(), Type>(s, (), temp, ks[0], ls[0], first).unwrap().0;
        let ks1 = ks.drop_first();
        let ls1 = ls.drop_first();
        assert forall|i: int, v: u32| 0 <= i < ks1.len() implies !#[trigger] ks1[i].mentions(v) by {
            assert(!ks[i + 1].mentions(v));
        }
        assert forall|i: int, v: u32|
            0 <= i < ls1.len() && #[trigger] ls1[i].mentions(v) implies v < s.size() by {
            assert(ls[i + 1].mentions(v));
        }
        let rest = lemma_matches_end(s, after, ks1, ls1);
        let fuel = if first < rest {
            rest
        } else {
            first
        };
        let pairs1 = Seq::new(ks1.len(), |i: int| (ks1[i], ls1[i]));
        assert(pairs.drop_first() =~= pairs1);
        unify::lemma_matched_fuel::<(), Type>(s, (), temp, ks[0], ls[0], first, fuel);
        unify::lemma_matched_list_fuel::<(), Type>(s, (), after, pairs1, rest, fuel);
        fuel
    }
}

/// In an acyclic substitution, comparing a type without variables with any other comes to an end.
pub proof fn law_equivalence_with_ground_types_ends(s: Subs<Op>, l: Term<Op>, r: Term<Op>)
    requires
        acyclic::acyclic(s),
        forall|v: u32| !#[trigger] l.mentions(v),
        acyclic::in_range(s, r),
    ensures
        unify::match_ends::<(), Type>(s, (), l, r),
{
    let none = Map::<u64, Term<Op>>::empty();
    let fuel = lemma_match_ends(s, none, l, r);
    assert(unify::matched::<(), Type>(s, (), none, l, r, fuel) is Some);
}

proof fn lemma_first_match_ends(s: Subs<Op>, candidates: Seq<Term<Op>>, t: Term<Op>)
    requires
        acyclic::acyclic(s),
        s.size() <= union_table::max_keys(),
        forall|j: int| 0 <= j < candidates.len() ==> ground(#[trigger] candidates[j]),
        acyclic::in_range(s, t),
    ensures
        constraints::first_match::<(), Type>(s, (), candidates, t) matches Some((after, found))
            && after == s && (found matches Some(candidate) ==> ground(candidate)),
    decreases candidates.len(),
{
    if candidates.len() > 0 {
        let candidate = candidates[0];
        lemma_ground_instance(s, candidate);
        law_equivalence_with_ground_types_ends(s, candidate, t);
        let rest = candidates.drop_first();
        assert forall|j: int| 0 <= j < rest.len() implies ground(#[trigger] rest[j]) by {
            assert(ground(candidates[j + 1]));
        }
        lemma_first_match_ends(s, rest, t);
    }
}

/// The `i`th candidate is the first that fits the type.
pub open spec fn fits_first(s: Subs<Op>, candidates: Seq<Term<Op>>, t: Term<Op>, i: int) -> bool {
    &&& 0 <= i < candidates.len()
    &&& unify::matches_term::<(), Type>(s, (), candidates[i], t)
    &&& forall|j: int|
        0 <= j < i ==> !unify::matches_term::<(), Type>(s, (), #[trigger] candidates[j], t)
}

/// Of the ground candidates of a constraint the first that fits the type is taken; there is an
/// error if and only if none fits.
pub proof fn law_first_fitting_candidate_is_taken(
    s: Subs<Op>,
    candidates: Seq<Term<Op>>,
    t: Term<Op>,
)
    requires
        acyclic::acyclic(s),
        s.size() <= union_table::max_keys(),
        forall|j: int| 0 <= j < candidates.len() ==> ground(#[trigger] candidates[j]),
        acyclic::in_range(s, t),
    ensures
        constraints::first_match::<(), Type>(s, (), candidates, t) matches Some((after, found))
            && after == s && match found {
            Some(candidate) => exists|i: int| #[trigger]
                fits_first(s, candidates, t, i) && candidates[i] == candidate,
            None => forall|j: int|
                0 <= j < candidates.len() ==> !unify::matches_term::<(), Type>(
                    s,
                    (),
                    #[trigger] candidates[j],
                    t,
                ),
        },
    decreases candidates.len(),
{
    lemma_first_match_ends(s, candidates, t);
    if candidates.len() > 0 {
        let candidate = candidates[0];
        lemma_ground_instance(s, candidate);
        law_equivalence_with_ground_types_ends(s, candidate, t);
        if unify::matches_term::<(), Type>(s, (), candidate, t) {
            assert(fits_first(s, candidates, t, 0));
        } else {
            let rest = candidates.drop_first();
            assert forall|j: int| 0 <= j < rest.len() implies ground(#[trigger] rest[j]) by {
                assert(ground(candidates[j + 1]));
            }
            law_first_fitting_candidate_is_taken(s, rest, t);
            match constraints::first_match::<(), Type>(s, (), rest, t).unwrap().1 {
                Some(found) => {
                    let i = choose|i: int| #[trigger]
                        fits_first(s, rest, t, i) && rest[i] == found;
                    assert forall|j: int| 0 <= j < i + 1 implies !unify::matches_term::<(), Type>(
                        s,
                        (),
                        #[trigger] candidates[j],
                        t,
                    ) by {
                        if j > 0 {
                            assert(rest[j - 1] == candidates[j]);
                        }
                    }
                    assert(fits_first(s, candidates, t, i + 1));
                },
                None => {
                    assert forall|j: int| 0 <= j < candidates.len() implies !unify::matches_term::<
                        (),
                        Type,
                    >(s, (), #[trigger] candidates[j], t) by {
                        if j > 0 {
                            assert(rest[j - 1] == candidates[j]);
                        }
                    }
                },
            }
        }
    }
}

} // verus!
