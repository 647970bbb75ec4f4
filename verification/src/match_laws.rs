//! What it means for types to be equivalent.
use vstd::prelude::*;
use crate::constraints;
use crate::inference_laws;
use crate::subs::Subs;
use crate::term::Term;
use crate::types::{Op, Type};
use crate::unify;

verus! {

/// There are no variables in the term.
pub open spec fn closed(t: Term<Op>) -> bool {
    forall|v: u32| !#[trigger] t.mentions(v)
}

/// Nothing is known of the variables in the term.
pub open spec fn all_unknown(s: Subs<Op>, t: Term<Op>) -> bool {
    forall|v: u32| #[trigger] t.mentions(v) ==> s.find(v) is None && s.resolvable(v)
}

/// The term with a term in the place of each variable.
pub open spec fn filled(t: Term<Op>, values: spec_fn(u32) -> Term<Op>) -> Term<Op>
    decreases t,
{
    match t {
        Term::Var(v) => values(v),
        Term::Node(op, kids) => Term::Node(
            op,
            Seq::new(
                kids.len(),
                |i: int|
                    if 0 <= i < kids.len() {
                        filled(kids[i], values)
                    } else {
                        arbitrary()
                    },
            ),
        ),
    }
}

/// The operands of a term without variables have none.
proof fn lemma_closed_operand(t: Term<Op>, i: int)
    requires
        closed(t),
        t is Node,
        0 <= i < t->Node_1.len(),
    ensures
        closed(t->Node_1[i]),
{
    assert forall|v: u32| !#[trigger] t->Node_1[i].mentions(v) by {
        assert(!t.mentions(v));
    }
}

/// A term without variables is no variable.
proof fn lemma_closed_is_node(t: Term<Op>)
    requires
        closed(t),
    ensures
        t is Node,
{
    if let Term::Var(v) = t {
        assert(t.mentions(v));
    }
}

/// Comparing terms without variables tells whether they are the same, and nothing else.
proof fn lemma_closed_match(
    s: Subs<Op>,
    temp: Map<u64, Term<Op>>,
    l: Term<Op>,
    r: Term<Op>,
    fuel: nat,
)
    requires
        closed(l),
        closed(r),
        unify::matched::<(), Type>(s, (), temp, l, r, fuel) is Some,
    ensures
        unify::matched::<(), Type>(s, (), temp, l, r, fuel) == Some((temp, l == r)),
    decreases fuel, 0nat,
{
    lemma_closed_is_node(l);
    lemma_closed_is_node(r);
    let ks = l->Node_1;
    let ls = r->Node_1;
    if let Some(pairs) = <Type as unify::Unifiable<()>>::zipped((), l, r) {
        assert(ks.len() == ls.len());
        assert(pairs.len() == ks.len());
        assert forall|i: int| 0 <= i < pairs.len() implies closed((#[trigger] pairs[i]).0) && closed(
            pairs[i].1,
        ) by {
            lemma_closed_operand(l, i);
            lemma_closed_operand(r, i);
        }
        lemma_closed_matches(s, temp, pairs, (fuel - 1) as nat);
        if l != r {
            assert(!(ks =~= ls));
            let i = choose|i: int| 0 <= i < ks.len() && ks[i] != ls[i];
            assert(pairs[i].0 != pairs[i].1);
        } else {
            assert forall|i: int| 0 <= i < pairs.len() implies (#[trigger] pairs[i]).0
                == pairs[i].1 by {}
        }
    }
}

proof fn lemma_closed_matches(
    s: Subs<Op>,
    temp: Map<u64, Term<Op>>,
    pairs: Seq<(Term<Op>, Term<Op>)>,
    fuel: nat,
)
    requires
        forall|i: int|
            0 <= i < pairs.len() ==> closed((#[trigger] pairs[i]).0) && closed(pairs[i].1),
        unify::matched_list::<(), Type>(s, (), temp, pairs, fuel) is Some,
    ensures
        unify::matched_list::<(), Type>(s, (), temp, pairs, fuel) == Some(
            (
                temp,
                forall|i: int| 0 <= i < pairs.len() ==> (#[trigger] pairs[i]).0 == pairs[i].1,
            ),
        ),
    decreases fuel, 1 + pairs.len(),
{
    if pairs.len() > 0 {
        lemma_closed_match(s, temp, pairs[0].0, pairs[0].1, fuel);
        let rest = pairs.drop_first();
        assert forall|i: int| 0 <= i < rest.len() implies closed((#[trigger] rest[i]).0) && closed(
            rest[i].1,
        ) by {
            assert(closed(pairs[i + 1].0));
        }
        lemma_closed_matches(s, temp, rest, fuel);
        let all = forall|i: int| 0 <= i < pairs.len() ==> (#[trigger] pairs[i]).0 == pairs[i].1;
        let others = forall|i: int| 0 <= i < rest.len() ==> (#[trigger] rest[i]).0 == rest[i].1;
        if all {
            assert forall|i: int| 0 <= i < rest.len() implies (#[trigger] rest[i]).0
                == rest[i].1 by {
                assert(pairs[i + 1].0 == pairs[i + 1].1);
            }
        }
        if others && pairs[0].0 == pairs[0].1 {
            assert forall|i: int| 0 <= i < pairs.len() implies (#[trigger] pairs[i]).0
                == pairs[i].1 by {
                if i > 0 {
                    assert(rest[i - 1] == pairs[i]);
                }
            }
        }
        assert(all == (pairs[0].0 == pairs[0].1 && others));
    }
}

/// Two types without variables are equivalent if and only if they are the same type.
pub proof fn law_equivalence_is_equality(s: Subs<Op>, l: Term<Op>, r: Term<Op>)
    requires
        closed(l),
        closed(r),
        unify::match_ends::<(), Type>(s, (), l, r),
    ensures
        unify::matches_term::<(), Type>(s, (), l, r) <==> l == r,
{
    let none = Map::<u64, Term<Op>>::empty();
    let fuel = choose|fuel: nat|
        (#[trigger] unify::matched::<(), Type>(s, (), none, l, r, fuel)) is Some;
    lemma_closed_match(s, none, l, r, fuel);
}

/// Two types that stand for types with different operators, or with different numbers of operands,
/// are not equivalent.
pub proof fn law_equivalent_types_have_one_shape(s: Subs<Op>, l: Term<Op>, r: Term<Op>)
    requires
        unify::match_ends::<(), Type>(s, (), l, r),
        unify::matches_term::<(), Type>(s, (), l, r),
        s.actual(l) is Node,
        s.actual(r) is Node,
    ensures
        s.actual(l)->Node_0 == s.actual(r)->Node_0,
        s.actual(l)->Node_1.len() == s.actual(r)->Node_1.len(),
{
    let none = Map::<u64, Term<Op>>::empty();
    let fuel = choose|fuel: nat|
        (#[trigger] unify::matched::<(), Type>(s, (), none, l, r, fuel)) is Some;
    assert(unify::matched::<(), Type>(s, (), none, l, r, fuel).unwrap().1);
}

/// The terms are those that the comparison found for the variables.
pub open spec fn agree(values: spec_fn(u32) -> Term<Op>, temp: Map<u64, Term<Op>>) -> bool {
    forall|v: u32| #[trigger]
        temp.contains_key(v as u64) ==> values(v) == temp[v as u64]
}

/// No term that the comparison found for a variable has variables.
pub open spec fn closed_finds(temp: Map<u64, Term<Op>>) -> bool {
    forall|key: u64| #[trigger] temp.contains_key(key) ==> closed(temp[key])
}

/// One comparison of a term of unknown variables, on the left or on the right, with a closed one.
pub open spec fn compared(
    s: Subs<Op>,
    temp: Map<u64, Term<Op>>,
    pattern: Term<Op>,
    t: Term<Op>,
    left: bool,
    fuel: nat,
) -> Option<(Map<u64, Term<Op>>, bool)> {
    if left {
        unify::matched::<(), Type>(s, (), temp, pattern, t, fuel)
    } else {
        unify::matched::<(), Type>(s, (), temp, t, pattern, fuel)
    }
}

/// The pairs to be compared, with the patterns on the left or on the right.
pub open spec fn paired(
    patterns: Seq<Term<Op>>,
    terms: Seq<Term<Op>>,
    left: bool,
) -> Seq<(Term<Op>, Term<Op>)> {
    Seq::new(
        patterns.len(),
        |i: int|
            if left {
                (patterns[i], terms[i])
            } else {
                (terms[i], patterns[i])
            },
    )
}

proof fn lemma_pattern_match(
    s: Subs<Op>,
    temp: Map<u64, Term<Op>>,
    pattern: Term<Op>,
    t: Term<Op>,
    left: bool,
    fuel: nat,
    values: spec_fn(u32) -> Term<Op>,
)
    requires
        all_unknown(s, pattern),
        closed(t),
        closed_finds(temp),
        compared(s, temp, pattern, t, left, fuel) is Some,
    ensures
        ({
            let (after, same) = compared(s, temp, pattern, t, left, fuel).unwrap();
            &&& closed_finds(after)
            &&& agree(values, after) ==> agree(values, temp)
            &&& same && agree(values, after) ==> filled(pattern, values) == t
            &&& agree(values, temp) && filled(pattern, values) == t ==> same && agree(values, after)
        }),
    decreases fuel, 0nat,
{
    lemma_closed_is_node(t);
    let (after, same) = compared(s, temp, pattern, t, left, fuel).unwrap();
    match pattern {
        Term::Var(a) => {
            assert(pattern.mentions(a));
            assert(s.actual(pattern) == pattern);
            if temp.contains_key(a as u64) {
                let found = temp[a as u64];
                assert(closed(found));
                lemma_closed_is_node(found);
                let pairs = if left {
                    <Type as unify::Unifiable<()>>::zipped((), found, t)
                } else {
                    <Type as unify::Unifiable<()>>::zipped((), t, found)
                };
                assert(compared(s, temp, pattern, t, left, fuel) == (if left {
                    unify::matched::<(), Type>(s, (), temp, found, t, fuel)
                } else {
                    unify::matched::<(), Type>(s, (), temp, t, found, fuel)
                }));
                if left {
                    lemma_closed_match(s, temp, found, t, fuel);
                } else {
                    lemma_closed_match(s, temp, t, found, fuel);
                }
            } else {
                assert(after == temp.insert(a as u64, t) && same);
                assert(agree(values, after) ==> agree(values, temp)) by {
                    if agree(values, after) {
                        assert forall|v: u32| #[trigger] temp.contains_key(v as u64) implies values(v)
                            == temp[v as u64] by {
                            assert(after.contains_key(v as u64));
                        }
                    }
                }
                assert(after.contains_key(a as u64));
                assert(agree(values, temp) && values(a) == t ==> agree(values, after)) by {
                    if agree(values, temp) && values(a) == t {
                        assert forall|v: u32| #[trigger] after.contains_key(v as u64) implies values(
                            v,
                        ) == after[v as u64] by {
                            if v != a {
                                assert(temp.contains_key(v as u64));
                            }
                        }
                    }
                }
            }
        },
        Term::Node(op, ks) => {
            let ls = t->Node_1;
            let zipped = if left {
                <Type as unify::Unifiable<()>>::zipped((), pattern, t)
            } else {
                <Type as unify::Unifiable<()>>::zipped((), t, pattern)
            };
            if let Some(pairs) = zipped {
                assert(pairs =~= paired(ks, ls, left));
                assert(op == t->Node_0);
                assert forall|i: int| 0 <= i < ks.len() implies all_unknown(
                    s,
                    #[trigger] ks[i],
                ) && closed(ls[i]) by {
                    lemma_closed_operand(t, i);
                    assert forall|v: u32| #[trigger] ks[i].mentions(v) implies s.find(v) is None
                        && s.resolvable(v) by {
                        assert(pattern.mentions(v));
                    }
                }
                lemma_pattern_matches(s, temp, ks, ls, left, (fuel - 1) as nat, values);
                let parts = filled(pattern, values)->Node_1;
                if filled(pattern, values) == t {
                    assert forall|i: int| 0 <= i < ks.len() implies filled(
                        #[trigger] ks[i],
                        values,
                    ) == ls[i] by {
                        assert(parts[i] == ls[i]);
                    }
                }
                if same && agree(values, after) {
                    assert(parts =~= ls);
                }
            } else {
                assert(after == temp && !same);
                if filled(pattern, values) == t {
                    assert(filled(pattern, values)->Node_1.len() == ks.len());
                    assert(false);
                }
            }
        },
    }
}

proof fn lemma_pattern_matches(
    s: Subs<Op>,
    temp: Map<u64, Term<Op>>,
    ks: Seq<Term<Op>>,
    ls: Seq<Term<Op>>,
    left: bool,
    fuel: nat,
    values: spec_fn(u32) -> Term<Op>,
)
    requires
        ks.len() == ls.len(),
        forall|i: int| 0 <= i < ks.len() ==> all_unknown(s, #[trigger] ks[i]) && closed(ls[i]),
        closed_finds(temp),
        unify::matched_list::<(), Type>(s, (), temp, paired(ks, ls, left), fuel) is Some,
    ensures
        ({
            let (after, same) = unify::matched_list::<(), Type>(
                s,
                (),
                temp,
                paired(ks, ls, left),
                fuel,
            ).unwrap();
            &&& closed_finds(after)
            &&& agree(values, after) ==> agree(values, temp)
            &&& same && agree(values, after) ==> forall|i: int|
                0 <= i < ks.len() ==> filled(#[trigger] ks[i], values) == ls[i]
            &&& agree(values, temp) && (forall|i: int|
                0 <= i < ks.len() ==> filled(#[trigger] ks[i], values) == ls[i]) ==> same && agree(
                values,
                after,
            )
        }),
    decreases fuel, 1 + ks.len(),
{
    if ks.len() > 0 {
        let pairs = paired(ks, ls, left);
        lemma_pattern_match(s, temp, ks[0], ls[0], left, fuel, values);
        let next = compared(s, temp, ks[0], ls[0], left, fuel).unwrap().0;
        let ks1 = ks.drop_first();
        let ls1 = ls.drop_first();
        assert(pairs.drop_first() =~= paired(ks1, ls1, left));
        assert forall|i: int| 0 <= i < ks1.len() implies all_unknown(s, #[trigger] ks1[i]) && closed(
            ls1[i],
        ) by {
            assert(all_unknown(s, ks[i + 1]) && closed(ls[i + 1]));
        }
        lemma_pattern_matches(s, next, ks1, ls1, left, fuel, values);
        let (after, same) = unify::matched_list::<(), Type>(s, (), temp, pairs, fuel).unwrap();
        if same && agree(values, after) {
            assert forall|i: int| 0 <= i < ks.len() implies filled(#[trigger] ks[i], values)
                == ls[i] by {
                if i > 0 {
                    assert(filled(ks1[i - 1], values) == ls1[i - 1]);
                }
            }
        }
        if agree(values, temp) && (forall|i: int|
            0 <= i < ks.len() ==> filled(#[trigger] ks[i], values) == ls[i]) {
            assert forall|i: int| 0 <= i < ks1.len() implies filled(#[trigger] ks1[i], values)
                == ls1[i] by {
                assert(filled(ks[i + 1], values) == ls[i + 1]);
            }
        }
    }
}

/// A type of unknown variables is equivalent to a type without variables if and only if that is
/// what it becomes for some choice of types in the places of its variables, the same type wherever
/// the same variable stands.
pub proof fn law_equivalence_is_matching(s: Subs<Op>, pattern: Term<Op>, t: Term<Op>)
    requires
        all_unknown(s, pattern),
        closed(t),
    ensures
        unify::match_ends::<(), Type>(s, (), pattern, t) ==> (unify::matches_term::<(), Type>(
            s,
            (),
            pattern,
            t,
        ) <==> exists|values: spec_fn(u32) -> Term<Op>| #[trigger] filled(pattern, values) == t),
        unify::match_ends::<(), Type>(s, (), t, pattern) ==> (unify::matches_term::<(), Type>(
            s,
            (),
            t,
            pattern,
        ) <==> exists|values: spec_fn(u32) -> Term<Op>| #[trigger] filled(pattern, values) == t),
{
    if unify::match_ends::<(), Type>(s, (), pattern, t) {
        let none = Map::<u64, Term<Op>>::empty();
        let fuel = choose|fuel: nat|
            (#[trigger] unify::matched::<(), Type>(s, (), none, pattern, t, fuel)) is Some;
        lemma_matching(s, pattern, t, true, fuel);
    }
    if unify::match_ends::<(), Type>(s, (), t, pattern) {
        let none = Map::<u64, Term<Op>>::empty();
        let fuel = choose|fuel: nat|
            (#[trigger] unify::matched::<(), Type>(s, (), none, t, pattern, fuel)) is Some;
        lemma_matching(s, pattern, t, false, fuel);
    }
}

proof fn lemma_matching(s: Subs<Op>, pattern: Term<Op>, t: Term<Op>, left: bool, fuel: nat)
    requires
        all_unknown(s, pattern),
        closed(t),
        compared(s, Map::empty(), pattern, t, left, fuel) is Some,
    ensures
        compared(s, Map::empty(), pattern, t, left, fuel).unwrap().1 <==> exists|
            values: spec_fn(u32) -> Term<Op>,
        | #[trigger] filled(pattern, values) == t,
{
    let none = Map::<u64, Term<Op>>::empty();
    let (after, same) = compared(s, none, pattern, t, left, fuel).unwrap();
    if same {
        let values = |v: u32| after[v as u64];
        assert(agree(values, after));
        lemma_pattern_match(s, none, pattern, t, left, fuel, values);
        assert(filled(pattern, values) == t);
    }
    if exists|values: spec_fn(u32) -> Term<Op>| #[trigger] filled(pattern, values) == t {
        let values = choose|values: spec_fn(u32) -> Term<Op>| #[trigger]
            filled(pattern, values) == t;
        assert(agree(values, none));
        lemma_pattern_match(s, none, pattern, t, left, fuel, values);
    }
}

/// Two unknown variables that are compared stand for each other from there on: what the one is
/// compared with holds for the other.
pub proof fn law_compared_variables_are_one(
    s: Subs<Op>,
    op: Op,
    a: u32,
    b: u32,
    x: Term<Op>,
    y: Term<Op>,
)
    requires
        a != b,
        s.find(a) is None,
        s.find(b) is None,
        s.resolvable(a),
        s.resolvable(b),
        closed(x),
        closed(y),
        unify::match_ends::<(), Type>(
            s,
            (),
            Term::Node(op, seq![Term::Var(a), x, Term::Var(a)]),
            Term::Node(op, seq![Term::Var(b), Term::Var(b), y]),
        ),
    ensures
        unify::matches_term::<(), Type>(
            s,
            (),
            Term::Node(op, seq![Term::Var(a), x, Term::Var(a)]),
            Term::Node(op, seq![Term::Var(b), Term::Var(b), y]),
        ) <==> x == y,
{
    let ks = seq![Term::<Op>::Var(a), x, Term::<Op>::Var(a)];
    let ls = seq![Term::<Op>::Var(b), Term::<Op>::Var(b), y];
    let l = Term::Node(op, ks);
    let r = Term::Node(op, ls);
    let none = Map::<u64, Term<Op>>::empty();
    let fuel = choose|fuel: nat|
        (#[trigger] unify::matched::<(), Type>(s, (), none, l, r, fuel)) is Some;
    let depth = (fuel - 1) as nat;
    lemma_closed_is_node(x);
    lemma_closed_is_node(y);
    let pairs = <Type as unify::Unifiable<()>>::zipped((), l, r).unwrap();
    assert(pairs =~= seq![(ks[0], ls[0]), (ks[1], ls[1]), (ks[2], ls[2])]);
    let second = pairs.drop_first();
    let third = second.drop_first();
    assert(third.drop_first() =~= Seq::empty());
    let joined = none.insert(b as u64, Term::<Op>::Var(a));
    assert(unify::matched_list::<(), Type>(s, (), none, pairs, depth) is Some);
    assert(unify::matched::<(), Type>(s, (), none, ks[0], ls[0], depth) == Some((joined, true)));
    assert(unify::matched_list::<(), Type>(s, (), joined, second, depth) is Some);
    let known = joined.insert(a as u64, x);
    assert(second[0] == (ks[1], ls[1]));
    assert(unify::matched::<(), Type>(s, (), joined, ks[1], ls[1], depth) == Some((known, true)));
    assert(unify::matched_list::<(), Type>(s, (), known, third, depth) is Some);
    assert(third[0] == (ks[2], ls[2]));
    assert(unify::matched::<(), Type>(s, (), known, ks[2], ls[2], depth) == unify::matched::<
        (),
        Type,
    >(s, (), known, x, y, depth));
    lemma_closed_match(s, known, x, y, depth);
    assert(unify::matched_list::<(), Type>(s, (), known, third.drop_first(), depth) == Some(
        (known, true),
    ));
    assert(unify::matched_list::<(), Type>(s, (), known, third, depth) == Some((known, x == y)));
    assert(unify::matched_list::<(), Type>(s, (), joined, second, depth) == Some(
        (known, x == y),
    ));
    assert(unify::matched_list::<(), Type>(s, (), none, pairs, depth) == Some((known, x == y)));
    unify::lemma_matches_fuel::<(), Type>(s, (), l, r, fuel);
}

/// Of candidates without variables, generics and quantifiers, one is chosen for a type without
/// variables if and only if the type is among them, and the chosen one is the type itself.
pub proof fn law_the_candidate_is_the_type(
    s: Subs<Op>,
    candidates: Seq<Term<Op>>,
    t: Term<Op>,
)
    requires
        crate::acyclic::acyclic(s),
        s.size() <= crate::union_table::max_keys(),
        forall|j: int|
            0 <= j < candidates.len() ==> inference_laws::ground(#[trigger] candidates[j]),
        closed(t),
    ensures
        constraints::first_match::<(), Type>(s, (), candidates, t) == Some(
            (
                s,
                if candidates.contains(t) {
                    Some(t)
                } else {
                    None
                },
            ),
        ),
{
    assert(crate::acyclic::in_range(s, t));
    inference_laws::law_first_fitting_candidate_is_taken(s, candidates, t);
    assert forall|j: int| 0 <= j < candidates.len() implies (unify::matches_term::<(), Type>(
        s,
        (),
        #[trigger] candidates[j],
        t,
    ) <==> candidates[j] == t) by {
        assert(inference_laws::ground(candidates[j]));
        inference_laws::law_equivalence_with_ground_types_ends(s, candidates[j], t);
        law_equivalence_is_equality(s, candidates[j], t);
    }
    let found = constraints::first_match::<(), Type>(s, (), candidates, t).unwrap().1;
    match found {
        Some(candidate) => {
            let i = choose|i: int| #[trigger]
                inference_laws::fits_first(s, candidates, t, i) && candidates[i] == candidate;
            assert(candidates.contains(t));
        },
        None => {
            if candidates.contains(t) {
                let j = candidates.index_of(t);
                assert(candidates[j] == t);
            }
        },
    }
}

} // verus!
