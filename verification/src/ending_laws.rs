//! That making types the same comes to an end and leaves no cycle behind.
use vstd::prelude::*;
use crate::acyclic;
use crate::alias;
use crate::constraint_laws;
use crate::constraints;
use crate::constraints::{Instantiate, Outcome};
use crate::fnv_map;
use crate::inference;
use crate::inference_laws;
use crate::rewrite;
use crate::rewrite::Leaf;
use crate::subs;
use crate::subs::Subs;
use crate::substitution_laws;
use crate::symbol::SymbolModel;
use crate::term::Term;
use crate::types::{Op, Type};
use crate::unify;
use crate::union_table;

verus! {

/// No variable stands in the term twice.
pub open spec fn linear(t: Term<Op>) -> bool
    decreases t,
{
    match t {
        Term::Var(_) => true,
        Term::Node(_, kids) => {
            &&& forall|i: int| 0 <= i < kids.len() ==> linear(#[trigger] kids[i])
            &&& forall|i: int, j: int, v: u32|
                0 <= i < j < kids.len() && #[trigger] kids[i].mentions(v)
                    ==> !#[trigger] kids[j].mentions(v)
        },
    }
}

/// None of the variables stands in the term.
pub open spec fn avoids(t: Term<Op>, fresh: Set<u32>) -> bool {
    forall|v: u32| #[trigger] t.mentions(v) ==> !fresh.contains(v)
}

/// Nothing is known of the variables: each is the only one of its class, none has a type or stands
/// in one, and none was met in the comparison.
pub open spec fn untouched(s: Subs<Op>, temp: Map<u64, Term<Op>>, fresh: Set<u32>) -> bool {
    &&& forall|u: u32| #[trigger]
        fresh.contains(u) ==> u < s.size() && s.root(u) == u && !s.types.contains_key(u)
            && !temp.contains_key(u as u64)
    &&& forall|v: u32| v < s.size() && #[trigger] fresh.contains(s.root(v)) ==> s.root(v) == v
    &&& forall|r: u32| #[trigger] s.types.contains_key(r) ==> avoids(s.types[r], fresh)
    &&& forall|key: u64| #[trigger] temp.contains_key(key) ==> avoids(temp[key], fresh)
}

/// The variables that do not stand in the term.
pub open spec fn others(fresh: Set<u32>, t: Term<Op>) -> Set<u32> {
    Set::new(|v: u32| fresh.contains(v) && !t.mentions(v))
}

/// The variables that stand in none of the terms.
pub open spec fn others_list(fresh: Set<u32>, kids: Seq<Term<Op>>) -> Set<u32> {
    Set::new(
        |v: u32|
            fresh.contains(v) && forall|i: int|
                0 <= i < kids.len() ==> !(#[trigger] kids[i]).mentions(v),
    )
}

/// What a term stands for in a comparison avoids what the term avoids, and its variables exist.
proof fn lemma_looked_up(s: Subs<Op>, temp: Map<u64, Term<Op>>, r: Term<Op>, fresh: Set<u32>)
    requires
        acyclic::acyclic(s),
        inference_laws::temp_in_range(s, temp),
        untouched(s, temp, fresh),
        acyclic::in_range(s, r),
        avoids(r, fresh),
    ensures
        s.askable(r),
        acyclic::in_range(s, unify::looked_up(s, temp, r)),
        avoids(unify::looked_up(s, temp, r), fresh),
{
    if let Term::Var(v) = r {
        assert(r.mentions(v));
        assert(s.table.roots[v as int] < s.size());
        let root = s.root(v);
        assert(s.table.roots[root as int] == root);
        assert(s.vars[root as int] == Term::<Op>::Var(root));
        assert(!fresh.contains(root));
        let found = unify::looked_up(s, temp, r);
        if s.types.contains_key(root) {
            assert(found == s.types[root]);
        } else {
            assert(s.actual(r) == Term::<Op>::Var(root));
            if temp.contains_key(root as u64) {
                assert(acyclic::in_range(s, temp[root as u64]));
            } else {
                assert forall|x: u32| #[trigger] found.mentions(x) implies x == root by {}
            }
        }
    }
}

/// Comparing a term in which no variable stands twice, and whose variables are all new, with any
/// other comes to an end, and leaves the other new variables untouched.
proof fn lemma_match_ends(
    s: Subs<Op>,
    temp: Map<u64, Term<Op>>,
    l: Term<Op>,
    r: Term<Op>,
    fresh: Set<u32>,
) -> (fuel: nat)
    requires
        acyclic::acyclic(s),
        inference_laws::temp_in_range(s, temp),
        untouched(s, temp, fresh),
        linear(l),
        forall|v: u32| #[trigger] l.mentions(v) ==> fresh.contains(v),
        acyclic::in_range(s, r),
        avoids(r, fresh),
    ensures
        unify::matched::<(), Type>(s, (), temp, l, r, fuel) is Some,
        inference_laws::temp_in_range(
            s,
            unify::matched::<(), Type>(s, (), temp, l, r, fuel).unwrap().0,
        ),
        untouched(
            s,
            unify::matched::<(), Type>(s, (), temp, l, r, fuel).unwrap().0,
            others(fresh, l),
        ),
    decreases l,
{
    lemma_looked_up(s, temp, r, fresh);
    let r1 = unify::looked_up(s, temp, r);
    if let Term::Var(a) = l {
        assert(l.mentions(a));
        assert(fresh.contains(a));
        assert(s.find(a) is None);
    }
    assert(s.askable(l));
    let l1 = unify::looked_up(s, temp, l);
    assert(l1 == l);
    assert(acyclic::in_range(s, l)) by {
        assert forall|v: u32| #[trigger] l.mentions(v) implies v < s.size() by {
            assert(fresh.contains(v));
        }
    }
    if let Term::Var(b) = r1 {
        assert(r1.mentions(b));
    }
    match (l, r1) {
        (Term::Node(op, ks), Term::Node(_, ls)) => {
            let zipped = <Type as unify::Unifiable<()>>::zipped((), l, r1);
            if let Some(pairs) = zipped {
                assert(pairs =~= Seq::new(ks.len(), |i: int| (ks[i], ls[i])));
                assert forall|i: int, v: u32|
                    0 <= i < ks.len() && #[trigger] ks[i].mentions(v) implies fresh.contains(v) by {
                    assert(l.mentions(v));
                }
                assert forall|i: int, v: u32|
                    0 <= i < ls.len() && #[trigger] ls[i].mentions(v) implies v < s.size()
                    && !fresh.contains(v) by {
                    assert(r1.mentions(v));
                }
                let depth = lemma_matches_end(s, temp, ks, ls, fresh);
                let after = unify::matched_list::<(), Type>(s, (), temp, pairs, depth).unwrap().0;
                assert(others_list(fresh, ks) =~= others(fresh, l)) by {
                    assert forall|v: u32| others_list(fresh, ks).contains(v) implies others(
                        fresh,
                        l,
                    ).contains(v) by {}
                    assert forall|v: u32| others(fresh, l).contains(v) implies others_list(
                        fresh,
                        ks,
                    ).contains(v) by {
                        assert forall|i: int| 0 <= i < ks.len() implies !(#[trigger] ks[i]).mentions(
                            v,
                        ) by {}
                    }
                }
                depth + 1
            } else {
                1
            }
        },
        _ => {
            let after = unify::matched::<(), Type>(s, (), temp, l, r, 1).unwrap().0;
            let rest = others(fresh, l);
            assert(untouched(s, after, rest));
            1
        },
    }
}

proof fn lemma_matches_end(
    s: Subs<Op>,
    temp: Map<u64, Term<Op>>,
    ks: Seq<Term<Op>>,
    ls: Seq<Term<Op>>,
    fresh: Set<u32>,
) -> (fuel: nat)
    requires
        acyclic::acyclic(s),
        inference_laws::temp_in_range(s, temp),
        untouched(s, temp, fresh),
        ks.len() == ls.len(),
        forall|i: int| 0 <= i < ks.len() ==> linear(#[trigger] ks[i]),
        forall|i: int, j: int, v: u32|
            0 <= i < j < ks.len() && #[trigger] ks[i].mentions(v) ==> !#[trigger] ks[j].mentions(v),
        forall|i: int, v: u32|
            0 <= i < ks.len() && #[trigger] ks[i].mentions(v) ==> fresh.contains(v),
        forall|i: int, v: u32|
            0 <= i < ls.len() && #[trigger] ls[i].mentions(v) ==> v < s.size() && !fresh.contains(v),
    ensures
        ({
            let pairs = Seq::new(ks.len(), |i: int| (ks[i], ls[i]));
            let outcome = unify::matched_list::<(), Type>(s, (), temp, pairs, fuel);
            &&& outcome is Some
            &&& inference_laws::temp_in_range(s, outcome.unwrap().0)
            &&& untouched(s, outcome.unwrap().0, others_list(fresh, ks))
        }),
    decreases ks,
{
    let pairs = Seq::new(ks.len(), |i: int| (ks[i], ls[i]));
    if ks.len() == 0 {
        assert(others_list(fresh, ks) =~= fresh);
        0
    } else {
        assert forall|v: u32| #[trigger] ks[0].mentions(v) implies fresh.contains(v) by {}
        assert forall|v: u32| #[trigger] ls[0].mentions(v) implies v < s.size()
            && !fresh.contains(v) by {}
        let first = lemma_match_ends(s, temp, ks[0], ls[0], fresh);
        let after = unify::matched::<(), Type>(s, (), temp, ks[0], ls[0], first).unwrap().0;
        let ks1 = ks.drop_first();
        let ls1 = ls.drop_first();
        let left = others(fresh, ks[0]);
        assert forall|i: int| 0 <= i < ks1.len() implies linear(#[trigger] ks1[i]) by {
            assert(linear(ks[i + 1]));
        }
        assert forall|i: int, j: int, v: u32|
            0 <= i < j < ks1.len() && #[trigger] ks1[i].mentions(v) implies !#[trigger] ks1[j].mentions(
            v,
        ) by {
            assert(ks[i + 1].mentions(v));
            assert(ks1[j] == ks[j + 1]);
        }
        assert forall|i: int, v: u32|
            0 <= i < ks1.len() && #[trigger] ks1[i].mentions(v) implies left.contains(v) by {
            assert(ks[i + 1].mentions(v));
            assert(!ks[0].mentions(v)) by {
                if ks[0].mentions(v) {
                    assert(!ks[i + 1].mentions(v));
                }
            }
        }
        assert forall|i: int, v: u32|
            0 <= i < ls1.len() && #[trigger] ls1[i].mentions(v) implies v < s.size()
            && !left.contains(v) by {
            assert(ls[i + 1].mentions(v));
        }
        let rest = lemma_matches_end(s, after, ks1, ls1, left);
        let fuel = if first < rest {
            rest
        } else {
            first
        };
        let pairs1 = Seq::new(ks1.len(), |i: int| (ks1[i], ls1[i]));
        assert(pairs.drop_first() =~= pairs1);
        unify::lemma_matched_fuel::<(), Type>(s, (), temp, ks[0], ls[0], first, fuel);
        unify::lemma_matched_list_fuel::<(), Type>(s, (), after, pairs1, rest, fuel);
        assert(others_list(left, ks1) =~= others_list(fresh, ks)) by {
            assert forall|v: u32| others_list(left, ks1).contains(v) implies others_list(
                fresh,
                ks,
            ).contains(v) by {
                assert forall|i: int| 0 <= i < ks.len() implies !(#[trigger] ks[i]).mentions(v) by {
                    if i > 0 {
                        assert(ks1[i - 1] == ks[i]);
                    }
                }
            }
            assert forall|v: u32| others_list(fresh, ks).contains(v) implies others_list(
                left,
                ks1,
            ).contains(v) by {
                assert(!ks[0].mentions(v));
                assert forall|i: int| 0 <= i < ks1.len() implies !(#[trigger] ks1[i]).mentions(v) by {
                    assert(ks1[i] == ks[i + 1]);
                }
            }
        }
        fuel
    }
}

/// In an acyclic substitution, comparing a type in which no variable stands twice and whose
/// variables are new with any other comes to an end.
pub proof fn law_equivalence_with_new_variables_ends(
    s: Subs<Op>,
    l: Term<Op>,
    r: Term<Op>,
    fresh: Set<u32>,
)
    requires
        acyclic::acyclic(s),
        untouched(s, Map::empty(), fresh),
        linear(l),
        forall|v: u32| #[trigger] l.mentions(v) ==> fresh.contains(v),
        acyclic::in_range(s, r),
        avoids(r, fresh),
    ensures
        unify::match_ends::<(), Type>(s, (), l, r),
{
    let none = Map::<u64, Term<Op>>::empty();
    let fuel = lemma_match_ends(s, none, l, r, fresh);
    assert(unify::matched::<(), Type>(s, (), none, l, r, fuel) is Some);
}

/// The generic with this id stands somewhere in the term.
pub open spec fn holds_generic(t: Term<Op>, id: u64) -> bool
    decreases t,
{
    match t {
        Term::Var(_) => false,
        Term::Node(op, kids) => {
            ||| op matches Op::Generic(name) && name.id == id
            ||| exists|i: int| 0 <= i < kids.len() && holds_generic(#[trigger] kids[i], id)
        },
    }
}

/// None of the generics stands in the term twice.
pub open spec fn generics_stand_once(t: Term<Op>, generics: Seq<SymbolModel>) -> bool
    decreases t,
{
    match t {
        Term::Var(_) => true,
        Term::Node(_, kids) => {
            &&& forall|i: int|
                0 <= i < kids.len() ==> generics_stand_once(#[trigger] kids[i], generics)
            &&& forall|i: int, j: int, k: int|
                #![trigger kids[i], kids[j], generics[k]]
                0 <= i < j < kids.len() && 0 <= k < generics.len() && holds_generic(
                    kids[i],
                    generics[k].id,
                ) ==> !holds_generic(kids[j], generics[k].id)
        },
    }
}

/// The generics that become variables when the type is instantiated.
pub open spec fn generics_of(t: Term<Op>) -> Seq<SymbolModel> {
    rewrite::gathered(Seq::empty(), alias::remove_forall(t))
}

/// There are no variables in the candidate, and none of its generics stands in it twice.
pub open spec fn simple(t: Term<Op>) -> bool {
    &&& forall|v: u32| !#[trigger] t.mentions(v)
    &&& generics_stand_once(alias::remove_forall(t), generics_of(t))
}

/// Without quantifiers around it a term mentions nothing else.
proof fn lemma_remove_forall_mentions(t: Term<Op>, v: u32)
    requires
        alias::remove_forall(t).mentions(v),
    ensures
        t.mentions(v),
    decreases t,
{
    if let Term::Node(Op::Forall(_), kids) = t {
        if kids.len() > 0 {
            lemma_remove_forall_mentions(kids[0], v);
        }
    }
}

/// The variable that takes the place of a generic is that of the first of its id.
proof fn lemma_variable_rule(generics: Seq<SymbolModel>, first: nat, skip: nat, id: u64)
    requires
        skip <= generics.len(),
        first + generics.len() <= union_table::max_keys(),
    ensures
        rewrite::rule_for(
            inference::variable_rules(generics, first).skip(skip as int),
            Leaf::Generic(id),
        ) matches Some(t) ==> exists|k: int|
            skip <= k < generics.len() && (#[trigger] generics[k]).id == id && t == Term::<Op>::Var(
                (first + k) as u32,
            ),
        rewrite::rule_for(
            inference::variable_rules(generics, first).skip(skip as int),
            Leaf::Ident(id),
        ) is None,
    decreases generics.len() - skip,
{
    let rules = inference::variable_rules(generics, first).skip(skip as int);
    if skip < generics.len() {
        assert(rules[0] == (
            Leaf::Generic(generics[skip as int].id),
            Term::<Op>::Var((first + skip) as u32),
        ));
        assert(rules.drop_first() =~= inference::variable_rules(generics, first).skip(skip as int + 1));
        lemma_variable_rule(generics, first, skip + 1, id);
        if generics[skip as int].id == id {
            assert(rewrite::rule_for(rules, Leaf::Generic(id)) == Some(
                Term::<Op>::Var((first + skip) as u32),
            ));
        }
    }
}

/// The variables of an instance are the new ones, each in the place of a generic.
proof fn lemma_instance_mentions(
    t: Term<Op>,
    generics: Seq<SymbolModel>,
    first: nat,
    v: u32,
)
    requires
        forall|w: u32| !#[trigger] t.mentions(w),
        first + generics.len() <= union_table::max_keys(),
        rewrite::rewritten(t, inference::variable_rules(generics, first)).mentions(v),
    ensures
        first <= v < first + generics.len(),
        holds_generic(t, generics[v - first].id),
    decreases t,
{
    let rules = inference::variable_rules(generics, first);
    assert(rules.skip(0) =~= rules);
    match t {
        Term::Var(w) => {
            assert(t.mentions(w));
        },
        Term::Node(op, kids) => {
            let replacement = match rewrite::leaf_of(op) {
                Some(leaf) => rewrite::rule_for(rules, leaf),
                None => None,
            };
            match replacement {
                Some(r) => {
                    match rewrite::leaf_of(op).unwrap() {
                        Leaf::Generic(id) => {
                            lemma_variable_rule(generics, first, 0, id);
                            let k = choose|k: int|
                                0 <= k < generics.len() && (#[trigger] generics[k]).id == id && r
                                    == Term::<Op>::Var((first + k) as u32);
                            assert(v == first + k);
                        },
                        Leaf::Ident(id) => {
                            lemma_variable_rule(generics, first, 0, id);
                            assert(false);
                        },
                    }
                },
                None => {
                    let parts = rewrite::rewritten(t, rules)->Node_1;
                    let i = choose|i: int|
                        0 <= i < parts.len() && (#[trigger] parts[i]).mentions(v);
                    assert(parts[i] == rewrite::rewritten(kids[i], rules));
                    assert forall|w: u32| !#[trigger] kids[i].mentions(w) by {
                        assert(!t.mentions(w));
                    }
                    lemma_instance_mentions(kids[i], generics, first, v);
                    assert(holds_generic(kids[i], generics[v - first].id));
                },
            }
        },
    }
}

/// No variable stands twice in the instance of a term in which no generic does.
proof fn lemma_instance_linear(t: Term<Op>, generics: Seq<SymbolModel>, first: nat)
    requires
        forall|w: u32| !#[trigger] t.mentions(w),
        first + generics.len() <= union_table::max_keys(),
        generics_stand_once(t, generics),
    ensures
        linear(rewrite::rewritten(t, inference::variable_rules(generics, first))),
    decreases t,
{
    let rules = inference::variable_rules(generics, first);
    assert(rules.skip(0) =~= rules);
    match t {
        Term::Var(w) => {},
        Term::Node(op, kids) => {
            let replacement = match rewrite::leaf_of(op) {
                Some(leaf) => rewrite::rule_for(rules, leaf),
                None => None,
            };
            match replacement {
                Some(r) => {
                    match rewrite::leaf_of(op).unwrap() {
                        Leaf::Generic(id) => {
                            lemma_variable_rule(generics, first, 0, id);
                            assert(r is Var);
                        },
                        Leaf::Ident(id) => {
                            lemma_variable_rule(generics, first, 0, id);
                            assert(false);
                        },
                    }
                },
                None => {
                    let parts = rewrite::rewritten(t, rules)->Node_1;
                    assert forall|i: int| 0 <= i < kids.len() implies forall|w: u32|
                        !(#[trigger] kids[i]).mentions(w) by {
                        assert forall|w: u32| !kids[i].mentions(w) by {
                            assert(!t.mentions(w));
                        }
                    }
                    assert forall|i: int| 0 <= i < parts.len() implies linear(
                        #[trigger] parts[i],
                    ) by {
                        assert(generics_stand_once(kids[i], generics));
                        lemma_instance_linear(kids[i], generics, first);
                    }
                    assert forall|i: int, j: int, v: u32|
                        0 <= i < j < parts.len() && #[trigger] parts[i].mentions(v) implies
                        !#[trigger] parts[j].mentions(v) by {
                        lemma_instance_mentions(kids[i], generics, first, v);
                        if parts[j].mentions(v) {
                            lemma_instance_mentions(kids[j], generics, first, v);
                            assert(generics[v - first] == generics[v - first]);
                        }
                    }
                },
            }
        },
    }
}

/// How many variables the candidates need.
pub open spec fn needed(candidates: Seq<Term<Op>>) -> nat
    decreases candidates.len(),
{
    if candidates.len() == 0 {
        0
    } else {
        generics_of(candidates[0]).len() + needed(candidates.drop_first())
    }
}

/// How many variables the candidates of the constraints need.
pub open spec fn needed_by(lists: Seq<Seq<Term<Op>>>, entries: Seq<(u64, usize)>) -> nat
    decreases entries.len(),
{
    if entries.len() == 0 {
        0
    } else {
        needed(lists[entries[0].1 as int]) + needed_by(lists, entries.drop_first())
    }
}

/// The instance of a simple candidate: it is there, its variables are new, and none stands in it
/// twice.
proof fn lemma_simple_instance(s: Subs<Op>, t: Term<Op>)
    requires
        acyclic::acyclic(s),
        simple(t),
        s.size() + generics_of(t).len() <= union_table::max_keys(),
    ensures
        ({
            let made = <Type as Instantiate>::instantiated(t, s, Map::empty());
            let fresh = Set::new(|v: u32| s.size() <= v < s.size() + generics_of(t).len());
            &&& made is Some
            &&& made.unwrap().1.extends(s)
            &&& made.unwrap().1.size() == s.size() + generics_of(t).len()
            &&& linear(made.unwrap().0)
            &&& forall|v: u32| #[trigger] made.unwrap().0.mentions(v) ==> fresh.contains(v)
            &&& untouched(made.unwrap().1, Map::empty(), fresh)
        }),
{
    let body = alias::remove_forall(t);
    let generics = generics_of(t);
    let (c, after) = <Type as Instantiate>::instantiated(t, s, Map::empty()).unwrap();
    <Type as Instantiate>::instantiated_extends(t, s, Map::empty());
    assert forall|w: u32| !#[trigger] body.mentions(w) by {
        if body.mentions(w) {
            lemma_remove_forall_mentions(t, w);
        }
    }
    lemma_instance_linear(body, generics, s.vars.len());
    let fresh = Set::new(|v: u32| s.size() <= v < s.size() + generics.len());
    assert forall|v: u32| #[trigger] c.mentions(v) implies fresh.contains(v) by {
        lemma_instance_mentions(body, generics, s.vars.len(), v);
    }
    inference::lemma_with_generics_extends(s, generics, Map::empty());
    assert forall|v: u32| v < after.size() && #[trigger] fresh.contains(after.root(v)) implies after.root(
        v,
    ) == v by {
        if v < s.size() {
            assert(after.table.roots[v as int] == s.table.roots[v as int]);
            assert(s.table.roots[v as int] < s.size());
        } else {
            assert(after.table.roots[v as int] == v as usize);
        }
    }
    assert forall|u: u32| #[trigger] fresh.contains(u) implies u < after.size() && after.root(u) == u
        && !after.types.contains_key(u) by {
        assert(after.table.roots[u as int] == u as usize);
    }
    assert forall|r: u32| #[trigger] after.types.contains_key(r) implies avoids(
        after.types[r],
        fresh,
    ) by {
        assert(s.types.contains_key(r));
        assert(acyclic::in_range(s, s.types[r]));
    }
}

/// Every variable in the term was created between the two.
pub open spec fn is_new(before: Subs<Op>, after: Subs<Op>, t: Term<Op>) -> bool {
    forall|v: u32| #[trigger] t.mentions(v) ==> before.size() <= v < after.size()
}

proof fn lemma_first_match_ends(s: Subs<Op>, candidates: Seq<Term<Op>>, t: Term<Op>)
    requires
        acyclic::acyclic(s),
        s.size() + needed(candidates) <= union_table::max_keys(),
        forall|j: int| 0 <= j < candidates.len() ==> simple(#[trigger] candidates[j]),
        acyclic::in_range(s, t),
    ensures
        constraints::first_match::<(), Type>(s, (), candidates, t) matches Some((after, found)) && {
            &&& after.extends(s)
            &&& after.size() <= s.size() + needed(candidates)
            &&& found matches Some(candidate) ==> is_new(s, after, candidate)
        },
    decreases candidates.len(),
{
    if candidates.len() > 0 {
        let candidate = candidates[0];
        lemma_simple_instance(s, candidate);
        let (c, s1) = <Type as Instantiate>::instantiated(candidate, s, Map::empty()).unwrap();
        let fresh = Set::new(|v: u32| s.size() <= v < s.size() + generics_of(candidate).len());
        acyclic::law_new_variables_keep_acyclic(s, s1);
        assert(avoids(t, fresh));
        assert(acyclic::in_range(s1, t));
        law_equivalence_with_new_variables_ends(s1, c, t, fresh);
        assert(is_new(s, s1, c)) by {
            assert forall|v: u32| #[trigger] c.mentions(v) implies s.size() <= v < s1.size() by {
                assert(fresh.contains(v));
            }
        }
        if !unify::matches_term::<(), Type>(s1, (), c, t) {
            let rest = candidates.drop_first();
            assert forall|j: int| 0 <= j < rest.len() implies simple(#[trigger] rest[j]) by {
                assert(simple(candidates[j + 1]));
            }
            lemma_first_match_ends(s1, rest, t);
            let (after, found) = constraints::first_match::<(), Type>(s1, (), rest, t).unwrap();
            subs::lemma_extends_trans(s, s1, after);
        }
    }
}

/// All the candidates of all the constraints are simple.
pub open spec fn simple_candidates(s: Subs<Op>) -> bool {
    forall|i: int, j: int|
        #![trigger s.lists[i][j]]
        0 <= i < s.lists.len() && 0 <= j < s.lists[i].len() ==> simple(s.lists[i][j])
}

/// Instantiating without demands makes no lists of candidates.
proof fn lemma_no_new_lists(s: Subs<Op>, generics: Seq<SymbolModel>)
    ensures
        inference::with_generics(s, generics, Map::empty()).lists == s.lists,
    decreases generics.len(),
{
    if generics.len() > 0 {
        lemma_no_new_lists(s.with_var(None), generics.drop_first());
    }
}

proof fn lemma_first_match_makes_no_lists(s: Subs<Op>, candidates: Seq<Term<Op>>, t: Term<Op>)
    requires
        constraints::first_match::<(), Type>(s, (), candidates, t) is Some,
    ensures
        constraints::first_match::<(), Type>(s, (), candidates, t).unwrap().0.lists == s.lists,
    decreases candidates.len(),
{
    if candidates.len() > 0 {
        lemma_no_new_lists(s, generics_of(candidates[0]));
        let (c, s1) = <Type as Instantiate>::instantiated(candidates[0], s, Map::empty()).unwrap();
        if !unify::matches_term::<(), Type>(s1, (), c, t) {
            lemma_first_match_makes_no_lists(s1, candidates.drop_first(), t);
        }
    }
}

proof fn lemma_resolved_ends(
    s: Subs<Op>,
    entries: Seq<(u64, usize)>,
    t: Term<Op>,
    replaced: bool,
)
    requires
        acyclic::acyclic(s),
        s.size() + needed_by(s.lists, entries) <= union_table::max_keys(),
        simple_candidates(s),
        forall|i: int| 0 <= i < entries.len() ==> (#[trigger] entries[i]).1 < s.lists.len(),
        acyclic::in_range(s, t),
    ensures
        constraints::resolved_in::<(), Type>(s, (), entries, t, replaced) matches Some(
            (after, outcome),
        ) && (outcome matches Outcome::Same(Some(c)) ==> replaced && c == t || is_new(s, after, c)),
    decreases entries.len(),
{
    if entries.len() > 0 {
        let candidates = s.lists[entries[0].1 as int];
        assert forall|j: int| 0 <= j < candidates.len() implies simple(#[trigger] candidates[j]) by {
            assert(simple(s.lists[entries[0].1 as int][j]));
        }
        lemma_first_match_ends(s, candidates, t);
        lemma_first_match_makes_no_lists(s, candidates, t);
        let rest = entries.drop_first();
        assert forall|i: int| 0 <= i < rest.len() implies (#[trigger] rest[i]).1
            < s.lists.len() by {
            assert(entries[i + 1].1 < s.lists.len());
        }
        let (s1, found) = constraints::first_match::<(), Type>(s, (), candidates, t).unwrap();
        acyclic::law_new_variables_keep_acyclic(s, s1);
        if let Some(candidate) = found {
            let (next, taken) = if constraints::replaces(candidate, t) {
                (candidate, true)
            } else {
                (t, replaced)
            };
            lemma_resolved_ends(s1, rest, next, taken);
            constraints::lemma_resolved_extends::<(), Type>(s1, (), rest, next, taken);
        }
    }
}

/// Where the candidates can be gone through in every order of the constraints, the whole attempt to
/// make a variable and a type the same comes to an end.
proof fn lemma_union_ends(s: Subs<Op>, id: u32, t: Term<Op>)
    requires
        acyclic::acyclic(s),
        id < s.size(),
        s.root(id) == id,
        !s.types.contains_key(id),
        acyclic::in_range(s, t),
        forall|entries: Seq<(u64, usize)>|
            t is Node && #[trigger] fnv_map::enumerates(
                entries,
                s.table.class(id as usize).constraints,
            ) && !s.occurs(id, t).1 ==> constraints::resolved_in::<(), Type>(
                s.occurs(id, t).0,
                (),
                entries,
                t,
                false,
            ) is Some,
    ensures
        constraints::union_ends::<(), Type>(s, (), id, t),
{
    acyclic::law_occurs_check_ends(s, id, t);
    let fuel = choose|fuel: nat| (#[trigger] s.occurs_walk(id, t, fuel)) is Some;
    subs::lemma_occurs_fuel(s, id, t, fuel);
    subs::lemma_walk_relevels(s, id, t, fuel);
    let (s1, found) = s.occurs(id, t);
    acyclic::law_levels_keep_acyclic(s, s1);
    assert forall|entries: Seq<(u64, usize)>|
        fnv_map::enumerates(
            entries,
            s.table.class(id as usize).constraints,
        ) implies (#[trigger] constraints::unioned_in::<(), Type>(
        s,
        (),
        entries,
        id,
        t,
    )) is Some by {
        if t != Term::<Op>::Var(id) && !found {
            if let Term::Var(other) = t {
                assert(t.mentions(other));
                subs::lemma_united_wf(s1, id, other);
                let s2 = s1.united(id, other);
                assert(s2.table.roots[id as int] < s2.size());
                assert(s2.table.roots[other as int] < s2.size());
            } else {
                constraints::lemma_resolved_extends::<(), Type>(s1, (), entries, t, false);
                constraints::lemma_candidate_is_no_variable::<(), Type>(s1, (), entries, t, false);
            }
        }
    }
}

/// In an acyclic substitution whose candidates are simple, a variable that stands for itself and a
/// type can be made the same: the attempt comes to an end, in whatever order the constraints come,
/// as long as there is room for the variables that the candidates need.
pub proof fn law_union_ends(s: Subs<Op>, id: u32, t: Term<Op>)
    requires
        acyclic::acyclic(s),
        simple_candidates(s),
        id < s.size(),
        s.root(id) == id,
        !s.types.contains_key(id),
        acyclic::in_range(s, t),
        forall|entries: Seq<(u64, usize)>|
            t is Node && #[trigger] fnv_map::enumerates(
                entries,
                s.table.class(id as usize).constraints,
            ) ==> s.size() + needed_by(s.lists, entries) <= union_table::max_keys(),
    ensures
        constraints::union_ends::<(), Type>(s, (), id, t),
{
    acyclic::law_occurs_check_ends(s, id, t);
    let fuel = choose|fuel: nat| (#[trigger] s.occurs_walk(id, t, fuel)) is Some;
    subs::lemma_occurs_fuel(s, id, t, fuel);
    subs::lemma_walk_relevels(s, id, t, fuel);
    let (s1, found) = s.occurs(id, t);
    acyclic::law_levels_keep_acyclic(s, s1);
    assert(s.table.classes.contains_key(s.table.roots[id as int]));
    assert forall|entries: Seq<(u64, usize)>|
        t is Node && #[trigger] fnv_map::enumerates(
            entries,
            s.table.class(id as usize).constraints,
        ) && !found implies constraints::resolved_in::<(), Type>(s1, (), entries, t, false) is Some by {
        assert forall|i: int| 0 <= i < entries.len() implies (#[trigger] entries[i]).1
            < s1.lists.len() by {
            assert(s.table.class(id as usize).constraints.contains_key(entries[i].0));
        }
        assert(acyclic::in_range(s1, t));
        assert(simple_candidates(s1));
        lemma_resolved_ends(s1, entries, t, false);
    }
    lemma_union_ends(s, id, t);
}

/// A variable that was there before does not occur in a term of variables that were created since.
proof fn lemma_not_in_new(before: Subs<Op>, after: Subs<Op>, t: Term<Op>, id: u32, n: nat)
    requires
        acyclic::acyclic(before),
        after.extends(before),
        is_new(before, after, t),
        id < before.size(),
    ensures
        !substitution_laws::reaches(after, t, id, n),
    decreases n,
{
    if substitution_laws::reaches(after, t, id, n) {
        match t {
            Term::Var(v) => {
                assert(t.mentions(v));
                assert(after.table.roots[v as int] == v as usize);
                assert(!before.types.contains_key(v));
                assert(after.actual(t) == t);
            },
            Term::Node(_, kids) => {
                let i = choose|i: int|
                    0 <= i < kids.len() && substitution_laws::reaches(
                        after,
                        #[trigger] kids[i],
                        id,
                        (n - 1) as nat,
                    );
                assert(is_new(before, after, kids[i])) by {
                    assert forall|v: u32| #[trigger] kids[i].mentions(v) implies before.size() <= v
                        < after.size() by {
                        assert(t.mentions(v));
                    }
                }
                lemma_not_in_new(before, after, kids[i], id, (n - 1) as nat);
            },
        }
    }
}

/// Where the candidates are simple and there is room for their variables, the attempt to make a
/// variable that stands for itself and a type the same keeps a substitution acyclic, however it
/// ends: no variable that was there before occurs in a candidate that took the place of the type.
pub proof fn law_union_with_simple_candidates_keeps_acyclic(
    s: Subs<Op>,
    entries: Seq<(u64, usize)>,
    id: u32,
    t: Term<Op>,
    after: Subs<Op>,
    outcome: Outcome<Op>,
)
    requires
        acyclic::acyclic(s),
        simple_candidates(s),
        id < s.size(),
        s.root(id) == id,
        !s.types.contains_key(id),
        acyclic::in_range(s, t),
        fnv_map::enumerates(entries, s.table.class(id as usize).constraints),
        t is Node ==> s.size() + needed_by(s.lists, entries) <= union_table::max_keys(),
        constraints::unioned_in::<(), Type>(s, (), entries, id, t) == Some((after, outcome)),
    ensures
        acyclic::acyclic(after),
{
    if let Outcome::Same(Some(candidate)) = outcome {
        acyclic::law_occurs_check_ends(s, id, t);
        let fuel = choose|fuel: nat| (#[trigger] s.occurs_walk(id, t, fuel)) is Some;
        subs::lemma_occurs_fuel(s, id, t, fuel);
        subs::lemma_walk_relevels(s, id, t, fuel);
        let s1 = s.occurs(id, t).0;
        acyclic::law_levels_keep_acyclic(s, s1);
        assert(s.table.classes.contains_key(s.table.roots[id as int]));
        assert forall|i: int| 0 <= i < entries.len() implies (#[trigger] entries[i]).1
            < s1.lists.len() by {
            assert(s.table.class(id as usize).constraints.contains_key(entries[i].0));
        }
        assert(acyclic::in_range(s1, t));
        assert(simple_candidates(s1));
        lemma_resolved_ends(s1, entries, t, false);
        constraints::lemma_resolved_extends::<(), Type>(s1, (), entries, t, false);
        let tried = acyclic::with_candidates_tried::<(), Type>(s, (), entries, id, t);
        assert(is_new(s1, tried, candidate));
        if substitution_laws::occurs_in(tried, id, candidate) {
            let n = choose|n: nat| #[trigger] substitution_laws::reaches(tried, candidate, id, n);
            lemma_not_in_new(s1, tried, candidate, id, n);
        }
        assert(acyclic::in_range(tried, candidate));
    }
    acyclic::law_union_keeps_acyclic::<(), Type>(s, (), entries, id, t, after, outcome);
}

/// Every variable that occurs in the type has a type.
pub open spec fn known(s: Subs<Op>, t: Term<Op>) -> bool {
    forall|v: u32| !#[trigger] substitution_laws::occurs_in(s, v, t)
}

/// What occurs in an operand of what a term stands for occurs in the term.
proof fn lemma_operand_known(s: Subs<Op>, t: Term<Op>, i: int)
    requires
        known(s, t),
        s.actual(t) is Node,
        0 <= i < s.actual(t)->Node_1.len(),
    ensures
        known(s, s.actual(t)->Node_1[i]),
{
    let kids = s.actual(t)->Node_1;
    assert forall|v: u32| !#[trigger] substitution_laws::occurs_in(s, v, kids[i]) by {
        if substitution_laws::occurs_in(s, v, kids[i]) {
            let n = choose|n: nat| #[trigger] substitution_laws::reaches(s, kids[i], v, n);
            assert(substitution_laws::reaches(s, t, v, n + 1));
            assert(substitution_laws::occurs_in(s, v, t));
        }
    }
}

proof fn lemma_known_match_ends(
    s: Subs<Op>,
    height: spec_fn(u32) -> nat,
    temp: Map<u64, Term<Op>>,
    l: Term<Op>,
    r: Term<Op>,
    bound: nat,
) -> (fuel: nat)
    requires
        acyclic::acyclic(s),
        acyclic::ordered_by(s, height),
        acyclic::in_range(s, r),
        known(s, r),
        forall|v: u32| #[trigger] r.mentions(v) ==> height(s.root(v)) < bound,
    ensures
        unify::matched::<(), Type>(s, (), temp, l, r, fuel) is Some,
    decreases bound, r,
{
    if let Term::Var(v) = l {
        if v < s.size() {
            assert(s.table.roots[v as int] < s.size());
        }
    }
    assert(s.askable(l));
    if let Term::Var(v) = r {
        assert(r.mentions(v));
        assert(s.table.roots[v as int] < s.size());
        assert(s.table.roots[s.root(v) as int] == s.root(v));
    }
    assert(s.askable(r));
    if let Term::Var(v) = s.actual(r) {
        assert(substitution_laws::reaches(s, r, v, 1));
        assert(substitution_laws::occurs_in(s, v, r));
    }
    let r1 = s.actual(r);
    assert(unify::looked_up(s, temp, r) == r1);
    let l1 = unify::looked_up(s, temp, l);
    let ls = r1->Node_1;
    match l1 {
        Term::Var(_) => 1,
        Term::Node(_, ks) => {
            if let Some(pairs) = <Type as unify::Unifiable<()>>::zipped((), l1, r1) {
                assert(pairs =~= Seq::new(ks.len(), |i: int| (ks[i], ls[i])));
                assert forall|i: int| 0 <= i < ls.len() implies known(s, #[trigger] ls[i]) by {
                    lemma_operand_known(s, r, i);
                }
                match r {
                    Term::Node(_, _) => {
                        assert forall|i: int, w: u32|
                            0 <= i < ls.len() && #[trigger] ls[i].mentions(w) implies w < s.size()
                            && height(s.root(w)) < bound by {
                            assert(r.mentions(w));
                        }
                        let depth = lemma_known_matches_end(s, height, temp, ks, ls, bound);
                        depth + 1
                    },
                    Term::Var(v) => {
                        let root = s.root(v);
                        assert(r1 == s.types[root]);
                        assert forall|i: int, w: u32|
                            0 <= i < ls.len() && #[trigger] ls[i].mentions(w) implies w < s.size()
                            && height(s.root(w)) < height(root) by {
                            assert(s.types[root].mentions(w));
                        }
                        let depth = lemma_known_matches_end(s, height, temp, ks, ls, height(root));
                        depth + 1
                    },
                }
            } else {
                1
            }
        },
    }
}

proof fn lemma_known_matches_end(
    s: Subs<Op>,
    height: spec_fn(u32) -> nat,
    temp: Map<u64, Term<Op>>,
    ks: Seq<Term<Op>>,
    ls: Seq<Term<Op>>,
    bound: nat,
) -> (fuel: nat)
    requires
        acyclic::acyclic(s),
        acyclic::ordered_by(s, height),
        ks.len() == ls.len(),
        forall|i: int| 0 <= i < ls.len() ==> known(s, #[trigger] ls[i]),
        forall|i: int, v: u32|
            0 <= i < ls.len() && #[trigger] ls[i].mentions(v) ==> v < s.size() && height(s.root(v))
                < bound,
    ensures
        unify::matched_list::<(), Type>(
            s,
            (),
            temp,
            Seq::new(ks.len(), |i: int| (ks[i], ls[i])),
            fuel,
        ) is Some,
    decreases bound, ls,
{
    let pairs = Seq::new(ks.len(), |i: int| (ks[i], ls[i]));
    if ks.len() == 0 {
        0
    } else {
        assert forall|v: u32| #[trigger] ls[0].mentions(v) implies v < s.size() && height(s.root(v))
            < bound by {}
        let first = lemma_known_match_ends(s, height, temp, ks[0], ls[0], bound);
        let after = unify::matched::<(), Type>(s, (), temp, ks[0], ls[0], first).unwrap().0;
        let ks1 = ks.drop_first();
        let ls1 = ls.drop_first();
        assert forall|i: int| 0 <= i < ls1.len() implies known(s, #[trigger] ls1[i]) by {
            assert(known(s, ls[i + 1]));
        }
        assert forall|i: int, v: u32|
            0 <= i < ls1.len() && #[trigger] ls1[i].mentions(v) implies v < s.size() && height(
            s.root(v),
        ) < bound by {
            assert(ls[i + 1].mentions(v));
        }
        let rest = lemma_known_matches_end(s, height, after, ks1, ls1, bound);
        let fuel = if first < rest {
            rest
        } else {
            first
        };
        let pairs1 = Seq::new(ks1.len(), |i: int| (ks1[i], ls1[i]));
        assert(pairs.drop_first() =~= pairs1);
        unify::lemma_matched_fuel::<(), Type>(s, (), temp, ks[0], ls[0], first, fuel);
        unify::lemma_matched_list_fuel::<(), Type>(s, (), after, pairs1, rest, fuel);
        fuel
    }
}

/// In an acyclic substitution, comparing any type with one that is known comes to an end.
pub proof fn law_equivalence_with_known_types_ends(s: Subs<Op>, l: Term<Op>, r: Term<Op>)
    requires
        acyclic::acyclic(s),
        acyclic::in_range(s, r),
        known(s, r),
    ensures
        unify::match_ends::<(), Type>(s, (), l, r),
{
    let none = Map::<u64, Term<Op>>::empty();
    let height = choose|height: spec_fn(u32) -> nat| #[trigger] acyclic::ordered_by(s, height);
    let bound = acyclic::lemma_height_bound(s, height, r);
    let fuel = lemma_known_match_ends(s, height, none, l, r, bound);
    assert(unify::matched::<(), Type>(s, (), none, l, r, fuel) is Some);
}

proof fn lemma_known_first_match_ends(s: Subs<Op>, candidates: Seq<Term<Op>>, t: Term<Op>)
    requires
        acyclic::acyclic(s),
        s.size() + needed(candidates) <= union_table::max_keys(),
        acyclic::in_range(s, t),
        known(s, t),
    ensures
        constraints::first_match::<(), Type>(s, (), candidates, t) is Some,
    decreases candidates.len(),
{
    if candidates.len() > 0 {
        let candidate = candidates[0];
        let (c, s1) = <Type as Instantiate>::instantiated(candidate, s, Map::empty()).unwrap();
        <Type as Instantiate>::instantiated_extends(candidate, s, Map::empty());
        inference::lemma_with_generics_extends(s, generics_of(candidate), Map::empty());
        acyclic::law_new_variables_keep_acyclic(s, s1);
        assert(acyclic::in_range(s1, t));
        assert forall|v: u32| !#[trigger] substitution_laws::occurs_in(s1, v, t) by {
            if substitution_laws::occurs_in(s1, v, t) {
                let n = choose|n: nat| #[trigger] substitution_laws::reaches(s1, t, v, n);
                acyclic::lemma_reaches_extends(s, s1, t, v, n);
                assert(substitution_laws::occurs_in(s, v, t));
            }
        }
        law_equivalence_with_known_types_ends(s1, c, t);
        lemma_known_first_match_ends(s1, candidates.drop_first(), t);
    }
}

/// In an acyclic substitution, a variable that stands for itself and of which one thing at most is
/// demanded, and a type that is known can be made the same, whatever the candidates are: the
/// attempt comes to an end, as long as there is room for the variables that the candidates need.
pub proof fn law_union_with_known_type_ends(s: Subs<Op>, id: u32, t: Term<Op>)
    requires
        acyclic::acyclic(s),
        id < s.size(),
        s.root(id) == id,
        !s.types.contains_key(id),
        acyclic::in_range(s, t),
        known(s, t),
        constraint_laws::one_at_most(s.table.class(id as usize).constraints),
        forall|entries: Seq<(u64, usize)>|
            t is Node && #[trigger] fnv_map::enumerates(
                entries,
                s.table.class(id as usize).constraints,
            ) ==> s.size() + needed_by(s.lists, entries) <= union_table::max_keys(),
    ensures
        constraints::union_ends::<(), Type>(s, (), id, t),
{
    acyclic::law_occurs_check_ends(s, id, t);
    let fuel = choose|fuel: nat| (#[trigger] s.occurs_walk(id, t, fuel)) is Some;
    subs::lemma_occurs_fuel(s, id, t, fuel);
    subs::lemma_walk_relevels(s, id, t, fuel);
    let (s1, found) = s.occurs(id, t);
    acyclic::law_levels_keep_acyclic(s, s1);
    assert forall|v: u32| !#[trigger] substitution_laws::occurs_in(s1, v, t) by {
        if substitution_laws::occurs_in(s1, v, t) {
            let n = choose|n: nat| #[trigger] substitution_laws::reaches(s1, t, v, n);
            substitution_laws::lemma_reaches_relevelled(s, s1, t, v, n);
            assert(substitution_laws::occurs_in(s, v, t));
        }
    }
    assert(acyclic::in_range(s1, t));
    assert forall|entries: Seq<(u64, usize)>|
        t is Node && #[trigger] fnv_map::enumerates(
            entries,
            s.table.class(id as usize).constraints,
        ) && !found implies constraints::resolved_in::<(), Type>(s1, (), entries, t, false) is Some by {
        constraint_laws::lemma_one_order(
            s.table.class(id as usize).constraints,
            entries,
            entries,
        );
        if entries.len() > 0 {
            let candidates = s1.lists[entries[0].1 as int];
            assert(needed_by(s.lists, entries) >= needed(candidates));
            lemma_known_first_match_ends(s1, candidates, t);
            let rest = entries.drop_first();
            assert(rest.len() == 0);
            let (s2, taken) = constraints::first_match::<(), Type>(s1, (), candidates, t).unwrap();
            if let Some(candidate) = taken {
                assert(constraints::resolved_in::<(), Type>(s2, (), rest, candidate, true) is Some);
                assert(constraints::resolved_in::<(), Type>(s2, (), rest, t, false) is Some);
            }
        }
    }
    lemma_union_ends(s, id, t);
}

} // verus!
