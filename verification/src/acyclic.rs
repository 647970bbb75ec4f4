//! No variable stands for a type that it occurs in: what that means, that it stays so, and what
//! follows from it.
use vstd::prelude::*;
use crate::constraints;
use crate::constraints::{Instantiate, Outcome};
use crate::subs;
use crate::subs::Subs;
use crate::substitution_laws;
use crate::term::Term;
use crate::unify::Unifiable;
use crate::union_table;

verus! {

/// Every variable in the term exists.
pub open spec fn in_range<O>(s: Subs<O>, t: Term<O>) -> bool {
    forall|v: u32| #[trigger] t.mentions(v) ==> v < s.size()
}

/// `height` grows from the variables in a type to the variable that stands for it.
pub open spec fn ordered_by<O>(s: Subs<O>, height: spec_fn(u32) -> nat) -> bool {
    forall|r: u32, v: u32|
        s.types.contains_key(r) && s.root(r) == r && #[trigger] s.types[r].mentions(v) ==> height(
            s.root(v),
        ) < height(r)
}

/// All variables exist, and none stands for a type in which it occurs, be it through the types
/// that other variables stand for.
pub open spec fn acyclic<O>(s: Subs<O>) -> bool {
    &&& s.wf()
    &&& s.vars.len() == s.size()
    &&& forall|r: u32| #[trigger] s.types.contains_key(r) ==> r < s.size() && in_range(s, s.types[r])
    &&& exists|height: spec_fn(u32) -> nat| #[trigger] ordered_by(s, height)
}

/// The substitution that knows nothing is acyclic.
pub proof fn law_empty_is_acyclic<O>()
    ensures
        acyclic(Subs::<O>::empty()),
{
    union_table::lemma_empty_wf();
    let height = |v: u32| 0nat;
    assert(ordered_by(Subs::<O>::empty(), height));
}

/// The heights of the variables in a term have a bound.
pub proof fn lemma_height_bound<O>(s: Subs<O>, height: spec_fn(u32) -> nat, t: Term<O>) -> (bound: nat)
    ensures
        forall|v: u32| #[trigger] t.mentions(v) ==> height(s.root(v)) < bound,
    decreases t,
{
    match t {
        Term::Var(v) => height(s.root(v)) + 1,
        Term::Node(_, kids) => {
            let bound = lemma_height_bound_list(s, height, kids);
            assert forall|v: u32| #[trigger] t.mentions(v) implies height(s.root(v)) < bound by {
                let i = choose|i: int| 0 <= i < kids.len() && (#[trigger] kids[i]).mentions(v);
                assert(kids[i].mentions(v));
            }
            bound
        },
    }
}

proof fn lemma_height_bound_list<O>(
    s: Subs<O>,
    height: spec_fn(u32) -> nat,
    kids: Seq<Term<O>>,
) -> (bound: nat)
    ensures
        forall|i: int, v: u32|
            0 <= i < kids.len() && #[trigger] kids[i].mentions(v) ==> height(s.root(v)) < bound,
    decreases kids,
{
    if kids.len() == 0 {
        0
    } else {
        let first = lemma_height_bound(s, height, kids[0]);
        let rest = lemma_height_bound_list(s, height, kids.drop_first());
        let bound = if first < rest {
            rest
        } else {
            first
        };
        assert forall|i: int, v: u32|
            0 <= i < kids.len() && #[trigger] kids[i].mentions(v) implies height(s.root(v))
            < bound by {
            if i > 0 {
                assert(kids.drop_first()[i - 1] == kids[i]);
                assert(kids.drop_first()[i - 1].mentions(v));
            }
        }
        bound
    }
}

/// Levels do not decide what is acyclic.
proof fn lemma_ordered_relevelled<O>(before: Subs<O>, after: Subs<O>, height: spec_fn(u32) -> nat)
    requires
        after.relevelled(before),
    ensures
        ordered_by(after, height) == ordered_by(before, height),
{
    assert forall|v: u32| #[trigger] after.root(v) == before.root(v) by {}
}

/// A walk from a term whose variables have heights below `bound` comes to an end.
proof fn lemma_walk_ends<O>(
    s: Subs<O>,
    height: spec_fn(u32) -> nat,
    id: u32,
    t: Term<O>,
    bound: nat,
) -> (fuel: nat)
    requires
        s.wf(),
        s.vars.len() == s.size(),
        id < s.size(),
        ordered_by(s, height),
        forall|r: u32| #[trigger]
            s.types.contains_key(r) ==> r < s.size() && in_range(s, s.types[r]),
        in_range(s, t),
        forall|v: u32| #[trigger] t.mentions(v) ==> height(s.root(v)) < bound,
    ensures
        s.occurs_walk(id, t, fuel) is Some,
    decreases bound, t,
{
    match t {
        Term::Node(_, kids) => {
            assert forall|i: int, v: u32| 0 <= i < kids.len() && #[trigger] kids[i].mentions(v) implies v
                < s.size() && height(s.root(v)) < bound by {
                assert(t.mentions(v));
            }
            let depth = lemma_list_ends(s, height, id, kids, bound);
            depth + 1
        },
        Term::Var(v) => {
            assert(t.mentions(v));
            assert(s.table.roots[v as int] < s.size());
            let r = s.root(v);
            assert(s.table.roots[r as int] == r);
            if s.types.contains_key(r) {
                let found = s.types[r];
                let kids = found->Node_1;
                assert forall|i: int, w: u32|
                    0 <= i < kids.len() && #[trigger] kids[i].mentions(w) implies w < s.size()
                    && height(s.root(w)) < height(r) by {
                    assert(found.mentions(w));
                }
                let depth = lemma_list_ends(s, height, id, kids, height(r));
                depth + 1
            } else {
                assert(s.resolvable(v));
                1
            }
        },
    }
}

proof fn lemma_list_ends<O>(
    s: Subs<O>,
    height: spec_fn(u32) -> nat,
    id: u32,
    kids: Seq<Term<O>>,
    bound: nat,
) -> (fuel: nat)
    requires
        s.wf(),
        s.vars.len() == s.size(),
        id < s.size(),
        ordered_by(s, height),
        forall|r: u32| #[trigger]
            s.types.contains_key(r) ==> r < s.size() && in_range(s, s.types[r]),
        forall|i: int, v: u32|
            0 <= i < kids.len() && #[trigger] kids[i].mentions(v) ==> v < s.size() && height(
                s.root(v),
            ) < bound,
    ensures
        s.occurs_list(id, kids, fuel) is Some,
    decreases bound, kids,
{
    if kids.len() == 0 {
        0
    } else {
        assert forall|v: u32| #[trigger] kids[0].mentions(v) implies v < s.size() && height(
            s.root(v),
        ) < bound by {}
        let first = lemma_walk_ends(s, height, id, kids[0], bound);
        subs::lemma_walk_relevels(s, id, kids[0], first);
        let (after, found) = s.occurs_walk(id, kids[0], first).unwrap();
        if found {
            first
        } else {
            let rest = kids.drop_first();
            lemma_ordered_relevelled(s, after, height);
            assert forall|i: int, v: u32|
                0 <= i < rest.len() && #[trigger] rest[i].mentions(v) implies v < after.size()
                && height(after.root(v)) < bound by {
                assert(kids[i + 1].mentions(v));
                assert(after.root(v) == s.root(v));
            }
            let more = lemma_list_ends(after, height, id, rest, bound);
            let fuel = if first < more {
                more
            } else {
                first
            };
            subs::lemma_walk_fuel(s, id, kids[0], first, fuel);
            subs::lemma_list_fuel(after, id, rest, more, fuel);
            fuel
        }
    }
}

/// In an acyclic substitution every check for occurrence comes to an end.
pub proof fn law_occurs_check_ends<O>(s: Subs<O>, id: u32, t: Term<O>)
    requires
        acyclic(s),
        id < s.size(),
        in_range(s, t),
    ensures
        s.walk_ends(id, t),
{
    let height = choose|height: spec_fn(u32) -> nat| #[trigger] ordered_by(s, height);
    let bound = lemma_height_bound(s, height, t);
    let fuel = lemma_walk_ends(s, height, id, t, bound);
    assert(s.occurs_walk(id, t, fuel) is Some);
}

/// Changing levels keeps a substitution acyclic.
pub proof fn law_levels_keep_acyclic<O>(before: Subs<O>, after: Subs<O>)
    requires
        acyclic(before),
        after.relevelled(before),
    ensures
        acyclic(after),
{
    let height = choose|height: spec_fn(u32) -> nat| #[trigger] ordered_by(before, height);
    lemma_ordered_relevelled(before, after, height);
    assert(ordered_by(after, height));
}

/// Creating variables keeps a substitution acyclic.
pub proof fn law_new_variables_keep_acyclic<O>(before: Subs<O>, after: Subs<O>)
    requires
        acyclic(before),
        after.extends(before),
    ensures
        acyclic(after),
{
    let height = choose|height: spec_fn(u32) -> nat| #[trigger] ordered_by(before, height);
    assert forall|v: u32| v < before.size() implies #[trigger] after.root(v) == before.root(v) by {
        assert(after.table.roots[v as int] == before.table.roots[v as int]);
    }
    assert forall|r: u32, v: u32|
        after.types.contains_key(r) && after.root(r) == r && #[trigger] after.types[r].mentions(
            v,
        ) implies height(after.root(v)) < height(r) by {
        assert(before.types.contains_key(r));
        assert(before.types[r].mentions(v));
    }
    assert(ordered_by(after, height));
}

/// The type of a variable in a term occurs where the term does.
proof fn lemma_mention_reaches<O>(s: Subs<O>, t: Term<O>, v: u32, id: u32, n: nat) -> (m: nat)
    requires
        t.mentions(v),
        substitution_laws::reaches(s, Term::Var(v), id, n),
    ensures
        substitution_laws::reaches(s, t, id, m),
    decreases t,
{
    match t {
        Term::Var(_) => n,
        Term::Node(_, kids) => {
            let i = choose|i: int| 0 <= i < kids.len() && (#[trigger] kids[i]).mentions(v);
            let m = lemma_mention_reaches(s, kids[i], v, id, n);
            assert(substitution_laws::reaches(s, kids[i], id, m));
            assert(s.actual(t) == t);
            assert(substitution_laws::reaches(s, t, id, m + 1));
            m + 1
        },
    }
}

/// Where a variable in the type of `r` leads to `id`, `r` does.
proof fn lemma_reaches_from_root<O>(s: Subs<O>, r: u32, v: u32, id: u32)
    requires
        acyclic(s),
        s.types.contains_key(r),
        s.root(r) == r,
        s.types[r].mentions(v),
        substitution_laws::occurs_in(s, id, Term::Var(s.root(v))),
    ensures
        substitution_laws::occurs_in(s, id, Term::Var(r)),
{
    let n = choose|n: nat|
        #[trigger] substitution_laws::reaches(s, Term::Var(s.root(v)), id, n);
    lemma_root_reaches(s, v, id, n);
    let found = s.types[r];
    let m = lemma_mention_reaches(s, found, v, id, n);
    assert(s.actual(found) == found);
    assert(s.actual(Term::Var(r)) == found);
    assert(substitution_laws::reaches(s, Term::Var(r), id, m));
}

/// A variable leads where the variable that stands for it does.
proof fn lemma_root_reaches<O>(s: Subs<O>, v: u32, id: u32, n: nat)
    requires
        s.wf(),
        s.vars.len() == s.size(),
        v < s.size(),
    ensures
        substitution_laws::reaches(s, Term::Var(v), id, n) == substitution_laws::reaches(
            s,
            Term::Var(s.root(v)),
            id,
            n,
        ),
{
    assert(s.table.roots[v as int] < s.size());
    assert(s.table.roots[s.root(v) as int] == s.root(v));
    assert(s.actual(Term::Var(v)) == s.actual(Term::Var(s.root(v))));
}

/// A variable without a type leads to itself.
proof fn lemma_unbound_reaches_itself<O>(s: Subs<O>, id: u32)
    requires
        s.root(id) == id,
        id < s.size(),
        !s.types.contains_key(id),
    ensures
        substitution_laws::occurs_in(s, id, Term::Var(id)),
{
    assert(substitution_laws::reaches(s, Term::Var(id), id, 1));
}

/// Giving a variable a type in which it does not occur keeps a substitution acyclic.
pub proof fn law_binding_keeps_acyclic<O>(s: Subs<O>, id: u32, t: Term<O>)
    requires
        acyclic(s),
        id < s.size(),
        s.root(id) == id,
        !s.types.contains_key(id),
        t is Node,
        in_range(s, t),
        !substitution_laws::occurs_in(s, id, t),
    ensures
        acyclic(s.with_type(id, t)),
{
    let height = choose|height: spec_fn(u32) -> nat| #[trigger] ordered_by(s, height);
    let bound = lemma_height_bound(s, height, t);
    let raised = |v: u32|
        if substitution_laws::occurs_in(s, id, Term::Var(v)) {
            height(v) + bound
        } else {
            height(v)
        };
    let after = s.with_type(id, t);
    assert forall|r: u32, v: u32|
        after.types.contains_key(r) && after.root(r) == r && #[trigger] after.types[r].mentions(
            v,
        ) implies raised(after.root(v)) < raised(r) by {
        assert(after.root(v) == s.root(v));
        if r == id {
            assert(t.mentions(v));
            lemma_unbound_reaches_itself(s, id);
            if substitution_laws::occurs_in(s, id, Term::Var(s.root(v))) {
                let n = choose|n: nat|
                    #[trigger] substitution_laws::reaches(s, Term::Var(s.root(v)), id, n);
                lemma_root_reaches(s, v, id, n);
                let m = lemma_mention_reaches(s, t, v, id, n);
                assert(substitution_laws::reaches(s, t, id, m));
            }
        } else {
            assert(s.types[r].mentions(v));
            if substitution_laws::occurs_in(s, id, Term::Var(s.root(v))) {
                lemma_reaches_from_root(s, r, v, id);
            }
        }
    }
    assert(ordered_by(after, raised));
    assert forall|r: u32| #[trigger] after.types.contains_key(r) implies r < after.size()
        && in_range(after, after.types[r]) by {
        if r != id {
            assert(s.types.contains_key(r));
        }
    }
}

/// Joining a variable without a type with another that does not lead to it keeps a substitution
/// acyclic.
pub proof fn law_joining_keeps_acyclic<O>(s: Subs<O>, id: u32, other: u32)
    requires
        acyclic(s),
        id < s.size(),
        other < s.size(),
        s.root(id) == id,
        !s.types.contains_key(id),
        !substitution_laws::occurs_in(s, id, Term::Var(other)),
    ensures
        acyclic(s.united(id, other)),
{
    let height = choose|height: spec_fn(u32) -> nat| #[trigger] ordered_by(s, height);
    let after = s.united(id, other);
    subs::lemma_united_wf(s, id, other);
    let o = s.root(other);
    assert(s.table.roots[other as int] < s.size());
    assert(s.table.roots[o as int] == o);
    if substitution_laws::occurs_in(s, id, Term::Var(o)) {
        let n = choose|n: nat| #[trigger] substitution_laws::reaches(s, Term::Var(o), id, n);
        lemma_root_reaches(s, other, id, n);
        assert(substitution_laws::reaches(s, Term::Var(other), id, n));
    }
    lemma_unbound_reaches_itself(s, id);
    assert(o != id);
    let stays = after.root(id) == id;
    let raised = |v: u32|
        if stays {
            if v == id {
                0nat
            } else {
                height(v)
            }
        } else if substitution_laws::occurs_in(s, id, Term::Var(v)) {
            height(v) + height(o) + 1
        } else {
            height(v)
        };
    assert forall|v: u32| v < s.size() implies #[trigger] after.root(v) == (if s.root(v) == id
        || s.root(v) == o {
        if stays {
            id
        } else {
            o
        }
    } else {
        s.root(v)
    }) by {}
    assert forall|r: u32, v: u32|
        after.types.contains_key(r) && after.root(r) == r && #[trigger] after.types[r].mentions(
            v,
        ) implies raised(after.root(v)) < raised(r) by {
        assert(s.types.contains_key(r));
        assert(s.types[r].mentions(v));
        assert(r < s.size() && v < s.size());
        assert(s.table.roots[r as int] < s.size());
        assert(s.table.roots[s.root(r) as int] == s.root(r));
        assert(s.root(r) == r);
        assert(height(s.root(v)) < height(r));
        if !stays {
            if substitution_laws::occurs_in(s, id, Term::Var(s.root(v))) {
                lemma_reaches_from_root(s, r, v, id);
            }
        }
    }
    assert(ordered_by(after, raised));
}

/// New variables do not change what occurs where.
pub proof fn lemma_reaches_extends<O>(before: Subs<O>, after: Subs<O>, t: Term<O>, id: u32, n: nat)
    requires
        acyclic(before),
        after.extends(before),
        in_range(before, t),
    ensures
        substitution_laws::reaches(after, t, id, n) ==> substitution_laws::reaches(
            before,
            t,
            id,
            n,
        ),
    decreases n,
{
    if substitution_laws::reaches(after, t, id, n) {
        if let Term::Var(v) = t {
            assert(t.mentions(v));
            assert(after.table.roots[v as int] == before.table.roots[v as int]);
            assert(before.table.roots[v as int] < before.size());
            assert(after.vars[before.root(v) as int] == Term::<O>::Var(before.root(v)));
            assert(before.vars[before.root(v) as int] == Term::<O>::Var(before.root(v)));
        }
        assert(after.actual(t) == before.actual(t));
        if let Term::Node(op, kids) = before.actual(t) {
            let found = before.actual(t);
            assert(in_range(before, found));
            let i = choose|i: int|
                0 <= i < kids.len() && substitution_laws::reaches(
                    after,
                    #[trigger] kids[i],
                    id,
                    (n - 1) as nat,
                );
            assert forall|v: u32| #[trigger] kids[i].mentions(v) implies v < before.size() by {
                assert(found.mentions(v));
            }
            lemma_reaches_extends(before, after, kids[i], id, (n - 1) as nat);
            assert(substitution_laws::reaches(before, kids[i], id, (n - 1) as nat));
        }
    }
}

/// What does not occur in a term does not occur in it after levels changed.
proof fn lemma_not_occurs_relevelled<O>(before: Subs<O>, after: Subs<O>, id: u32, t: Term<O>)
    requires
        after.relevelled(before),
        !substitution_laws::occurs_in(before, id, t),
    ensures
        !substitution_laws::occurs_in(after, id, t),
{
    if substitution_laws::occurs_in(after, id, t) {
        let n = choose|n: nat| #[trigger] substitution_laws::reaches(after, t, id, n);
        substitution_laws::lemma_reaches_relevelled(before, after, t, id, n);
    }
}

/// The substitution once it is known that the variable does not occur in the type, and the
/// candidates of its constraints were tried.
pub open spec fn with_candidates_tried<S, T: Unifiable<S> + Instantiate>(
    s: Subs<T::Op>,
    state: S,
    entries: Seq<(u64, usize)>,
    id: u32,
    t: Term<T::Op>,
) -> Subs<T::Op> {
    constraints::resolved_in::<S, T>(s.occurs(id, t).0, state, entries, t, false).unwrap().0
}

/// However the attempt to make a variable and a type the same ends, it keeps a substitution
/// acyclic, as long as the variable does not occur in a candidate that took the place of the type.
pub proof fn law_union_keeps_acyclic<S, T: Unifiable<S> + Instantiate>(
    s: Subs<T::Op>,
    state: S,
    entries: Seq<(u64, usize)>,
    id: u32,
    t: Term<T::Op>,
    after: Subs<T::Op>,
    outcome: Outcome<T::Op>,
)
    requires
        acyclic(s),
        id < s.size(),
        s.root(id) == id,
        !s.types.contains_key(id),
        in_range(s, t),
        constraints::unioned_in::<S, T>(s, state, entries, id, t) == Some((after, outcome)),
        outcome matches Outcome::Same(Some(candidate)) ==> {
            let tried = with_candidates_tried::<S, T>(s, state, entries, id, t);
            in_range(tried, candidate) && !substitution_laws::occurs_in(tried, id, candidate)
        },
    ensures
        acyclic(after),
{
    if t != Term::<T::Op>::Var(id) {
        let fuel = choose|fuel: nat| (#[trigger] s.occurs_walk(id, t, fuel)) is Some;
        subs::lemma_occurs_fuel(s, id, t, fuel);
        subs::lemma_walk_relevels(s, id, t, fuel);
        let (s1, found) = s.occurs(id, t);
        law_levels_keep_acyclic(s, s1);
        if !found {
            substitution_laws::law_occurs_check_is_exact(s, id, t);
            lemma_not_occurs_relevelled(s, s1, id, t);
            if s1.find(id) == Some(s1.actual(t)) || s1.actual(t) == Term::<T::Op>::Var(id) {
            } else if let Term::Var(other) = t {
                assert(t.mentions(other));
                law_joining_keeps_acyclic(s1, id, other);
                let s2 = s1.united(id, other);
                subs::lemma_united_wf(s1, id, other);
                subs::lemma_level_updated(s2, id, other);
                let s3 = s2.level_updated(id, other);
                subs::lemma_relevelled_find(s2, s3, id);
                subs::lemma_relevelled_find(s2, s3, other);
                subs::lemma_level_updated(s3, other, id);
                law_levels_keep_acyclic(s2, s3);
                law_levels_keep_acyclic(s3, after);
            } else {
                constraints::lemma_resolved_extends::<S, T>(s1, state, entries, t, false);
                let s2 = constraints::resolved_in::<S, T>(s1, state, entries, t, false).unwrap().0;
                law_new_variables_keep_acyclic(s1, s2);
                if substitution_laws::occurs_in(s2, id, t) {
                    let n = choose|n: nat| #[trigger] substitution_laws::reaches(s2, t, id, n);
                    lemma_reaches_extends(s1, s2, t, id, n);
                }
                constraints::lemma_candidate_is_no_variable::<S, T>(s1, state, entries, t, false);
                if let Outcome::Same(candidate) = outcome {
                    assert(s2.table.roots[id as int] == s1.table.roots[id as int]);
                    law_binding_keeps_acyclic(
                        s2,
                        id,
                        match candidate {
                            Some(c) => c,
                            None => t,
                        },
                    );
                }
            }
        }
    }
}

/// Where making a variable and a type the same succeeds, they stand for the same from then on; if
/// a candidate of a constraint took the place of the type, the variable stands for it.
pub proof fn law_union_makes_the_same<S, T: Unifiable<S> + Instantiate>(
    s: Subs<T::Op>,
    state: S,
    entries: Seq<(u64, usize)>,
    id: u32,
    t: Term<T::Op>,
    after: Subs<T::Op>,
    candidate: Option<Term<T::Op>>,
)
    requires
        s.wf(),
        s.vars.len() == s.size(),
        id < s.size(),
        s.root(id) == id,
        in_range(s, t),
        constraints::unioned_in::<S, T>(s, state, entries, id, t) == Some(
            (after, Outcome::Same(candidate)),
        ),
    ensures
        after.actual(Term::Var(id)) == after.actual(
            match candidate {
                Some(c) => c,
                None => t,
            },
        ),
{
    if t != Term::<T::Op>::Var(id) {
        let fuel = choose|fuel: nat| (#[trigger] s.occurs_walk(id, t, fuel)) is Some;
        subs::lemma_occurs_fuel(s, id, t, fuel);
        subs::lemma_walk_relevels(s, id, t, fuel);
        let (s1, found) = s.occurs(id, t);
        if s1.find(id) == Some(s1.actual(t)) {
        } else if s1.actual(t) == Term::<T::Op>::Var(id) {
            subs::lemma_actual_var(s1, t);
        } else if let Term::Var(other) = t {
            assert(t.mentions(other));
            let s2 = s1.united(id, other);
            subs::lemma_united_wf(s1, id, other);
            subs::lemma_level_updated(s2, id, other);
            let s3 = s2.level_updated(id, other);
            subs::lemma_relevelled_find(s2, s3, id);
            subs::lemma_relevelled_find(s2, s3, other);
            subs::lemma_level_updated(s3, other, id);
            subs::lemma_relevelled_find(s3, after, id);
            subs::lemma_relevelled_find(s3, after, other);
            assert(s1.table.roots[id as int] < s1.size());
            assert(s1.table.roots[other as int] < s1.size());
            assert(s2.root(id) == s2.root(other));
            assert(s2.table.roots[id as int] < s2.size());
            assert(s2.vars[s2.root(id) as int] == Term::<T::Op>::Var(s2.root(id)));
        } else {
            constraints::lemma_resolved_extends::<S, T>(s1, state, entries, t, false);
            constraints::lemma_candidate_is_no_variable::<S, T>(s1, state, entries, t, false);
            let s2 = constraints::resolved_in::<S, T>(s1, state, entries, t, false).unwrap().0;
            assert(s2.table.roots[id as int] == s1.table.roots[id as int]);
        }
    }
}

} // verus!
