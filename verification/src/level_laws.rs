//! What holds of the levels of variables.
use vstd::prelude::*;
use crate::constraints;
use crate::constraints::{Instantiate, Outcome};
use crate::fnv_map;
use crate::subs;
use crate::subs::Subs;
use crate::substitution_laws;
use crate::term::Term;
use crate::unify::Unifiable;

verus! {

/// `id` stands for its class: its own number bounds its level.
pub open spec fn is_own_root<O>(s: Subs<O>, id: u32) -> bool {
    id < s.size() && s.root(id) == id
}

/// The levels of `id` and of the variable `w` without a type have been compared, and that of `w` is
/// not above that of `id`.
pub open spec fn lowered<O>(s: Subs<O>, id: u32, w: u32) -> bool {
    &&& w < s.size()
    &&& s.root(w) == w
    &&& !s.types.contains_key(w)
    &&& s.table.class(id as usize).level <= id
    &&& s.table.class(w as usize).level <= w
    &&& s.table.class(w as usize).level <= s.table.class(id as usize).level
}

/// What lowering a level does to the levels of all classes.
proof fn lemma_update_effect<O>(s: Subs<O>, id: u32, other: u32)
    requires
        s.wf(),
        is_own_root(s, id),
        is_own_root(s, other),
        !s.types.contains_key(other),
        id != other,
    ensures
        s.level_updated(id, other).relevelled(s),
        s.level_updated(id, other).table.class(id as usize).level == s.level(id),
        s.level(id) == subs::min_level(s.table.class(id as usize).level, id),
        s.level_updated(id, other).table.class(other as usize).level == subs::min_level(
            s.level(id),
            subs::min_level(s.table.class(other as usize).level, other),
        ),
        forall|k: usize|
            #![trigger s.level_updated(id, other).table.classes[k]]
            s.table.classes.contains_key(k) && k != id as usize && k != other as usize
                ==> s.level_updated(id, other).table.classes[k] == s.table.classes[k],
{
    assert(s.table.roots[id as int] == id as usize);
    assert(s.table.roots[other as int] == other as usize);
    subs::lemma_level_updated(s, id, other);
    assert(s.level_var(id) == id);
    let s1 = s.level_asked(id);
    subs::lemma_with_level(s, id, s.level(id));
    subs::lemma_relevelled_find(s, s1, other);
    assert(s1.level_var(other) == other);
}

/// The walk that looks for a variable without finding it leaves every variable without a type that
/// it meets lowered, and those lowered that were.
proof fn lemma_walk_lowers<O>(s: Subs<O>, id: u32, t: Term<O>, fuel: nat)
    requires
        s.wf(),
        is_own_root(s, id),
        s.occurs_walk(id, t, fuel) is Some,
        !s.occurs_walk(id, t, fuel).unwrap().1,
    ensures
        forall|w: u32, n: nat| #[trigger]
            substitution_laws::reaches(s, t, w, n) ==> lowered(
                s.occurs_walk(id, t, fuel).unwrap().0,
                id,
                w,
            ),
        forall|w: u32| #[trigger]
            lowered(s, id, w) ==> lowered(s.occurs_walk(id, t, fuel).unwrap().0, id, w),
    decreases fuel, 0nat,
{
    let after = s.occurs_walk(id, t, fuel).unwrap().0;
    match s.actual(t) {
        Term::Var(other) => {
            subs::lemma_actual_var(s, t);
            assert(s.find(other) is None);
            lemma_update_effect(s, id, other);
            assert forall|w: u32| #[trigger] lowered(s, id, w) implies lowered(after, id, w) by {
                assert(s.table.roots[w as int] == w as usize);
                assert(s.table.classes.contains_key(w as usize));
                assert(after.table.classes.contains_key(w as usize));
                if w != id && w != other {
                    assert(after.table.classes[w as usize] == s.table.classes[w as usize]);
                }
            }
            assert(lowered(after, id, other));
            assert forall|w: u32, n: nat| #[trigger]
                substitution_laws::reaches(s, t, w, n) implies lowered(after, id, w) by {
                assert(w == other);
            }
        },
        Term::Node(_, kids) => {
            let depth = (fuel - 1) as nat;
            lemma_list_lowers(s, id, kids, depth);
            assert forall|w: u32, n: nat| #[trigger]
                substitution_laws::reaches(s, t, w, n) implies lowered(after, id, w) by {
                let i = choose|i: int|
                    0 <= i < kids.len() && substitution_laws::reaches(
                        s,
                        #[trigger] kids[i],
                        w,
                        (n - 1) as nat,
                    );
                assert(substitution_laws::reaches(s, kids[i], w, (n - 1) as nat));
            }
        },
    }
}

proof fn lemma_list_lowers<O>(s: Subs<O>, id: u32, kids: Seq<Term<O>>, fuel: nat)
    requires
        s.wf(),
        is_own_root(s, id),
        s.occurs_list(id, kids, fuel) is Some,
        !s.occurs_list(id, kids, fuel).unwrap().1,
    ensures
        forall|i: int, w: u32, n: nat|
            0 <= i < kids.len() && #[trigger] substitution_laws::reaches(s, kids[i], w, n) ==> lowered(
                s.occurs_list(id, kids, fuel).unwrap().0,
                id,
                w,
            ),
        forall|w: u32| #[trigger]
            lowered(s, id, w) ==> lowered(s.occurs_list(id, kids, fuel).unwrap().0, id, w),
    decreases fuel, 1 + kids.len(),
{
    if kids.len() > 0 {
        lemma_walk_lowers(s, id, kids[0], fuel);
        subs::lemma_walk_relevels(s, id, kids[0], fuel);
        let (after, found) = s.occurs_walk(id, kids[0], fuel).unwrap();
        let rest = kids.drop_first();
        lemma_list_lowers(after, id, rest, fuel);
        let end = s.occurs_list(id, kids, fuel).unwrap().0;
        assert forall|i: int, w: u32, n: nat|
            0 <= i < kids.len() && #[trigger] substitution_laws::reaches(
                s,
                kids[i],
                w,
                n,
            ) implies lowered(end, id, w) by {
            if i > 0 {
                substitution_laws::lemma_reaches_relevelled(s, after, kids[i], w, n);
                assert(rest[i - 1] == kids[i]);
                assert(substitution_laws::reaches(after, rest[i - 1], w, n));
            } else {
                assert(lowered(after, id, w));
            }
        }
    }
}

/// Where the check for occurrence does not find the variable, every variable without a type that
/// occurs in the type is left with a level that is not above the variable's own. What variables
/// stand for does not change in any case.
pub proof fn law_occurs_check_lowers_levels<O>(s: Subs<O>, id: u32, t: Term<O>)
    requires
        s.wf(),
        id < s.size(),
        s.find(id) is None,
        s.walk_ends(id, t),
    ensures
        !s.occurs(id, t).1 ==> forall|w: u32| #[trigger]
            substitution_laws::occurs_in(s, w, t) ==> s.occurs(id, t).0.level(w) <= s.occurs(
                id,
                t,
            ).0.level(id),
        forall|v: u32| #[trigger] s.occurs(id, t).0.find(v) == s.find(v),
{
    let fuel = choose|fuel: nat| (#[trigger] s.occurs_walk(id, t, fuel)) is Some;
    subs::lemma_occurs_fuel(s, id, t, fuel);
    subs::lemma_walk_relevels(s, id, t, fuel);
    let (after, found) = s.occurs(id, t);
    if !found {
        lemma_walk_lowers(s, id, t, fuel);
        assert forall|w: u32| #[trigger] substitution_laws::occurs_in(s, w, t) implies after.level(
            w,
        ) <= after.level(id) by {
            let n = choose|n: nat| #[trigger] substitution_laws::reaches(s, t, w, n);
            assert(lowered(after, id, w));
            assert(after.level_var(w) == w);
            subs::lemma_relevelled_find(s, after, id);
            assert(after.level_var(id) == id);
        }
    }
    assert forall|v: u32| #[trigger] after.find(v) == s.find(v) by {
        subs::lemma_relevelled_find(s, after, v);
    }
}

/// A walk over what was lowered already changes nothing.
proof fn lemma_walk_settled<O>(s: Subs<O>, after: Subs<O>, id: u32, t: Term<O>, fuel: nat)
    requires
        s.wf(),
        is_own_root(s, id),
        s.occurs_walk(id, t, fuel) is Some,
        !s.occurs_walk(id, t, fuel).unwrap().1,
        after.relevelled(s),
        forall|w: u32, n: nat| #[trigger]
            substitution_laws::reaches(s, t, w, n) ==> lowered(after, id, w),
    ensures
        after.occurs_walk(id, t, fuel) == Some((after, false)),
    decreases fuel, 0nat,
{
    if let Term::Var(v) = t {
        subs::lemma_relevelled_find(s, after, v);
    }
    subs::lemma_relevelled_find(s, after, id);
    assert(after.actual(t) == s.actual(t));
    match s.actual(t) {
        Term::Var(other) => {
            subs::lemma_actual_var(s, t);
            assert(substitution_laws::reaches(s, t, other, 1));
            assert(lowered(after, id, other));
            assert(after.table.roots[id as int] == id as usize);
            assert(after.table.classes.contains_key(id as usize));
            assert(after.table.classes.contains_key(other as usize));
            lemma_update_effect(after, id, other);
            let end = after.level_updated(id, other);
            assert forall|k: usize| #[trigger]
                after.table.classes.contains_key(k) implies end.table.classes[k]
                == after.table.classes[k] by {
                if k != id as usize && k != other as usize {
                    assert(end.table.classes[k] == after.table.classes[k]);
                } else {
                    assert(end.table.roots[k as int] == k);
                    assert(end.table.class(k).level == after.table.class(k).level);
                    assert(end.table.classes[k] =~= after.table.classes[k]);
                }
            }
            assert(end.table.classes =~= after.table.classes);
            assert(end =~= after);
        },
        Term::Node(_, kids) => {
            let depth = (fuel - 1) as nat;
            assert forall|i: int, w: u32, n: nat|
                0 <= i < kids.len() && #[trigger] substitution_laws::reaches(
                    s,
                    kids[i],
                    w,
                    n,
                ) implies lowered(after, id, w) by {
                assert(substitution_laws::reaches(s, t, w, n + 1));
            }
            lemma_list_settled(s, after, id, kids, depth);
        },
    }
}

proof fn lemma_list_settled<O>(s: Subs<O>, after: Subs<O>, id: u32, kids: Seq<Term<O>>, fuel: nat)
    requires
        s.wf(),
        is_own_root(s, id),
        s.occurs_list(id, kids, fuel) is Some,
        !s.occurs_list(id, kids, fuel).unwrap().1,
        after.relevelled(s),
        forall|i: int, w: u32, n: nat|
            0 <= i < kids.len() && #[trigger] substitution_laws::reaches(s, kids[i], w, n) ==> lowered(
                after,
                id,
                w,
            ),
    ensures
        after.occurs_list(id, kids, fuel) == Some((after, false)),
    decreases fuel, 1 + kids.len(),
{
    if kids.len() > 0 {
        assert forall|w: u32, n: nat| #[trigger]
            substitution_laws::reaches(s, kids[0], w, n) implies lowered(after, id, w) by {}
        lemma_walk_settled(s, after, id, kids[0], fuel);
        subs::lemma_walk_relevels(s, id, kids[0], fuel);
        let (next, found) = s.occurs_walk(id, kids[0], fuel).unwrap();
        let rest = kids.drop_first();
        assert(after.relevelled(next));
        assert forall|i: int, w: u32, n: nat|
            0 <= i < rest.len() && #[trigger] substitution_laws::reaches(
                next,
                rest[i],
                w,
                n,
            ) implies lowered(after, id, w) by {
            substitution_laws::lemma_reaches_relevelled(s, next, rest[i], w, n);
            assert(kids[i + 1] == rest[i]);
            assert(substitution_laws::reaches(s, kids[i + 1], w, n));
        }
        lemma_list_settled(next, after, id, rest, fuel);
    }
}

/// A walk that does not find a variable goes the same way when the variable has a type.
proof fn lemma_walk_with_type<O>(s: Subs<O>, id: u32, t: Term<O>, u: Term<O>, fuel: nat)
    requires
        s.wf(),
        is_own_root(s, id),
        !s.types.contains_key(id),
        t is Node,
        s.occurs_walk(id, u, fuel) is Some,
        !s.occurs_walk(id, u, fuel).unwrap().1,
    ensures
        s.with_type(id, t).occurs_walk(id, u, fuel) == Some(
            (s.occurs_walk(id, u, fuel).unwrap().0.with_type(id, t), false),
        ),
    decreases fuel, 0nat,
{
    let bound = s.with_type(id, t);
    if let Term::Var(v) = u {
        if v < s.size() {
            assert(s.table.roots[v as int] < s.size());
            assert(s.root(v) != id);
        }
        assert(bound.find(v) == s.find(v));
        assert(bound.resolvable(v) == s.resolvable(v));
    }
    assert(bound.actual(u) == s.actual(u));
    match s.actual(u) {
        Term::Var(other) => {
            subs::lemma_actual_var(s, u);
            assert(bound.level_var(id) == id);
            assert(s.level_var(id) == id);
            let s1 = s.level_asked(id);
            let b1 = bound.level_asked(id);
            assert(b1.table == s1.table);
            subs::lemma_with_level(s, id, s.level(id));
            subs::lemma_with_level(bound, id, bound.level(id));
            subs::lemma_relevelled_find(s, s1, other);
            subs::lemma_relevelled_find(bound, b1, other);
            assert(s1.level_var(other) == other && b1.level_var(other) == other);
            assert(bound.level_updated(id, other).table == s.level_updated(id, other).table);
        },
        Term::Node(_, kids) => {
            lemma_list_with_type(s, id, t, kids, (fuel - 1) as nat);
        },
    }
}

proof fn lemma_list_with_type<O>(s: Subs<O>, id: u32, t: Term<O>, kids: Seq<Term<O>>, fuel: nat)
    requires
        s.wf(),
        is_own_root(s, id),
        !s.types.contains_key(id),
        t is Node,
        s.occurs_list(id, kids, fuel) is Some,
        !s.occurs_list(id, kids, fuel).unwrap().1,
    ensures
        s.with_type(id, t).occurs_list(id, kids, fuel) == Some(
            (s.occurs_list(id, kids, fuel).unwrap().0.with_type(id, t), false),
        ),
    decreases fuel, 1 + kids.len(),
{
    if kids.len() > 0 {
        lemma_walk_with_type(s, id, t, kids[0], fuel);
        subs::lemma_walk_relevels(s, id, kids[0], fuel);
        let after = s.occurs_walk(id, kids[0], fuel).unwrap().0;
        lemma_list_with_type(after, id, t, kids.drop_first(), fuel);
    }
}

/// Making a variable without constraints and a type that is no variable the same once more gives
/// nothing back and changes nothing.
pub proof fn law_repeated_union_changes_nothing<S, T: Unifiable<S> + Instantiate>(
    s: Subs<T::Op>,
    state: S,
    entries: Seq<(u64, usize)>,
    id: u32,
    t: Term<T::Op>,
    after: Subs<T::Op>,
    outcome: Outcome<T::Op>,
    repeated: Seq<(u64, usize)>,
)
    requires
        s.wf(),
        id < s.size(),
        s.find(id) is None,
        s.table.class(id as usize).constraints.is_empty(),
        fnv_map::enumerates(entries, s.table.class(id as usize).constraints),
        t is Node,
        constraints::unioned_in::<S, T>(s, state, entries, id, t) == Some((after, outcome)),
        !(outcome is Occurs),
    ensures
        outcome == Outcome::Same(None::<Term<T::Op>>),
        after.find(id) == Some(t),
        constraints::unioned_in::<S, T>(after, state, repeated, id, t) == Some(
            (after, Outcome::Same(None::<Term<T::Op>>)),
        ),
        constraints::union_ends::<S, T>(after, state, id, t),
        !after.occurs(id, t).1,
{
    let fuel = choose|fuel: nat| (#[trigger] s.occurs_walk(id, t, fuel)) is Some;
    subs::lemma_occurs_fuel(s, id, t, fuel);
    subs::lemma_walk_relevels(s, id, t, fuel);
    let (s1, found) = s.occurs(id, t);
    subs::lemma_relevelled_find(s, s1, id);
    assert(entries.len() == 0) by {
        if entries.len() > 0 {
            assert(s.table.class(id as usize).constraints.contains_key(entries[0].0));
        }
    }
    assert(after == s1.with_type(id, t));
    lemma_walk_lowers(s, id, t, fuel);
    lemma_walk_settled(s, s1, id, t, fuel);
    lemma_walk_with_type(s1, id, t, t, fuel);
    subs::lemma_occurs_fuel(after, id, t, fuel);
    assert(after.occurs(id, t) == (after, false));
    assert forall|others: Seq<(u64, usize)>| (#[trigger] constraints::unioned_in::<S, T>(
        after,
        state,
        others,
        id,
        t,
    )) == Some((after, Outcome::Same(None::<Term<T::Op>>))) by {}
}

/// No level is above the number of any variable of the class: a variable that another one stands
/// for bounds the level of the class, as that one does.
pub open spec fn bounded_levels<O>(s: Subs<O>) -> bool {
    forall|v: u32| v < s.size() && #[trigger] s.root(v) != v ==> {
        &&& s.table.class(v as usize).level <= v
        &&& s.table.class(v as usize).level <= s.root(v)
    }
}

/// Where levels are bounded, the level of a variable is not above its own number, and variables
/// without a type that stand for the same have the same level.
pub proof fn law_level_is_not_above_the_variable<O>(s: Subs<O>, var: u32, other: u32)
    requires
        s.wf(),
        bounded_levels(s),
        var < s.size(),
        s.resolvable(var),
        other < s.size(),
        s.resolvable(other),
    ensures
        s.level(var) <= var,
        s.root(var) == s.root(other) && !s.types.contains_key(s.root(var)) ==> s.level(var)
            == s.level(other),
{
    assert(s.table.roots[var as int] < s.size());
    assert(s.table.roots[other as int] < s.size());
    assert(s.table.roots[s.root(var) as int] == s.root(var));
    assert(s.table.roots[s.root(other) as int] == s.root(other));
    assert(s.root(var) < s.vars.len() ==> s.vars[s.root(var) as int] == Term::<O>::Var(s.root(var)));
}

/// The levels of a substitution without variables are bounded.
pub proof fn law_empty_has_bounded_levels<O>()
    ensures
        bounded_levels(Subs::<O>::empty()),
{
}

/// Creating variables keeps levels bounded.
pub proof fn law_new_variables_keep_levels_bounded<O>(before: Subs<O>, after: Subs<O>)
    requires
        before.wf(),
        bounded_levels(before),
        after.extends(before),
    ensures
        bounded_levels(after),
{
    assert forall|v: u32| v < after.size() && #[trigger] after.root(v) != v implies after.table.class(
        v as usize,
    ).level <= v && after.table.class(v as usize).level <= after.root(v) by {
        if v < before.size() {
            assert(after.table.roots[v as int] == before.table.roots[v as int]);
            assert(before.root(v) != v);
            assert(before.table.classes.contains_key(before.table.roots[v as int]));
        } else {
            assert(after.table.roots[v as int] == v as usize);
        }
    }
}

/// Giving a variable a type keeps levels bounded.
pub proof fn law_types_keep_levels_bounded<O>(s: Subs<O>, var: u32, t: Term<O>)
    requires
        bounded_levels(s),
    ensures
        bounded_levels(s.with_type(var, t)),
{
    assert forall|v: u32|
        v < s.size() && #[trigger] s.with_type(var, t).root(v) != v implies s.table.class(
        v as usize,
    ).level <= v && s.table.class(v as usize).level <= s.root(v) by {
        assert(s.root(v) != v);
    }
}

/// No level is higher than it was.
pub open spec fn lowers_only<O>(before: Subs<O>, after: Subs<O>) -> bool {
    &&& after.relevelled(before)
    &&& forall|k: usize| #[trigger]
        before.table.classes.contains_key(k) ==> after.table.classes[k].level
            <= before.table.classes[k].level
}

proof fn lemma_lowers_only_keeps_bounded<O>(before: Subs<O>, after: Subs<O>)
    requires
        before.wf(),
        bounded_levels(before),
        lowers_only(before, after),
    ensures
        bounded_levels(after),
{
    assert forall|v: u32| v < after.size() && #[trigger] after.root(v) != v implies after.table.class(
        v as usize,
    ).level <= v && after.table.class(v as usize).level <= after.root(v) by {
        assert(before.root(v) != v);
        assert(before.table.roots[v as int] < before.size());
        assert(before.table.classes.contains_key(before.table.roots[v as int]));
    }
}

/// The variable whose number bounds a level is in the class that it bounds.
proof fn lemma_level_class<O>(s: Subs<O>, var: u32)
    requires
        s.wf(),
        var < s.size(),
        s.resolvable(var),
    ensures
        s.level_var(var) < s.size(),
        s.table.roots[s.level_var(var) as int] == s.table.roots[var as int],
        s.level(var) <= s.table.class(var as usize).level,
        lowers_only(s, s.level_asked(var)),
        s.level_asked(var).table.class(var as usize).level == s.level(var),
{
    subs::lemma_level_var(s, var);
    assert(s.table.roots[var as int] < s.size());
    assert(s.table.roots[s.table.roots[var as int] as int] == s.table.roots[var as int]);
    assert(s.table.classes.contains_key(s.table.roots[var as int]));
    subs::lemma_with_level(s, s.level_var(var), s.level(var));
}

/// Updating a level makes none higher, and leaves each of the two at most as high as the number
/// that bounds it.
proof fn lemma_update_lowers_only<O>(s: Subs<O>, var: u32, other: u32)
    requires
        s.wf(),
        var < s.size(),
        other < s.size(),
        s.resolvable(var),
        s.resolvable(other),
    ensures
        lowers_only(s, s.level_updated(var, other)),
        s.level_updated(var, other).table.class(var as usize).level <= s.level_var(var),
        s.level_updated(var, other).table.class(other as usize).level <= s.level_var(other),
{
    lemma_level_class(s, var);
    let s1 = s.level_asked(var);
    subs::lemma_relevelled_find(s, s1, other);
    lemma_level_class(s1, other);
    let s2 = s1.level_asked(other);
    let level = subs::min_level(s.level(var), s1.level(other));
    subs::lemma_with_level(s2, other, level);
    subs::lemma_level_updated(s, var, other);
    let end = s.level_updated(var, other);
    assert(s.table.classes.contains_key(s.table.roots[var as int])) by {
        assert(s.table.roots[var as int] < s.size());
        assert(s.table.roots[s.table.roots[var as int] as int] == s.table.roots[var as int]);
    }
    assert(s.table.classes.contains_key(s.table.roots[other as int])) by {
        assert(s.table.roots[other as int] < s.size());
        assert(s.table.roots[s.table.roots[other as int] as int] == s.table.roots[other as int]);
    }
    assert(s1.level_var(other) == s.level_var(other));
}

/// Updating a level keeps levels bounded.
pub proof fn law_update_level_keeps_levels_bounded<O>(s: Subs<O>, var: u32, other: u32)
    requires
        s.wf(),
        bounded_levels(s),
        var < s.size(),
        other < s.size(),
        s.resolvable(var),
        s.resolvable(other),
    ensures
        bounded_levels(s.level_updated(var, other)),
        bounded_levels(s.level_asked(var)),
{
    lemma_update_lowers_only(s, var, other);
    lemma_lowers_only_keeps_bounded(s, s.level_updated(var, other));
    lemma_level_class(s, var);
    lemma_lowers_only_keeps_bounded(s, s.level_asked(var));
}

proof fn lemma_walk_lowers_only<O>(s: Subs<O>, id: u32, t: Term<O>, fuel: nat)
    requires
        s.wf(),
        s.occurs_walk(id, t, fuel) is Some,
    ensures
        lowers_only(s, s.occurs_walk(id, t, fuel).unwrap().0),
    decreases fuel, 0nat,
{
    match s.actual(t) {
        Term::Var(other) => {
            subs::lemma_actual_var(s, t);
            if other != id {
                lemma_update_lowers_only(s, id, other);
            }
        },
        Term::Node(_, kids) => {
            lemma_list_lowers_only(s, id, kids, (fuel - 1) as nat);
        },
    }
}

proof fn lemma_list_lowers_only<O>(s: Subs<O>, id: u32, kids: Seq<Term<O>>, fuel: nat)
    requires
        s.wf(),
        s.occurs_list(id, kids, fuel) is Some,
    ensures
        lowers_only(s, s.occurs_list(id, kids, fuel).unwrap().0),
    decreases fuel, 1 + kids.len(),
{
    if kids.len() > 0 {
        lemma_walk_lowers_only(s, id, kids[0], fuel);
        let (after, found) = s.occurs_walk(id, kids[0], fuel).unwrap();
        if !found {
            lemma_list_lowers_only(after, id, kids.drop_first(), fuel);
            let end = s.occurs_list(id, kids, fuel).unwrap().0;
            subs::lemma_relevelled_trans(s, after, end);
            assert forall|k: usize| #[trigger]
                s.table.classes.contains_key(k) implies end.table.classes[k].level
                <= s.table.classes[k].level by {
                assert(after.table.classes.contains_key(k));
            }
        }
    }
}

/// Joining two classes keeps levels bounded where the level of each is not above the number of the
/// variable that stands for it.
proof fn lemma_united_keeps_bounded<O>(s: Subs<O>, a: u32, b: u32)
    requires
        s.wf(),
        bounded_levels(s),
        a < s.size(),
        b < s.size(),
        s.table.class(a as usize).level <= s.root(a),
        s.table.class(b as usize).level <= s.root(b),
    ensures
        bounded_levels(s.united(a, b)),
{
    let after = s.united(a, b);
    subs::lemma_united_wf(s, a, b);
    assert(s.table.roots[a as int] < s.size());
    assert(s.table.roots[b as int] < s.size());
    assert forall|v: u32| v < after.size() && #[trigger] after.root(v) != v implies after.table.class(
        v as usize,
    ).level <= v && after.table.class(v as usize).level <= after.root(v) by {
        assert(s.table.roots[v as int] < s.size());
        assert(s.table.roots[s.root(v) as int] == s.root(v));
        if s.root(v) != v {
        }
    }
}

/// However the attempt to make a variable and a type the same ends, it keeps levels bounded, as
/// long as the type is no variable that has a type itself.
pub proof fn law_union_keeps_levels_bounded<S, T: Unifiable<S> + Instantiate>(
    s: Subs<T::Op>,
    state: S,
    entries: Seq<(u64, usize)>,
    id: u32,
    t: Term<T::Op>,
    after: Subs<T::Op>,
    outcome: Outcome<T::Op>,
)
    requires
        s.wf(),
        bounded_levels(s),
        t is Var ==> s.actual(t) is Var,
        constraints::unioned_in::<S, T>(s, state, entries, id, t) == Some((after, outcome)),
    ensures
        bounded_levels(after),
{
    if t != Term::<T::Op>::Var(id) {
        let fuel = choose|fuel: nat| (#[trigger] s.occurs_walk(id, t, fuel)) is Some;
        subs::lemma_occurs_fuel(s, id, t, fuel);
        subs::lemma_walk_relevels(s, id, t, fuel);
        lemma_walk_lowers_only(s, id, t, fuel);
        let (s1, found) = s.occurs(id, t);
        lemma_lowers_only_keeps_bounded(s, s1);
        if !found {
            if s1.find(id) == Some(s1.actual(t)) || s1.actual(t) == Term::<T::Op>::Var(id) {
            } else if let Term::Var(other) = t {
                let r = s.actual(t)->Var_0;
                subs::lemma_actual_var(s, t);
                assert(s1 == s.level_updated(id, r));
                lemma_update_lowers_only(s, id, r);
                lemma_root_bounds(s, s1, id);
                lemma_root_bounds(s, s1, r);
                assert(s.table.roots[other as int] < s.size());
                assert(s.table.roots[s.root(other) as int] == s.root(other));
                assert(s.root(other) == s.root(r));
                lemma_united_keeps_bounded(s1, id, other);
                let s2 = s1.united(id, other);
                subs::lemma_united_wf(s1, id, other);
                law_update_level_keeps_levels_bounded(s2, id, other);
                subs::lemma_level_updated(s2, id, other);
                let s3 = s2.level_updated(id, other);
                subs::lemma_relevelled_find(s2, s3, id);
                subs::lemma_relevelled_find(s2, s3, other);
                law_update_level_keeps_levels_bounded(s3, other, id);
            } else {
                constraints::lemma_resolved_extends::<S, T>(s1, state, entries, t, false);
                constraints::lemma_candidate_is_no_variable::<S, T>(s1, state, entries, t, false);
                let (s2, resolved) = constraints::resolved_in::<S, T>(
                    s1,
                    state,
                    entries,
                    t,
                    false,
                ).unwrap();
                law_new_variables_keep_levels_bounded(s1, s2);
                if let Outcome::Same(candidate) = resolved {
                    law_types_keep_levels_bounded(
                        s2,
                        id,
                        match candidate {
                            Some(c) => c,
                            None => t,
                        },
                    );
                }
            }
        }
    }
}

/// A level that was asked for is not above the number of the variable that stands for the class.
proof fn lemma_root_bounds<O>(s: Subs<O>, s1: Subs<O>, v: u32)
    requires
        s.wf(),
        v < s.size(),
        s.resolvable(v),
        s1.relevelled(s),
        bounded_levels(s1),
        s1.table.class(v as usize).level <= s.level_var(v),
    ensures
        s1.table.class(v as usize).level <= s1.root(v),
{
    assert(s.table.roots[v as int] < s.size());
    if s1.root(v) == v {
        assert(s.level_var(v) == v);
    }
}

} // verus!
