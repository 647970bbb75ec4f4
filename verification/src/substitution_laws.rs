//! What holds of substitutions whatever is done with them.
use vstd::prelude::*;
use crate::subs;
use crate::subs::Subs;
use crate::term::Term;
use crate::union_table;
use crate::union_table::Table;

verus! {

/// Two keys are in one class after a union exactly if they were in one before, or each was in one
/// of the two classes that were joined.
pub proof fn law_union_joins_two_classes(t: Table, a: usize, b: usize, x: usize, y: usize)
    requires
        t.wf(),
        a < t.roots.len(),
        b < t.roots.len(),
        x < t.roots.len(),
        y < t.roots.len(),
    ensures
        t.united(a, b).roots[x as int] == t.united(a, b).roots[y as int] <==> {
            ||| t.roots[x as int] == t.roots[y as int]
            ||| t.roots[x as int] == t.roots[a as int] && t.roots[y as int] == t.roots[b as int]
            ||| t.roots[x as int] == t.roots[b as int] && t.roots[y as int] == t.roots[a as int]
        },
{
}

/// The variable of the class with the lower level goes on to stand for both classes.
pub proof fn law_lower_level_stands_for_both(t: Table, a: usize, b: usize)
    requires
        t.wf(),
        a < t.roots.len(),
        b < t.roots.len(),
        t.class(a).level < t.class(b).level,
    ensures
        t.united(a, b).roots[a as int] == t.roots[a as int],
        t.united(a, b).roots[b as int] == t.roots[a as int],
        t.united(b, a).roots[a as int] == t.roots[a as int],
        t.united(b, a).roots[b as int] == t.roots[a as int],
        t.united(a, b).class(b).level == t.class(a).level,
{
}

/// Between two new classes the first one named goes on to stand for both.
pub proof fn law_first_of_equals_stands_for_both(t: Table, a: usize, b: usize)
    requires
        t.wf(),
        a < t.roots.len(),
        b < t.roots.len(),
        t.class(a).level == t.class(b).level,
        t.class(a).rank == t.class(b).rank,
    ensures
        t.united(a, b).roots[a as int] == t.roots[a as int],
        t.united(a, b).roots[b as int] == t.roots[a as int],
{
}

/// What is demanded of one of two classes is demanded of both once they are joined.
pub proof fn law_joined_classes_keep_constraints(t: Table, a: usize, b: usize, name: u64)
    requires
        t.wf(),
        a < t.roots.len(),
        b < t.roots.len(),
    ensures
        t.united(a, b).class(a) == t.united(a, b).class(b),
        t.united(a, b).class(a).constraints.contains_key(name) <==> t.class(
            a,
        ).constraints.contains_key(name) || t.class(b).constraints.contains_key(name),
{
}

/// A new variable stands for itself, and the substitution knows nothing of it.
pub proof fn law_new_variable_is_unknown<O>(
    s: Subs<O>,
    constraint: Option<(u64, Seq<Term<O>>)>,
)
    requires
        s.wf(),
        s.vars.len() == s.size() < union_table::max_keys(),
        !s.types.contains_key(s.vars.len() as u32),
    ensures
        s.with_var(constraint).find(s.vars.len() as u32) is None,
        s.with_var(constraint).actual(Term::Var(s.vars.len() as u32)) == Term::<O>::Var(
            s.vars.len() as u32,
        ),
{
}

/// A new variable does not change what the others stand for.
pub proof fn law_new_variable_changes_no_other<O>(
    s: Subs<O>,
    constraint: Option<(u64, Seq<Term<O>>)>,
    var: u32,
)
    requires
        s.wf(),
        s.vars.len() == s.size() < union_table::max_keys(),
        var < s.size(),
    ensures
        s.with_var(constraint).find(var) == s.find(var),
{
    assert(s.table.roots[var as int] < s.size());
}

/// What a term stands for stands for itself.
pub proof fn law_actual_is_stable<O>(s: Subs<O>, t: Term<O>)
    requires
        s.wf(),
        s.askable(t),
    ensures
        s.actual(s.actual(t)) == s.actual(t),
{
    if s.actual(t) is Var {
        subs::lemma_actual_var(s, t);
    }
}

/// A level that was asked for once is the same when it is asked for again, and asking again
/// changes nothing.
pub proof fn law_level_is_stable<O>(s: Subs<O>, var: u32)
    requires
        s.wf(),
        var < s.size(),
        s.resolvable(var),
    ensures
        s.level_asked(var).level(var) == s.level(var),
        s.level_asked(var).level_asked(var) == s.level_asked(var),
        s.level(var) <= s.level_var(var),
{
    subs::lemma_level_var(s, var);
    subs::lemma_with_level(s, s.level_var(var), s.level(var));
    let after = s.level_asked(var);
    subs::lemma_relevelled_find(s, after, var);
    assert(after.level_var(var) == s.level_var(var));
    assert(after.level_asked(var) =~= after);
}

/// Lowering a level gives `other` the lower of the two levels.
pub proof fn law_update_level_takes_the_lower<O>(s: Subs<O>, var: u32, other: u32)
    requires
        s.wf(),
        var < s.size(),
        other < s.size(),
        s.resolvable(var),
        s.resolvable(other),
    ensures
        s.level_updated(var, other).level(other) == subs::min_level(s.level(var), s.level(other)),
{
    subs::lemma_level_var(s, var);
    subs::lemma_with_level(s, s.level_var(var), s.level(var));
    let s1 = s.level_asked(var);
    subs::lemma_relevelled_find(s, s1, other);
    subs::lemma_level_var(s1, other);
    subs::lemma_with_level(s1, s1.level_var(other), s1.level(other));
    let s2 = s1.level_asked(other);
    subs::lemma_relevelled_find(s1, s2, other);
    let end = s.level_updated(var, other);
    subs::lemma_with_level(s2, other, subs::min_level(s.level(var), s1.level(other)));
    subs::lemma_relevelled_find(s2, end, other);
    lemma_level_var_root(s, var);
    lemma_level_var_root(s, other);
    assert(s.table.roots[other as int] < s.size());
    assert(s.table.classes.contains_key(s.table.roots[other as int]));
}

/// The variable whose number bounds a level is in the class that it bounds.
proof fn lemma_level_var_root<O>(s: Subs<O>, var: u32)
    requires
        s.wf(),
        var < s.size(),
        s.resolvable(var),
    ensures
        s.table.roots[s.level_var(var) as int] == s.table.roots[var as int],
{
    assert(s.table.roots[var as int] < s.size());
    assert(s.table.roots[s.table.roots[var as int] as int] == s.table.roots[var as int]);
}

/// The variable `id` can be come upon in no more than `n` steps from `t` into what it stands for.
pub open spec fn reaches<O>(s: Subs<O>, t: Term<O>, id: u32, n: nat) -> bool
    decreases n,
{
    n > 0 && match s.actual(t) {
        Term::Var(v) => v == id,
        Term::Node(_, kids) => exists|i: int|
            0 <= i < kids.len() && reaches(s, #[trigger] kids[i], id, (n - 1) as nat),
    }
}

/// The variable `id` occurs in what `t` stands for.
pub open spec fn occurs_in<O>(s: Subs<O>, id: u32, t: Term<O>) -> bool {
    exists|n: nat| #[trigger] reaches(s, t, id, n)
}

/// Levels do not decide what occurs where.
pub proof fn lemma_reaches_relevelled<O>(before: Subs<O>, after: Subs<O>, t: Term<O>, id: u32, n: nat)
    requires
        after.relevelled(before),
    ensures
        reaches(after, t, id, n) == reaches(before, t, id, n),
    decreases n,
{
    if let Term::Var(v) = t {
        subs::lemma_relevelled_find(before, after, v);
    }
    assert(after.actual(t) == before.actual(t));
    if n > 0 {
        if let Term::Node(_, kids) = before.actual(t) {
            assert forall|i: int| 0 <= i < kids.len() implies reaches(
                after,
                #[trigger] kids[i],
                id,
                (n - 1) as nat,
            ) == reaches(before, kids[i], id, (n - 1) as nat) by {
                lemma_reaches_relevelled(before, after, kids[i], id, (n - 1) as nat);
            }
            assert(reaches(after, t, id, n) ==> reaches(before, t, id, n)) by {
                if reaches(after, t, id, n) {
                    let i = choose|i: int|
                        0 <= i < kids.len() && reaches(after, #[trigger] kids[i], id, (n - 1) as nat);
                    assert(reaches(before, kids[i], id, (n - 1) as nat));
                }
            }
            assert(reaches(before, t, id, n) ==> reaches(after, t, id, n)) by {
                if reaches(before, t, id, n) {
                    let i = choose|i: int|
                        0 <= i < kids.len() && reaches(before, #[trigger] kids[i], id, (n - 1) as nat);
                    assert(reaches(after, kids[i], id, (n - 1) as nat));
                }
            }
        }
    }
}

/// A variable that can be come upon in some steps can be come upon in more.
proof fn lemma_reaches_more<O>(s: Subs<O>, t: Term<O>, id: u32, n: nat, more: nat)
    requires
        reaches(s, t, id, n),
        n <= more,
    ensures
        reaches(s, t, id, more),
    decreases n,
{
    if let Term::Node(_, kids) = s.actual(t) {
        let i = choose|i: int|
            0 <= i < kids.len() && reaches(s, #[trigger] kids[i], id, (n - 1) as nat);
        lemma_reaches_more(s, kids[i], id, (n - 1) as nat, (more - 1) as nat);
    }
}

proof fn lemma_walk_reaches<O>(s: Subs<O>, id: u32, t: Term<O>, fuel: nat)
    requires
        s.wf(),
        s.occurs_walk(id, t, fuel) is Some,
    ensures
        s.occurs_walk(id, t, fuel).unwrap().1 ==> reaches(s, t, id, fuel),
        !s.occurs_walk(id, t, fuel).unwrap().1 ==> forall|n: nat| !#[trigger] reaches(s, t, id, n),
    decreases fuel, 0nat,
{
    if let Term::Node(_, kids) = s.actual(t) {
        let depth = (fuel - 1) as nat;
        lemma_list_reaches(s, id, kids, depth);
        let found = s.occurs_list(id, kids, depth).unwrap().1;
        if !found {
            assert forall|n: nat| !#[trigger] reaches(s, t, id, n) by {
                if reaches(s, t, id, n) {
                    let i = choose|i: int|
                        0 <= i < kids.len() && reaches(s, #[trigger] kids[i], id, (n - 1) as nat);
                    assert(!reaches(s, kids[i], id, (n - 1) as nat));
                }
            }
        }
    }
}

proof fn lemma_list_reaches<O>(s: Subs<O>, id: u32, kids: Seq<Term<O>>, fuel: nat)
    requires
        s.wf(),
        s.occurs_list(id, kids, fuel) is Some,
    ensures
        s.occurs_list(id, kids, fuel).unwrap().1 ==> exists|i: int|
            0 <= i < kids.len() && reaches(s, #[trigger] kids[i], id, fuel),
        !s.occurs_list(id, kids, fuel).unwrap().1 ==> forall|i: int, n: nat|
            0 <= i < kids.len() ==> !#[trigger] reaches(s, kids[i], id, n),
    decreases fuel, 1 + kids.len(),
{
    if kids.len() > 0 {
        lemma_walk_reaches(s, id, kids[0], fuel);
        subs::lemma_walk_relevels(s, id, kids[0], fuel);
        let (after, found) = s.occurs_walk(id, kids[0], fuel).unwrap();
        if !found {
            let rest = kids.drop_first();
            lemma_list_reaches(after, id, rest, fuel);
            if s.occurs_list(id, kids, fuel).unwrap().1 {
                let i = choose|i: int|
                    0 <= i < rest.len() && reaches(after, #[trigger] rest[i], id, fuel);
                lemma_reaches_relevelled(s, after, rest[i], id, fuel);
                assert(reaches(s, kids[i + 1], id, fuel));
            } else {
                assert forall|i: int, n: nat| 0 <= i < kids.len() implies !#[trigger] reaches(
                    s,
                    kids[i],
                    id,
                    n,
                ) by {
                    if i > 0 {
                        lemma_reaches_relevelled(s, after, kids[i], id, n);
                        assert(rest[i - 1] == kids[i]);
                        assert(!reaches(after, rest[i - 1], id, n));
                    }
                }
            }
        }
    }
}

/// The check for occurrence finds a variable exactly if it occurs in what the type stands for.
pub proof fn law_occurs_check_is_exact<O>(s: Subs<O>, id: u32, t: Term<O>)
    requires
        s.wf(),
        s.walk_ends(id, t),
    ensures
        s.occurs(id, t).1 <==> occurs_in(s, id, t),
{
    let fuel = choose|fuel: nat| (#[trigger] s.occurs_walk(id, t, fuel)) is Some;
    subs::lemma_occurs_fuel(s, id, t, fuel);
    lemma_walk_reaches(s, id, t, fuel);
    if s.occurs(id, t).1 {
        assert(reaches(s, t, id, fuel));
    }
}

} // verus!
