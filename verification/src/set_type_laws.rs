//! What replacing the variables of a type by what they stand for does to it.
use vstd::prelude::*;
use crate::alias;
use crate::inference;
use crate::inference_laws;
use crate::match_laws;
use crate::subs;
use crate::subs::Subs;
use crate::term::Term;
use crate::types::Op;

verus! {

/// Each of the types with its variables replaced.
pub open spec fn each_substituted(s: Subs<Op>, kids: Seq<Term<Op>>) -> Seq<Term<Op>> {
    Seq::new(kids.len(), |i: int| inference::fully_substituted(s, kids[i]))
}

/// The type is something applied to something, as it is written.
pub open spec fn applies(t: Term<Op>) -> bool {
    t matches Term::Node(op, kids) && op == Op::App && kids.len() > 0
}

/// Nothing that is applied in the type is itself something applied.
pub open spec fn is_flat(t: Term<Op>) -> bool
    decreases t,
{
    match t {
        Term::Var(_) => true,
        Term::Node(op, kids) => {
            &&& op == Op::App && kids.len() > 0 ==> !applies(kids[0])
            &&& forall|i: int| 0 <= i < kids.len() ==> is_flat(#[trigger] kids[i])
        },
    }
}

/// The replacement of the operands of a type that is no variable.
proof fn lemma_operands(s: Subs<Op>, op: Op, kids: Seq<Term<Op>>)
    requires
        inference::substitution_ends(s, Term::Node(op, kids)),
    ensures
        inference::fully_substituted(s, Term::Node(op, kids)) == inference::unrolled(
            Term::Node(op, each_substituted(s, kids)),
        ),
        forall|i: int|
            0 <= i < kids.len() ==> inference::substitution_ends(s, #[trigger] kids[i]),
{
    let t = Term::Node(op, kids);
    let fuel = choose|fuel: nat| (#[trigger] inference::substituted(s, t, fuel)) is Some;
    let depth = (fuel - 1) as nat;
    assert(s.actual(t) == t);
    inference::lemma_fully_substituted(s, t, fuel);
    inference::lemma_substituted_list_parts(s, kids, depth);
    let found = inference::substituted_list(s, kids, depth).unwrap();
    assert forall|i: int| 0 <= i < kids.len() implies inference::substitution_ends(
        s,
        #[trigger] kids[i],
    ) && found[i] == inference::fully_substituted(s, kids[i]) by {
        inference::lemma_fully_substituted(s, kids[i], depth);
    }
    assert(found =~= each_substituted(s, kids));
}

/// Setting the type of anything but a variable or an application keeps the operator and the number
/// of the operands, and sets the type of each of them.
pub proof fn law_set_type_keeps_operators(s: Subs<Op>, op: Op, kids: Seq<Term<Op>>)
    requires
        inference::substitution_ends(s, Term::Node(op, kids)),
        op != Op::App,
    ensures
        inference::fully_substituted(s, Term::Node(op, kids)) == Term::Node(
            op,
            each_substituted(s, kids),
        ),
{
    lemma_operands(s, op, kids);
}

/// Setting the type of an application sets the type of what is applied and of the arguments. Where
/// an application is applied then, its arguments come before the others, all as one application.
pub proof fn law_set_type_joins_applications(s: Subs<Op>, kids: Seq<Term<Op>>)
    requires
        inference::substitution_ends(s, Term::Node(Op::App, kids)),
    ensures
        ({
            let parts = each_substituted(s, kids);
            let found = inference::fully_substituted(s, Term::Node(Op::App, kids));
            if parts.len() > 0 && applies(parts[0]) {
                let all = parts[0]->Node_1 + parts.drop_first();
                found == if all.len() == 1 {
                    all[0]
                } else {
                    Term::Node(Op::App, all)
                }
            } else {
                found == Term::Node(Op::App, parts)
            }
        }),
{
    lemma_operands(s, Op::App, kids);
    let parts = each_substituted(s, kids);
    let whole = Term::Node(Op::App, parts);
    if parts.len() > 0 && applies(parts[0]) {
        law_set_type_leaves_no_nested_application(s, kids[0]);
        let inner = parts[0]->Node_1;
        assert(!applies(inner[0]));
        assert(inference::applied_head(inner[0]) == inner[0]);
        assert(inference::applied_head(parts[0]) == inner[0]);
        assert(alias::unapplied_args(inner[0]) =~= Seq::empty());
        assert(alias::unapplied_args(parts[0]) =~= inner.drop_first());
        assert(seq![inference::applied_head(whole)] + alias::unapplied_args(whole) =~= inner
            + parts.drop_first());
    }
}

/// What is applied after all applications is not applied to anything.
proof fn lemma_head_is_flat(t: Term<Op>)
    requires
        t is Node ==> forall|i: int| 0 <= i < t->Node_1.len() ==> is_flat(#[trigger] t->Node_1[i]),
    ensures
        !applies(inference::applied_head(t)),
        is_flat(inference::applied_head(t)),
        forall|i: int|
            0 <= i < alias::unapplied_args(t).len() ==> is_flat(
                #[trigger] alias::unapplied_args(t)[i],
            ),
    decreases t,
{
    if applies(t) {
        let kids = t->Node_1;
        assert(is_flat(kids[0]));
        lemma_head_is_flat(kids[0]);
        let first = alias::unapplied_args(kids[0]);
        let rest = kids.drop_first();
        assert forall|i: int| 0 <= i < alias::unapplied_args(t).len() implies is_flat(
            #[trigger] alias::unapplied_args(t)[i],
        ) by {
            assert(alias::unapplied_args(t) == first + rest);
            if i >= first.len() {
                assert(rest[i - first.len()] == kids[i - first.len() + 1]);
            }
        }
    }
}

/// A type that was set has no application in it that is itself applied.
pub proof fn law_set_type_leaves_no_nested_application(s: Subs<Op>, t: Term<Op>)
    requires
        inference::substitution_ends(s, t),
    ensures
        is_flat(inference::fully_substituted(s, t)),
{
    let fuel = choose|fuel: nat| (#[trigger] inference::substituted(s, t, fuel)) is Some;
    lemma_flat(s, t, fuel);
}

proof fn lemma_flat(s: Subs<Op>, t: Term<Op>, fuel: nat)
    requires
        inference::substituted(s, t, fuel) is Some,
    ensures
        is_flat(inference::substituted(s, t, fuel).unwrap()),
    decreases fuel,
{
    if let Term::Node(op, kids) = s.actual(t) {
        let depth = (fuel - 1) as nat;
        inference::lemma_substituted_list_parts(s, kids, depth);
        let found = inference::substituted_list(s, kids, depth).unwrap();
        assert forall|i: int| 0 <= i < found.len() implies is_flat(#[trigger] found[i]) by {
            assert(inference::substituted(s, kids[i], depth) == Some(found[i]));
            lemma_flat(s, kids[i], depth);
        }
        let whole = Term::Node(op, found);
        if op == Op::App && found.len() > 0 && applies(found[0]) {
            lemma_head_is_flat(whole);
            let parts = seq![inference::applied_head(whole)] + alias::unapplied_args(whole);
            assert forall|i: int| 0 <= i < parts.len() implies is_flat(#[trigger] parts[i]) by {
                if i > 0 {
                    assert(parts[i] == alias::unapplied_args(whole)[i - 1]);
                }
            }
        }
    }
}

/// Setting the type of a variable sets that of what it stands for; a variable of which nothing is
/// known stays.
pub proof fn law_set_type_follows_variables(s: Subs<Op>, v: u32)
    requires
        s.wf(),
        inference::substitution_ends(s, Term::Var(v)),
    ensures
        match s.find(v) {
            Some(found) => inference::substitution_ends(s, found)
                && inference::fully_substituted(s, Term::Var(v)) == inference::fully_substituted(
                s,
                found,
            ),
            None => inference::fully_substituted(s, Term::Var(v)) == Term::<Op>::Var(v),
        },
{
    let t = Term::<Op>::Var(v);
    let fuel = choose|fuel: nat| (#[trigger] inference::substituted(s, t, fuel)) is Some;
    inference::lemma_fully_substituted(s, t, fuel);
    if let Some(found) = s.find(v) {
        if found is Var {
            subs::lemma_actual_var(s, t);
        }
        assert(s.actual(found) == found);
        assert(inference::substituted(s, found, fuel) == inference::substituted(s, t, fuel));
        inference::lemma_fully_substituted(s, found, fuel);
    }
}

/// A type whose variables are all unknown, and in which no application is itself applied, stays as
/// it is; one without variables does so under every substitution.
pub proof fn law_set_type_changes_variables_only(s: Subs<Op>, t: Term<Op>)
    requires
        match_laws::all_unknown(s, t),
        is_flat(t),
    ensures
        inference::substitution_ends(s, t),
        inference::fully_substituted(s, t) == t,
{
    let fuel = lemma_unchanged(s, t);
    inference::lemma_fully_substituted(s, t, fuel);
}

proof fn lemma_unchanged(s: Subs<Op>, t: Term<Op>) -> (fuel: nat)
    requires
        match_laws::all_unknown(s, t),
        is_flat(t),
    ensures
        inference::substituted(s, t, fuel) == Some(t),
    decreases t,
{
    match t {
        Term::Var(v) => {
            assert(t.mentions(v));
            1
        },
        Term::Node(op, kids) => {
            assert forall|i: int| 0 <= i < kids.len() implies match_laws::all_unknown(
                s,
                #[trigger] kids[i],
            ) by {
                assert forall|v: u32| #[trigger] kids[i].mentions(v) implies s.find(v) is None
                    && s.resolvable(v) by {
                    assert(t.mentions(v));
                }
            }
            let depth = lemma_unchanged_list(s, kids);
            if op == Op::App && kids.len() > 0 {
                assert(!applies(kids[0]));
            }
            depth + 1
        },
    }
}

proof fn lemma_unchanged_list(s: Subs<Op>, kids: Seq<Term<Op>>) -> (fuel: nat)
    requires
        forall|i: int|
            0 <= i < kids.len() ==> match_laws::all_unknown(s, #[trigger] kids[i]) && is_flat(
                kids[i],
            ),
    ensures
        inference::substituted_list(s, kids, fuel) == Some(kids),
    decreases kids,
{
    if kids.len() == 0 {
        assert(kids =~= Seq::empty());
        0
    } else {
        let last = kids.len() - 1;
        assert(match_laws::all_unknown(s, kids[last]));
        let one = lemma_unchanged(s, kids[last]);
        let rest = kids.drop_last();
        assert forall|i: int| 0 <= i < rest.len() implies match_laws::all_unknown(
            s,
            #[trigger] rest[i],
        ) && is_flat(rest[i]) by {
            assert(match_laws::all_unknown(s, kids[i]));
        }
        let others = lemma_unchanged_list(s, rest);
        let fuel = if one < others {
            others
        } else {
            one
        };
        inference::lemma_substituted_fuel(s, kids[last], one, fuel);
        inference::lemma_substituted_list_fuel(s, rest, others, fuel);
        assert(rest.push(kids.last()) =~= kids);
        fuel
    }
}

/// Setting a type once more changes nothing.
pub proof fn law_set_type_twice_is_once(s: Subs<Op>, t: Term<Op>)
    requires
        s.wf(),
        s.vars.len() == s.size(),
        inference::substitution_ends(s, t),
    ensures
        inference::substitution_ends(s, inference::fully_substituted(s, t)),
        inference::fully_substituted(s, inference::fully_substituted(s, t))
            == inference::fully_substituted(s, t),
{
    let found = inference::fully_substituted(s, t);
    law_set_type_leaves_no_nested_application(s, t);
    assert forall|v: u32| #[trigger] found.mentions(v) implies s.find(v) is None && s.resolvable(
        v,
    ) by {
        inference_laws::law_set_type_leaves_unknowns_only(s, t, v);
        if v < s.size() {
            assert(s.table.roots[v as int] < s.size());
        }
    }
    law_set_type_changes_variables_only(s, found);
}

/// A variable that stands for a type without variables, in which no application is itself applied,
/// is replaced by that type wherever it stands: in every operand of a type that is no application.
pub proof fn law_set_type_fills_in(s: Subs<Op>, op: Op, kids: Seq<Term<Op>>, i: int, v: u32)
    requires
        s.wf(),
        op != Op::App,
        inference::substitution_ends(s, Term::Node(op, kids)),
        0 <= i < kids.len(),
        kids[i] == Term::<Op>::Var(v),
        s.find(v) matches Some(found) && match_laws::closed(found) && is_flat(found),
    ensures
        inference::fully_substituted(s, Term::Node(op, kids)) matches Term::Node(same, found)
            && same == op && found.len() == kids.len() && Some(found[i]) == s.find(v),
{
    lemma_operands(s, op, kids);
    law_set_type_keeps_operators(s, op, kids);
    assert(inference::substitution_ends(s, kids[i]));
    law_set_type_follows_variables(s, v);
    law_set_type_changes_variables_only(s, s.find(v).unwrap());
}

} // verus!
