//! What becomes of type variables: new ones, known ones, joined ones and those that stand for
//! generics.
use vstd::prelude::*;
use crate::acyclic;
use crate::alias;
use crate::constraints;
use crate::constraints::{Instantiate, Outcome};
use crate::inference;
use crate::inference_laws;
use crate::match_laws;
use crate::rewrite;
use crate::subs;
use crate::subs::Subs;
use crate::substitution;
use crate::substitution::{Constraints, Error};
use crate::symbol::SymbolModel;
use crate::term::Term;
use crate::text::Show;
use crate::type_laws;
use crate::types::{Op, Type};
use crate::union_table;
use crate::union_table::Table;

verus! {

/// Where both of two joined classes have a constraint of one name, that of the second one counts;
/// any other constraint stays with its candidates.
pub proof fn law_constraints_of_joined_classes(t: Table, a: usize, b: usize, name: u64)
    requires
        t.wf(),
        a < t.roots.len(),
        b < t.roots.len(),
        t.roots[a as int] != t.roots[b as int],
    ensures
        t.class(b).constraints.contains_key(name) ==> t.united(a, b).class(a).constraints[name]
            == t.class(b).constraints[name],
        !t.class(b).constraints.contains_key(name) && t.class(a).constraints.contains_key(name)
            ==> t.united(a, b).class(a).constraints[name] == t.class(a).constraints[name],
{
}

/// A joined class has the lower of the levels. Its rank is the higher of the ranks, and one more
/// where they are the same.
pub proof fn law_levels_and_ranks_of_joined_classes(t: Table, a: usize, b: usize)
    requires
        t.wf(),
        a < t.roots.len(),
        b < t.roots.len(),
        t.roots[a as int] != t.roots[b as int],
    ensures
        ({
            let left = t.class(a);
            let right = t.class(b);
            let both = t.united(a, b).class(a);
            &&& both.level <= left.level && both.level <= right.level
            &&& both.level == left.level || both.level == right.level
            &&& left.rank < right.rank ==> both.rank == right.rank
            &&& right.rank < left.rank ==> both.rank == left.rank
            &&& left.rank == right.rank && left.rank < u8::MAX ==> both.rank == left.rank + 1
        }),
{
}

/// Between classes of one level the one with the higher rank goes on to stand for both.
pub proof fn law_higher_rank_stands_for_both(t: Table, a: usize, b: usize)
    requires
        t.wf(),
        a < t.roots.len(),
        b < t.roots.len(),
        t.class(a).level == t.class(b).level,
        t.class(b).rank < t.class(a).rank,
    ensures
        t.united(a, b).roots[b as int] == t.roots[a as int],
        t.united(b, a).roots[b as int] == t.roots[a as int],
{
}

/// A union changes no class but the two that are joined, and uniting what is one class changes
/// nothing.
pub proof fn law_other_classes_stay(t: Table, a: usize, b: usize, x: usize)
    requires
        t.wf(),
        a < t.roots.len(),
        b < t.roots.len(),
        x < t.roots.len(),
    ensures
        t.united(a, b).roots.len() == t.roots.len(),
        t.roots[x as int] != t.roots[a as int] && t.roots[x as int] != t.roots[b as int] ==> {
            &&& t.united(a, b).roots[x as int] == t.roots[x as int]
            &&& t.united(a, b).class(x) == t.class(x)
        },
        t.roots[a as int] == t.roots[b as int] ==> t.united(a, b) == t,
{
}

/// A type that is inserted for a variable is found for all variables that it stands for, and for
/// no other.
pub proof fn law_inserted_types_are_found<O>(s: Subs<O>, id: u32, t: Term<O>, v: u32)
    requires
        s.wf(),
        id < s.size(),
        s.root(id) == id,
    ensures
        v < s.size() && s.root(v) == id ==> s.with_type(id, t).find(v) == Some(t),
        v >= s.size() || s.root(v) != id ==> s.with_type(id, t).find(v) == s.find(v),
{
}

/// Of a variable that is not known, another variable that stands for it is found; one that stands
/// for itself stays unknown, and so do variables that do not exist.
pub proof fn law_unknown_variables<O>(s: Subs<O>, v: u32)
    requires
        s.wf(),
        s.vars.len() == s.size(),
        v < s.size() ==> !s.types.contains_key(s.root(v)),
    ensures
        v >= s.size() ==> s.find(v) is None,
        v < s.size() && s.root(v) == v ==> s.find(v) is None,
        v < s.size() && s.root(v) != v ==> s.find(v) == Some(Term::<O>::Var(s.root(v))),
{
    if v < s.size() {
        assert(s.table.roots[v as int] < s.size());
        assert(s.vars[s.root(v) as int] == Term::<O>::Var(s.root(v)));
    }
}

/// Two variables that were joined are known as the same.
pub proof fn law_joined_variables_are_the_same<O>(s: Subs<O>, a: u32, b: u32)
    requires
        s.wf(),
        s.vars.len() == s.size(),
        a < s.size(),
        b < s.size(),
    ensures
        s.united(a, b).actual(Term::Var(a)) == s.united(a, b).actual(Term::Var(b)),
{
    let after = s.united(a, b);
    subs::lemma_united_wf(s, a, b);
    assert(s.table.roots[a as int] < s.size());
    assert(s.table.roots[b as int] < s.size());
    assert(after.root(a) == after.root(b));
    assert(after.table.roots[a as int] < after.size());
    let r = after.root(a);
    assert(after.vars[r as int] == Term::<O>::Var(r));
}

/// The class of two unknown variables that were made the same remembers the lowest of the levels
/// of both and of the number of the variable that goes on to stand for it.
pub proof fn law_joined_variables_share_the_lowest_level(s: Subs<Op>, a: u32, b: u32, after: Subs<Op>)
    requires
        s.wf(),
        s.vars.len() == s.size(),
        a < s.size(),
        b < s.size(),
        s.root(a) != s.root(b),
        !s.types.contains_key(s.root(a)),
        !s.types.contains_key(s.root(b)),
        constraints::bound(s, a, Term::Var(b)) == Some(after),
    ensures
        after.root(a) == after.root(b),
        ({
            let level = after.table.class(a as usize).level;
            let left = s.table.class(a as usize).level;
            let right = s.table.class(b as usize).level;
            let root = after.root(a);
            &&& level <= left && level <= right && level <= root
            &&& level == left || level == right || level == root
        }),
        forall|v: u32| after.root(v) == #[trigger] s.united(a, b).root(v),
{
    let s1 = s.united(a, b);
    subs::lemma_united_wf(s, a, b);
    assert(s.table.roots[a as int] < s.size());
    assert(s.table.roots[b as int] < s.size());
    let r = s1.root(a);
    assert(s1.root(b) == r);
    assert(s1.table.roots[a as int] < s1.size());
    assert(s1.table.roots[r as int] == r);
    assert(s1.vars[r as int] == Term::<Op>::Var(r));
    assert(r == s.root(a) || r == s.root(b));
    lemma_one_class(s1, a, b, r);
    let s2 = s1.level_updated(a, b);
    assert(s2.vars[r as int] == Term::<Op>::Var(r));
    assert(s2.wf() && s2.table.roots == s1.table.roots) by {
        subs::lemma_level_updated(s1, a, b);
    }
    lemma_one_class(s2, b, a, r);
}

/// Updating levels within one unknown class gives the class the lower one of its level and of its
/// variable.
proof fn lemma_one_class(s: Subs<Op>, a: u32, b: u32, r: u32)
    requires
        s.wf(),
        s.vars.len() == s.size(),
        a < s.size(),
        b < s.size(),
        r < s.size(),
        s.table.roots[a as int] == r,
        s.table.roots[b as int] == r,
        s.table.roots[r as int] == r,
        !s.types.contains_key(r),
        s.vars[r as int] == Term::<Op>::Var(r),
    ensures
        s.level_updated(a, b).table.roots == s.table.roots,
        s.level_updated(a, b).types == s.types,
        s.level_updated(a, b).vars == s.vars,
        s.level_updated(a, b).table.class(a as usize).level == subs::min_level(
            s.table.class(a as usize).level,
            r,
        ),
{
    assert(s.level_var(a) == r);
    let s1 = s.level_asked(a);
    assert(s1.level_var(b) == r);
    assert(s1.table.class(r as usize).level == subs::min_level(
        s.table.class(a as usize).level,
        r,
    ));
    let s2 = s1.level_asked(b);
    assert(s2.table.roots == s.table.roots);
}

/// A new variable has just the constraint that it was made with, and its own number for its level;
/// the constraints of the others stay.
pub proof fn law_new_variables_are_constrained<O>(
    s: Subs<O>,
    name: u64,
    candidates: Seq<Term<O>>,
    var: u32,
)
    requires
        s.wf(),
        s.vars.len() == s.size() < union_table::max_keys(),
        s.lists.len() < usize::MAX,
        !s.types.contains_key(s.size() as u32),
        var < s.size(),
    ensures
        ({
            let new = s.size() as u32;
            let free = s.with_var(None);
            let held = s.with_var(Some((name, candidates)));
            &&& free.size() == s.size() + 1
            &&& held.size() == s.size() + 1
            &&& free.constraints_of(new) == Map::<u64, Seq<Term<O>>>::empty()
            &&& held.constraints_of(new) == Map::<u64, Seq<Term<O>>>::empty().insert(
                name,
                candidates,
            )
            &&& free.constraints_of(var) == s.constraints_of(var)
            &&& held.constraints_of(var) == s.constraints_of(var)
            &&& free.level(new) == new
            &&& held.level(new) == new
        }),
{
    let new = s.size() as u32;
    let free = s.with_var(None);
    let held = s.with_var(Some((name, candidates)));
    let k = s.table.roots[var as int];
    assert(k < s.size());
    assert(s.table.classes.contains_key(k));
    assert(free.constraints_of(new) =~= Map::<u64, Seq<Term<O>>>::empty());
    assert(held.constraints_of(new) =~= Map::<u64, Seq<Term<O>>>::empty().insert(name, candidates));
    assert(free.constraints_of(var) =~= s.constraints_of(var));
    assert forall|n: u64| #[trigger] s.constraints_of(var).contains_key(n) implies held.constraints_of(
        var,
    )[n] == s.constraints_of(var)[n] by {
        assert(s.table.classes[k].constraints.contains_key(n));
        assert(s.table.classes[k].constraints[n] < s.lists.len());
    }
    assert(held.constraints_of(var) =~= s.constraints_of(var));
}

/// A constraint that is added is there, with its candidates, beside those that were; one that is
/// removed is gone, and only that one.
pub proof fn law_constraints_are_added_and_removed<O>(
    s: Subs<O>,
    var: u32,
    name: u64,
    candidates: Seq<Term<O>>,
)
    requires
        s.wf(),
        var < s.size(),
        s.lists.len() < usize::MAX,
    ensures
        s.with_constraint(var, name, candidates).constraints_of(var) == s.constraints_of(
            var,
        ).insert(name, candidates),
        s.without_constraint(var, name).constraints_of(var) == s.constraints_of(var).remove(name),
        forall|v: u32|
            s.with_constraint(var, name, candidates).find(v) == #[trigger] s.find(v)
                && s.without_constraint(var, name).find(v) == s.find(v),
{
    let k = s.table.roots[var as int];
    assert(s.table.classes.contains_key(k));
    let more = s.with_constraint(var, name, candidates);
    assert forall|n: u64| n != name && #[trigger] s.constraints_of(var).contains_key(n) implies more.constraints_of(
        var,
    )[n] == s.constraints_of(var)[n] by {
        assert(s.table.classes[k].constraints.contains_key(n));
        assert(s.table.classes[k].constraints[n] < s.lists.len());
    }
    assert(more.constraints_of(var) =~= s.constraints_of(var).insert(name, candidates));
    assert(s.without_constraint(var, name).constraints_of(var) =~= s.constraints_of(var).remove(
        name,
    ));
}

/// An instance of a type is the type without its quantifiers, with a new variable in the place of
/// each generic: it is what the generics, bound in the order in which they occur, applied to the
/// new variables in order give.
pub proof fn law_generics_become_new_variables(
    t: Term<Op>,
    s: Subs<Op>,
    demands: Map<u64, Seq<Term<Op>>>,
)
    requires
        s.vars.len() == s.size(),
        s.size() + rewrite::gathered(Seq::empty(), alias::remove_forall(t)).len()
            <= union_table::max_keys(),
    ensures
        ({
            let body = alias::remove_forall(t);
            let generics = rewrite::gathered(Seq::empty(), body);
            let variables = Seq::new(
                generics.len(),
                |i: int| Term::<Op>::Var((s.size() + i) as u32),
            );
            &&& <Type as Instantiate>::instantiated(t, s, demands) matches Some((found, after))
                && Some(found) == alias::applied(type_laws::bound(generics, body), variables)
        }),
{
    let body = alias::remove_forall(t);
    let generics = rewrite::gathered(Seq::empty(), body);
    let variables = Seq::new(generics.len(), |i: int| Term::<Op>::Var((s.size() + i) as u32));
    let rules = alias::param_rules(generics, variables);
    assert(inference::variable_rules(generics, s.vars.len()) =~= rules);
    let n = generics.len() as int;
    let whole = type_laws::bound(generics, body);
    assert(whole->Node_1[0] == body);
    assert(variables.take(n) =~= variables);
    assert(variables.skip(n) =~= Seq::empty());
    let found = rewrite::rewritten(body, rules);
    assert((seq![found] + variables.skip(n))[0] == found);
}

/// A type without generics is its own instance, once its quantifiers are gone, and makes no
/// variables.
pub proof fn law_types_without_generics_are_instances(
    t: Term<Op>,
    s: Subs<Op>,
    demands: Map<u64, Seq<Term<Op>>>,
)
    requires
        !(t matches Term::Node(Op::Forall(_), _)),
        forall|id: SymbolModel| !#[trigger] rewrite::has_generic(t, id),
        s.vars.len() == s.size() <= union_table::max_keys(),
    ensures
        <Type as Instantiate>::instantiated(t, s, demands) == Some((t, s)),
{
    let generics = rewrite::gathered(Seq::empty(), t);
    if generics.len() > 0 {
        rewrite::law_all_generics_are_gathered(Seq::empty(), t, generics[0]);
        assert(generics.contains(generics[0]));
    }
    assert(inference::variable_rules(generics, s.vars.len()) =~= Seq::empty());
    type_laws::law_unquantified_types_are_applied(t, Seq::empty());
    assert(alias::param_rules(Seq::empty(), Seq::empty()) =~= Seq::empty());
    assert(alias::params_of(t) =~= Seq::empty());
    let none = Seq::<Term<Op>>::empty();
    assert(none.take(0) =~= none);
    assert(none.skip(0) =~= none);
    assert((seq![rewrite::rewritten(t, Seq::empty())] + none)[0] == rewrite::rewritten(
        t,
        Seq::empty(),
    ));
}

/// The variables for generics are new ones: as many as there are generics, the `i`th with what is
/// demanded of the `i`th generic, and none of them known. What was known before stays.
pub proof fn law_variables_for_generics_are_constrained(
    s: Subs<Op>,
    generics: Seq<SymbolModel>,
    demands: Map<u64, Seq<Term<Op>>>,
    i: int,
)
    requires
        acyclic::acyclic(s),
        s.size() + generics.len() <= union_table::max_keys(),
        s.lists.len() + generics.len() <= usize::MAX,
        0 <= i < generics.len(),
    ensures
        ({
            let after = inference::with_generics(s, generics, demands);
            let new = (s.size() + i) as u32;
            &&& after.size() == s.size() + generics.len()
            &&& after.find(new) is None
            &&& after.constraints_of(new) == (if demands.contains_key(generics[i].id) {
                Map::<u64, Seq<Term<Op>>>::empty().insert(
                    generics[i].id,
                    demands[generics[i].id],
                )
            } else {
                Map::empty()
            })
            &&& forall|v: u32| v < s.size() ==> #[trigger] after.find(v) == s.find(v)
        }),
    decreases generics.len(),
{
    let demand = if demands.contains_key(generics[0].id) {
        Some((generics[0].id, demands[generics[0].id]))
    } else {
        None
    };
    let next = s.with_var(demand);
    let rest = generics.drop_first();
    let after = inference::with_generics(s, generics, demands);
    subs::lemma_with_var_extends(s, demand);
    acyclic::law_new_variables_keep_acyclic(s, next);
    inference::lemma_with_generics_extends(s, generics, demands);
    inference::lemma_with_generics_extends(next, rest, demands);
    let new = (s.size() + i) as u32;
    assert(after.table.roots[s.size() + i] == (s.size() + i) as usize);
    assert forall|v: u32| v < s.size() implies #[trigger] after.find(v) == s.find(v) by {
        assert(after.table.roots[v as int] == s.table.roots[v as int]);
        assert(s.table.roots[v as int] < s.size());
        let r = s.root(v);
        assert(s.vars[r as int] == Term::<Op>::Var(r));
        assert(after.vars[r as int] == Term::<Op>::Var(r));
    }
    if i > 0 {
        law_variables_for_generics_are_constrained(next, rest, demands, i - 1);
        assert(rest[i - 1] == generics[i]);
    } else {
        let k = s.size() as usize;
        assert(next.table.classes.contains_key(k));
        assert(after.table.classes[k] == next.table.classes[k]);
        assert(next.table.roots[k as int] == k);
        assert(after.table.roots[k as int] == k);
        let held = after.constraints_of(new);
        if demands.contains_key(generics[0].id) {
            assert(next.lists[s.lists.len() as int] == demands[generics[0].id]);
            assert(after.lists[s.lists.len() as int] == next.lists[s.lists.len() as int]);
            assert(held =~= Map::<u64, Seq<Term<Op>>>::empty().insert(
                generics[0].id,
                demands[generics[0].id],
            ));
        } else {
            assert(held =~= Map::<u64, Seq<Term<Op>>>::empty());
        }
    }
}

/// A term without variables holds no variable, and the search for one changes nothing.
proof fn lemma_nothing_occurs(s: Subs<Op>, id: u32, t: Term<Op>) -> (fuel: nat)
    requires
        match_laws::closed(t),
    ensures
        s.occurs_walk(id, t, fuel) == Some((s, false)),
    decreases t,
{
    match t {
        Term::Var(v) => {
            assert(t.mentions(v));
            0
        },
        Term::Node(op, kids) => {
            assert forall|i: int| 0 <= i < kids.len() implies match_laws::closed(#[trigger] kids[i]) by {
                assert forall|v: u32| !#[trigger] kids[i].mentions(v) by {
                    assert(!t.mentions(v));
                }
            }
            let depth = lemma_nothing_occurs_in(s, id, kids);
            depth + 1
        },
    }
}

proof fn lemma_nothing_occurs_in(s: Subs<Op>, id: u32, kids: Seq<Term<Op>>) -> (fuel: nat)
    requires
        forall|i: int| 0 <= i < kids.len() ==> match_laws::closed(#[trigger] kids[i]),
    ensures
        s.occurs_list(id, kids, fuel) == Some((s, false)),
    decreases kids,
{
    if kids.len() == 0 {
        0
    } else {
        let rest = kids.drop_first();
        assert(match_laws::closed(kids[0]));
        assert forall|i: int| 0 <= i < rest.len() implies match_laws::closed(#[trigger] rest[i]) by {
            assert(rest[i] == kids[i + 1]);
        }
        let one = lemma_nothing_occurs(s, id, kids[0]);
        let others = lemma_nothing_occurs_in(s, id, rest);
        let fuel = if one < others {
            others
        } else {
            one
        };
        subs::lemma_walk_fuel(s, id, kids[0], one, fuel);
        subs::lemma_list_fuel(s, id, rest, others, fuel);
        fuel
    }
}

/// Making an unknown variable without constraints and a type without variables the same makes the
/// variable, and all that it stands for, stand for that type; nothing else changes.
pub proof fn law_unknown_variables_take_the_type(s: Subs<Op>, id: u32, t: Term<Op>, v: u32)
    requires
        s.wf(),
        s.vars.len() == s.size(),
        id < s.size(),
        s.root(id) == id,
        !s.types.contains_key(id),
        match_laws::closed(t),
    ensures
        constraints::unioned_in::<(), Type>(s, (), Seq::empty(), id, t) matches Some((after, outcome))
            && outcome == Outcome::Same(None::<Term<Op>>) && after.size() == s.size() && (v < s.size()
            && s.root(v) == id ==> after.find(v) == Some(t)) && (v >= s.size() || s.root(v) != id
            ==> after.find(v) == s.find(v)),
{
    if let Term::Var(w) = t {
        assert(t.mentions(w));
    }
    let fuel = lemma_nothing_occurs(s, id, t);
    subs::lemma_occurs_fuel(s, id, t, fuel);
    assert(s.find(id) is None);
}

/// A variable that stands for a type already can be made the same as that type again, which
/// changes nothing.
pub proof fn law_known_variables_keep_their_type(
    s: Subs<Op>,
    entries: Seq<(u64, usize)>,
    id: u32,
    t: Term<Op>,
)
    requires
        s.wf(),
        s.vars.len() == s.size(),
        id < s.size(),
        s.find(id) == Some(t),
        match_laws::closed(t),
    ensures
        constraints::unioned_in::<(), Type>(s, (), entries, id, t) == Some(
            (s, Outcome::Same(None::<Term<Op>>)),
        ),
{
    if let Term::Var(w) = t {
        assert(t.mentions(w));
    }
    let fuel = lemma_nothing_occurs(s, id, t);
    subs::lemma_occurs_fuel(s, id, t, fuel);
    assert(s.table.roots[id as int] < s.size());
}

/// Making an unknown variable with one constraint, whose candidates hold neither variables nor
/// generics, and a type without variables the same succeeds if and only if the type is one of the
/// candidates. Then the variable stands for it; else the error names the type and the candidates.
pub proof fn law_constrained_variables_take_candidates(
    s: Subs<Op>,
    name: u64,
    position: usize,
    id: u32,
    t: Term<Op>,
)
    requires
        acyclic::acyclic(s),
        s.size() <= union_table::max_keys(),
        id < s.size(),
        s.root(id) == id,
        !s.types.contains_key(id),
        position < s.lists.len(),
        forall|j: int|
            0 <= j < s.lists[position as int].len() ==> inference_laws::ground(
                #[trigger] s.lists[position as int][j],
            ),
        match_laws::closed(t),
    ensures
        ({
            let candidates = s.lists[position as int];
            let found = constraints::unioned_in::<(), Type>(s, (), seq![(name, position)], id, t);
            if candidates.contains(t) {
                found matches Some((after, outcome)) && outcome == Outcome::Same(Some(t))
                    && after.find(id) == Some(t)
            } else {
                found == Some((s, Outcome::Constraint(t, candidates)))
            }
        }),
{
    if let Term::Var(w) = t {
        assert(t.mentions(w));
    }
    let fuel = lemma_nothing_occurs(s, id, t);
    subs::lemma_occurs_fuel(s, id, t, fuel);
    assert(s.find(id) is None);
    let candidates = s.lists[position as int];
    let entries = seq![(name, position)];
    match_laws::law_the_candidate_is_the_type(s, candidates, t);
    assert(entries[0] == (name, position));
    assert(entries.drop_first() =~= Seq::empty());
    if candidates.contains(t) {
        assert(constraints::resolved_in::<(), Type>(s, (), entries.drop_first(), t, true) == Some(
            (s, Outcome::Same(Some(t))),
        ));
    }
}

/// A variable is the same as itself: making it so changes nothing.
pub proof fn law_variables_are_themselves(s: Subs<Op>, entries: Seq<(u64, usize)>, id: u32)
    ensures
        constraints::unioned_in::<(), Type>(s, (), entries, id, Term::Var(id)) == Some(
            (s, Outcome::Same(None::<Term<Op>>)),
        ),
{
}

/// A variable that occurs in a type cannot be made the same as it: the error names both.
pub proof fn law_occurrences_are_refused(
    s: Subs<Op>,
    entries: Seq<(u64, usize)>,
    id: u32,
    t: Term<Op>,
)
    requires
        t is Node,
        s.walk_ends(id, t),
        s.occurs(id, t).1,
    ensures
        constraints::unioned_in::<(), Type>(s, (), entries, id, t) matches Some((after, outcome))
            && outcome == Outcome::Occurs(Term::Var(id), t) && after == s.occurs(id, t).0,
{
}

/// A candidate takes the place of a type if it is no variable, or if both are variables and its
/// number is the lower one.
pub proof fn law_better_candidates_replace(candidate: Term<Op>, t: Term<Op>)
    ensures
        constraints::replaces(candidate, t) <==> (candidate is Node || (candidate matches Term::Var(
            y,
        ) && (t matches Term::Var(x) && y < x))),
{
}

/// Where several constraints are to be met, they are met one after the other, each by what the
/// others before it have left of the type; the first that cannot be met is the error.
pub proof fn law_constraints_are_met_in_turn(
    s: Subs<Op>,
    first: (u64, usize),
    rest: Seq<(u64, usize)>,
    t: Term<Op>,
    replaced: bool,
)
    ensures
        constraints::resolved_in::<(), Type>(s, (), Seq::empty(), t, replaced) == Some(
            (
                s,
                Outcome::Same(
                    if replaced {
                        Some(t)
                    } else {
                        None
                    },
                ),
            ),
        ),
        match constraints::first_match::<(), Type>(s, (), s.lists[first.1 as int], t) {
            Some((after, Some(candidate))) => {
                let better = candidate is Node || (candidate matches Term::Var(y) && (
                t matches Term::Var(x) && y < x));
                constraints::resolved_in::<(), Type>(s, (), seq![first] + rest, t, replaced)
                    == constraints::resolved_in::<(), Type>(
                    after,
                    (),
                    rest,
                    if better {
                        candidate
                    } else {
                        t
                    },
                    replaced || better,
                )
            },
            Some((after, None)) => constraints::resolved_in::<(), Type>(
                s,
                (),
                seq![first] + rest,
                t,
                replaced,
            ) == Some((after, Outcome::Constraint(t, s.lists[first.1 as int]))),
            None => true,
        },
{
    let entries = seq![first] + rest;
    assert(entries[0] == first);
    assert(entries.drop_first() =~= rest);
}

/// The candidates in an error stand in lines of their own, in order.
pub proof fn law_candidates_stand_in_lines<T: Show>(types: Seq<T>, last: T)
    ensures
        substitution::lines_of(types.push(last)) == substitution::lines_of(types) + last.text()
            + "\n"@,
        substitution::lines_of(Seq::<T>::empty()) == Seq::<char>::empty(),
{
    assert(types.push(last).drop_last() =~= types);
}

/// The errors name what they are about.
pub proof fn law_errors_are_explained<T: Show>(var: T, typ: T, candidates: Constraints<T>)
    ensures
        Error::Occurs(var, typ).explained() == "Variable `"@ + var.text() + "` occurs in `"@
            + typ.text() + "`."@,
        Error::Constraint(typ, candidates).explained() == "Type `"@ + typ.text()
            + "` could not fullfill a constraint.\nPossible resolves:\n"@ + substitution::lines_of(
            candidates@,
        ),
{
}

} // verus!
