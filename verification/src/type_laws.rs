//! What types are made of, and what applying one to arguments gives.
use vstd::prelude::*;
use crate::alias;
use crate::rewrite;
use crate::rewrite::Leaf;
use crate::symbol::SymbolModel;
use crate::term::Term;
use crate::text;
use crate::type_cache;
use crate::types;
use crate::types::{AliasEntry, AliasModel, BuiltinType, Op};

verus! {

/// No two of the symbols have the same id.
pub open spec fn distinct(params: Seq<SymbolModel>) -> bool {
    forall|i: int, j: int|
        0 <= i < j < params.len() ==> (#[trigger] params[i]).id != (#[trigger] params[j]).id
}

/// `t` with `params` bound around it.
pub open spec fn bound(params: Seq<SymbolModel>, t: Term<Op>) -> Term<Op> {
    Term::Node(Op::Forall(params), seq![t])
}

/// `args[0]` and the others applied to `head`, which stays as it is if there are none.
pub open spec fn given(head: Term<Op>, args: Seq<Term<Op>>) -> Term<Op> {
    if args.len() == 0 {
        head
    } else {
        Term::Node(Op::App, seq![head] + args)
    }
}

/// A rule that is the first for its leaf is the one that is found.
proof fn lemma_first_rule(rules: Seq<(Leaf, Term<Op>)>, i: int)
    requires
        0 <= i < rules.len(),
        forall|j: int| 0 <= j < i ==> (#[trigger] rules[j]).0 != rules[i].0,
    ensures
        rewrite::rule_for(rules, rules[i].0) == Some(rules[i].1),
    decreases rules.len(),
{
    if i > 0 {
        assert(rules[0].0 != rules[i].0);
        let rest = rules.drop_first();
        assert(rest[i - 1] == rules[i]);
        assert forall|j: int| 0 <= j < i - 1 implies (#[trigger] rest[j]).0 != rest[i - 1].0 by {
            assert(rest[j] == rules[j + 1]);
        }
        lemma_first_rule(rest, i - 1);
    }
}

/// Where no rule is for a leaf, none is found.
proof fn lemma_no_rule(rules: Seq<(Leaf, Term<Op>)>, leaf: Leaf)
    requires
        forall|j: int| 0 <= j < rules.len() ==> (#[trigger] rules[j]).0 != leaf,
    ensures
        rewrite::rule_for(rules, leaf) is None,
    decreases rules.len(),
{
    if rules.len() > 0 {
        assert(rules[0].0 != leaf);
        let rest = rules.drop_first();
        assert forall|j: int| 0 <= j < rest.len() implies (#[trigger] rest[j]).0 != leaf by {
            assert(rest[j] == rules[j + 1]);
        }
        lemma_no_rule(rest, leaf);
    }
}

/// A rewritten type is the type where no rule is for a leaf of it.
proof fn lemma_without_rules(t: Term<Op>)
    ensures
        rewrite::rewritten(t, Seq::empty()) == t,
    decreases t,
{
    if let Term::Node(op, kids) = t {
        assert forall|i: int| 0 <= i < kids.len() implies rewrite::rewritten(
            #[trigger] kids[i],
            Seq::empty(),
        ) == kids[i] by {
            lemma_without_rules(kids[i]);
        }
        assert(rewrite::rewritten(t, Seq::empty())->Node_1 =~= kids);
    }
}

/// What a full application gives: the body with the arguments put in.
proof fn lemma_applied_to_all(params: Seq<SymbolModel>, t: Term<Op>, args: Seq<Term<Op>>)
    requires
        args.len() == params.len(),
    ensures
        alias::applied(bound(params, t), args) == Some(
            rewrite::rewritten(t, alias::param_rules(params, args)),
        ),
{
    let n = params.len() as int;
    assert(args.take(n) =~= args);
    assert(args.skip(n) =~= Seq::empty());
    let body = rewrite::rewritten(t, alias::param_rules(params, args));
    assert((seq![body] + args.skip(n)).len() == 1);
    assert((seq![body] + args.skip(n))[0] == body);
}

/// A quantified type applied to as many arguments as it binds parameters has each argument in the
/// place of the parameter at the same position.
pub proof fn law_parameters_stand_for_arguments(
    params: Seq<SymbolModel>,
    args: Seq<Term<Op>>,
    i: int,
    kids: Seq<Term<Op>>,
)
    requires
        distinct(params),
        args.len() == params.len(),
        0 <= i < params.len(),
    ensures
        alias::applied(bound(params, Term::Node(Op::Generic(params[i]), kids)), args) == Some(
            args[i],
        ),
{
    let t = Term::Node(Op::Generic(params[i]), kids);
    lemma_applied_to_all(params, t, args);
    let rules = alias::param_rules(params, args);
    assert(rules[i] == (Leaf::Generic(params[i].id), args[i]));
    assert forall|j: int| 0 <= j < i implies (#[trigger] rules[j]).0 != rules[i].0 by {
        assert(rules[j].0 == Leaf::Generic(params[j].id));
        assert(params[j].id != params[i].id);
    }
    lemma_first_rule(rules, i);
}

/// Where two parameters have the same id, the argument for the first one is taken.
pub proof fn law_first_parameter_of_a_name_counts(
    params: Seq<SymbolModel>,
    args: Seq<Term<Op>>,
    i: int,
    name: SymbolModel,
)
    requires
        args.len() == params.len(),
        0 <= i < params.len(),
        params[i].id == name.id,
        forall|j: int| 0 <= j < i ==> (#[trigger] params[j]).id != name.id,
    ensures
        alias::applied(bound(params, Term::Node(Op::Generic(name), Seq::empty())), args) == Some(
            args[i],
        ),
{
    let t = Term::Node(Op::Generic(name), Seq::empty());
    lemma_applied_to_all(params, t, args);
    let rules = alias::param_rules(params, args);
    assert(rules[i] == (Leaf::Generic(params[i].id), args[i]));
    assert forall|j: int| 0 <= j < i implies (#[trigger] rules[j]).0 != rules[i].0 by {
        assert(rules[j].0 == Leaf::Generic(params[j].id));
    }
    lemma_first_rule(rules, i);
}

/// The arguments are put into every operand, and nothing but parameters is replaced: operators,
/// identifiers among them, and generics that are not bound stay.
pub proof fn law_arguments_go_under_operators(
    params: Seq<SymbolModel>,
    args: Seq<Term<Op>>,
    op: Op,
    kids: Seq<Term<Op>>,
)
    requires
        args.len() == params.len(),
        op matches Op::Generic(name) ==> forall|j: int|
            0 <= j < params.len() ==> (#[trigger] params[j]).id != name.id,
    ensures
        forall|i: int|
            0 <= i < kids.len() ==> (alias::applied(bound(params, #[trigger] kids[i]), args) is Some),
        alias::applied(bound(params, Term::Node(op, kids)), args) == Some(
            Term::Node(
                op,
                Seq::new(
                    kids.len(),
                    |i: int| alias::applied(bound(params, kids[i]), args).unwrap(),
                ),
            ),
        ),
{
    let rules = alias::param_rules(params, args);
    assert forall|i: int| 0 <= i < kids.len() implies alias::applied(
        bound(params, #[trigger] kids[i]),
        args,
    ) == Some(rewrite::rewritten(kids[i], rules)) by {
        lemma_applied_to_all(params, kids[i], args);
    }
    lemma_applied_to_all(params, Term::Node(op, kids), args);
    if let Some(leaf) = rewrite::leaf_of(op) {
        assert forall|j: int| 0 <= j < rules.len() implies (#[trigger] rules[j]).0 != leaf by {
            assert(rules[j].0 == Leaf::Generic(params[j].id));
        }
        lemma_no_rule(rules, leaf);
    }
    let found = rewrite::rewritten(Term::Node(op, kids), rules);
    assert(found->Node_1 =~= Seq::new(
        kids.len(),
        |i: int| alias::applied(bound(params, kids[i]), args).unwrap(),
    ));
}

/// Variables are not replaced by arguments.
pub proof fn law_variables_are_no_parameters(
    params: Seq<SymbolModel>,
    args: Seq<Term<Op>>,
    v: u32,
)
    requires
        args.len() == params.len(),
    ensures
        alias::applied(bound(params, Term::Var(v)), args) == Some(Term::<Op>::Var(v)),
{
    lemma_applied_to_all(params, Term::Var(v), args);
}

/// Arguments after those for the parameters stay applied to the type, in their order.
pub proof fn law_further_arguments_stay_applied(
    params: Seq<SymbolModel>,
    t: Term<Op>,
    args: Seq<Term<Op>>,
    more: Seq<Term<Op>>,
)
    requires
        args.len() == params.len(),
        more.len() > 0,
    ensures
        alias::applied(bound(params, t), args) matches Some(head) && alias::applied(
            bound(params, t),
            args + more,
        ) == Some(Term::Node(Op::App, seq![head] + more)),
{
    lemma_applied_to_all(params, t, args);
    let n = params.len() as int;
    assert((args + more).take(n) =~= args);
    assert((args + more).skip(n) =~= more);
}

/// A type that binds nothing is applied to the arguments as it is, and stays without any.
pub proof fn law_unquantified_types_are_applied(t: Term<Op>, args: Seq<Term<Op>>)
    requires
        !(t matches Term::Node(Op::Forall(_), _)),
    ensures
        alias::applied(t, args) == Some(given(t, args)),
{
    assert(alias::params_of(t) =~= Seq::empty());
    assert(args.take(0) =~= Seq::empty());
    assert(args.skip(0) =~= args);
    assert(alias::param_rules(Seq::empty(), args.take(0)) =~= Seq::empty());
    lemma_without_rules(t);
    if args.len() == 0 {
        assert((seq![t] + args.skip(0))[0] == t);
    }
}

/// Arguments may be missing where the type is something applied, at last to just the parameters
/// that they are missing for, in order. Then it is as if neither had been there.
pub proof fn law_missing_arguments_are_left_out(
    params: Seq<SymbolModel>,
    head: Term<Op>,
    first: Seq<Term<Op>>,
    args: Seq<Term<Op>>,
)
    requires
        args.len() < params.len(),
    ensures
        ({
            let missing = params.skip(args.len() as int);
            let last = Seq::new(
                missing.len(),
                |i: int| Term::Node(Op::Generic(missing[i]), Seq::empty()),
            );
            alias::applied(bound(params, Term::Node(Op::App, seq![head] + first + last)), args)
                == alias::applied(bound(params.take(args.len() as int), given(head, first)), args)
        }),
        alias::applied(bound(params.take(args.len() as int), given(head, first)), args) is Some,
{
    let n = args.len() as int;
    let missing = params.skip(n);
    let last = Seq::new(missing.len(), |i: int| Term::Node(Op::Generic(missing[i]), Seq::empty()));
    let kids = seq![head] + first + last;
    let count = params.len() - n;
    assert forall|k: int| 0 <= k < count implies #[trigger] kids[kids.len() - count + k]
        == alias::leaf(Op::Generic(params[params.len() - count + k])) by {
        assert(kids[kids.len() - count + k] == last[k]);
        assert(missing[k] == params[n + k]);
    }
    assert(kids.take(kids.len() - count) =~= seq![head] + first);
    lemma_applied_to_all(params.take(n), given(head, first), args);
    if first.len() == 0 {
        assert((seq![head] + first)[0] == head);
    }
}

/// Otherwise a type cannot be applied to fewer arguments than it binds parameters.
pub proof fn law_too_few_arguments_are_refused(
    params: Seq<SymbolModel>,
    t: Term<Op>,
    args: Seq<Term<Op>>,
)
    requires
        args.len() < params.len(),
        alias::applied(bound(params, t), args) is Some,
    ensures
        t matches Term::Node(Op::App, kids) && kids.len() > params.len() - args.len() && forall|i: int|
            args.len() <= i < params.len() ==> kids[kids.len() - params.len() + i] == Term::Node(
                Op::Generic(#[trigger] params[i]),
                Seq::empty(),
            ),
{
    let missing = params.len() - args.len();
    if let Term::Node(Op::App, kids) = t {
        assert(alias::ends_with_params(kids, params, missing));
        assert forall|i: int| args.len() <= i < params.len() implies kids[kids.len() - params.len()
            + i] == Term::Node(Op::Generic(#[trigger] params[i]), Seq::empty()) by {
            let k = i - args.len();
            assert(kids[kids.len() - missing + k] == alias::leaf(
                Op::Generic(params[params.len() - missing + k]),
            ));
        }
    }
}

/// The arguments of an application are those of what is applied, and then its own; nothing else has
/// any.
pub proof fn law_arguments_of_applications(op: Op, kids: Seq<Term<Op>>, head: Term<Op>, args: Seq<Term<Op>>, v: u32)
    requires
        op != Op::App,
    ensures
        alias::unapplied_args(Term::Node(Op::App, seq![head] + args)) == alias::unapplied_args(head)
            + args,
        alias::unapplied_args(Term::Node(op, kids)) == Seq::<Term<Op>>::empty(),
        alias::unapplied_args(Term::Var(v)) == Seq::<Term<Op>>::empty(),
{
    let t = Term::Node(Op::App, seq![head] + args);
    assert((seq![head] + args)[0] == head);
    assert((seq![head] + args).drop_first() =~= args);
}

/// A type goes by the name of the identifier or the alias that it applies, or that it is.
pub proof fn law_names_of_types(
    name: SymbolModel,
    entry: AliasModel,
    kids: Seq<Term<Op>>,
    head: Term<Op>,
    args: Seq<Term<Op>>,
)
    ensures
        alias::alias_ident(Term::Node(Op::Ident(name), kids)) == Some(name),
        alias::alias_ident(Term::Node(Op::Alias(entry), kids)) == Some(entry.alias.name),
        alias::alias_ident(Term::Node(Op::App, seq![head] + args)) == alias::alias_ident(head),
{
    assert((seq![head] + args)[0] == head);
}

/// Nothing else has a name.
pub proof fn law_other_types_have_no_name(t: Term<Op>)
    requires
        t matches Term::Node(op, _) ==> !(op is Ident) && !(op is Alias) && op != Op::App,
    ensures
        alias::alias_ident(t) is None,
{
}

/// Nested quantifiers bind as one quantifier with the parameters of both does.
pub proof fn law_nested_quantifiers_are_one(
    outer: Seq<SymbolModel>,
    inner: Seq<SymbolModel>,
    t: Term<Op>,
)
    ensures
        alias::skolemized(bound(outer, bound(inner, t))) == alias::skolemized(
            bound(outer + inner, t),
        ),
        alias::remove_forall(bound(outer, t)) == alias::remove_forall(t),
{
    let nested = bound(outer, bound(inner, t));
    let flat = bound(outer + inner, t);
    assert(nested->Node_1[0] == bound(inner, t));
    assert(bound(inner, t)->Node_1[0] == t);
    assert(flat->Node_1[0] == t);
    assert(alias::all_params(nested) == outer + alias::all_params(bound(inner, t)));
    assert(alias::all_params(bound(inner, t)) == inner + alias::all_params(t));
    assert(alias::all_params(flat) == (outer + inner) + alias::all_params(t));
    assert(alias::all_params(nested) =~= alias::all_params(flat));
    assert(alias::remove_forall(nested) == alias::remove_forall(bound(inner, t)));
    assert(alias::remove_forall(bound(inner, t)) == alias::remove_forall(t));
    assert(alias::remove_forall(flat) == alias::remove_forall(t));
    assert(bound(outer, t)->Node_1[0] == t);
}

/// What a rigid type is, if its body has no quantifier around it.
proof fn lemma_skolemized(params: Seq<SymbolModel>, t: Term<Op>)
    requires
        !(t matches Term::Node(Op::Forall(_), _)),
    ensures
        alias::skolemized(bound(params, t)) == rewrite::rewritten(t, alias::skolem_rules(params)),
{
    let whole = bound(params, t);
    assert(whole->Node_1[0] == t);
    assert(alias::remove_forall(t) == t);
    assert(alias::all_params(t) =~= Seq::empty());
    assert(alias::all_params(whole) =~= params);
}

/// Without its quantifier, a type has a rigid constant of the same name for each parameter.
pub proof fn law_parameters_become_rigid(params: Seq<SymbolModel>, i: int, kids: Seq<Term<Op>>)
    requires
        distinct(params),
        0 <= i < params.len(),
    ensures
        alias::skolemized(bound(params, Term::Node(Op::Generic(params[i]), kids))) == Term::Node(
            Op::Skolem(params[i]),
            Seq::empty(),
        ),
{
    let t = Term::Node(Op::Generic(params[i]), kids);
    lemma_skolemized(params, t);
    let rules = alias::skolem_rules(params);
    assert(rules[i].0 == Leaf::Generic(params[i].id));
    assert forall|j: int| 0 <= j < i implies (#[trigger] rules[j]).0 != rules[i].0 by {
        assert(rules[j].0 == Leaf::Generic(params[j].id));
        assert(params[j].id != params[i].id);
    }
    lemma_first_rule(rules, i);
}

/// Rigid constants are put into every operand, and nothing but parameters is replaced.
pub proof fn law_rigid_constants_go_under_operators(
    params: Seq<SymbolModel>,
    op: Op,
    kids: Seq<Term<Op>>,
)
    requires
        !(op is Forall),
        op matches Op::Generic(name) ==> forall|j: int|
            0 <= j < params.len() ==> (#[trigger] params[j]).id != name.id,
        forall|i: int| 0 <= i < kids.len() ==> !(#[trigger] kids[i] matches Term::Node(Op::Forall(_), _)),
    ensures
        alias::skolemized(bound(params, Term::Node(op, kids))) == Term::Node(
            op,
            Seq::new(kids.len(), |i: int| alias::skolemized(bound(params, kids[i]))),
        ),
{
    let rules = alias::skolem_rules(params);
    lemma_skolemized(params, Term::Node(op, kids));
    if let Some(leaf) = rewrite::leaf_of(op) {
        assert forall|j: int| 0 <= j < rules.len() implies (#[trigger] rules[j]).0 != leaf by {
            assert(rules[j].0 == Leaf::Generic(params[j].id));
        }
        lemma_no_rule(rules, leaf);
    }
    assert forall|i: int| 0 <= i < kids.len() implies alias::skolemized(
        bound(params, #[trigger] kids[i]),
    ) == rewrite::rewritten(kids[i], rules) by {
        lemma_skolemized(params, kids[i]);
    }
    assert(rewrite::rewritten(Term::Node(op, kids), rules)->Node_1 =~= Seq::new(
        kids.len(),
        |i: int| alias::skolemized(bound(params, kids[i])),
    ));
}

/// A type without a quantifier around it has no parameters to make rigid, and stays.
pub proof fn law_unquantified_types_stay(t: Term<Op>)
    requires
        !(t matches Term::Node(Op::Forall(_), _)),
    ensures
        alias::skolemized(t) == t,
        alias::remove_forall(t) == t,
{
    assert(alias::all_params(t) =~= Seq::empty());
    assert(alias::skolem_rules(alias::all_params(t)) =~= Seq::empty());
    lemma_without_rules(t);
}

/// In the type of an alias, the name of each alias of its group stands for that alias.
pub proof fn law_names_of_the_group_are_aliases(
    name: SymbolModel,
    group: Seq<AliasEntry>,
    i: int,
    kids: Seq<Term<Op>>,
)
    requires
        0 <= i < group.len(),
        forall|j: int| 0 <= j < i ==> (#[trigger] group[j]).name.id != group[i].name.id,
    ensures
        alias::alias_type(
            (AliasModel {
                alias: Box::new(
                    (AliasEntry { name, typ: Term::Node(Op::Ident(group[i].name), kids) }),
                ),
                group,
            }),
        ) == Term::Node(
            Op::Alias((AliasModel { alias: Box::new(group[i]), group })),
            Seq::empty(),
        ),
{
    let rules = alias::group_rules(group);
    assert(rules[i].0 == Leaf::Ident(group[i].name.id));
    assert forall|j: int| 0 <= j < i implies (#[trigger] rules[j]).0 != rules[i].0 by {
        assert(rules[j].0 == Leaf::Ident(group[j].name.id));
    }
    lemma_first_rule(rules, i);
}

/// The alias for a type, in a group.
pub open spec fn alias_for(name: SymbolModel, group: Seq<AliasEntry>, typ: Term<Op>) -> AliasModel {
    AliasModel { alias: Box::new(AliasEntry { name, typ }), group }
}

/// The aliases of the group are put into every operand, and nothing but their names is replaced:
/// neither other identifiers nor generics nor variables.
pub proof fn law_aliases_go_under_operators(
    name: SymbolModel,
    group: Seq<AliasEntry>,
    op: Op,
    kids: Seq<Term<Op>>,
    v: u32,
)
    requires
        op matches Op::Ident(id) ==> forall|j: int|
            0 <= j < group.len() ==> (#[trigger] group[j]).name.id != id.id,
    ensures
        alias::alias_type(alias_for(name, group, Term::Node(op, kids))) == Term::Node(
            op,
            Seq::new(kids.len(), |i: int| alias::alias_type(alias_for(name, group, kids[i]))),
        ),
        alias::alias_type(alias_for(name, group, Term::Var(v))) == Term::<Op>::Var(v),
{
    let rules = alias::group_rules(group);
    if let Some(leaf) = rewrite::leaf_of(op) {
        assert forall|j: int| 0 <= j < rules.len() implies (#[trigger] rules[j]).0 != leaf by {
            assert(rules[j].0 == Leaf::Ident(group[j].name.id));
        }
        lemma_no_rule(rules, leaf);
    }
    assert(rewrite::rewritten(Term::Node(op, kids), rules)->Node_1 =~= Seq::new(
        kids.len(),
        |i: int| alias::alias_type(alias_for(name, group, kids[i])),
    ));
}

/// Several lists of types give their generics one list after the other.
proof fn lemma_gathered_lists(params: Seq<SymbolModel>, first: Seq<Term<Op>>, last: Seq<Term<Op>>)
    ensures
        rewrite::gathered_list(params, first + last) == rewrite::gathered_list(
            rewrite::gathered_list(params, first),
            last,
        ),
    decreases first.len(),
{
    if first.len() == 0 {
        assert(first + last =~= last);
    } else {
        assert((first + last)[0] == first[0]);
        assert((first + last).drop_first() =~= first.drop_first() + last);
        lemma_gathered_lists(rewrite::gathered(params, first[0]), first.drop_first(), last);
    }
}

/// The generics of the operands are gathered from the first operand to the last.
pub proof fn law_generics_are_gathered_in_order(
    params: Seq<SymbolModel>,
    op: Op,
    first: Seq<Term<Op>>,
    last: Term<Op>,
)
    requires
        !(op is Generic),
        !(op is Forall),
    ensures
        rewrite::gathered(params, Term::Node(op, first.push(last))) == rewrite::gathered(
            rewrite::gathered(params, Term::Node(op, first)),
            last,
        ),
        rewrite::gathered(params, Term::Node(op, Seq::empty())) == params,
{
    assert(first.push(last) =~= first + seq![last]);
    lemma_gathered_lists(params, first, seq![last]);
    let before = rewrite::gathered_list(params, first);
    assert(seq![last][0] == last);
    assert(seq![last].drop_first() =~= Seq::empty());
    assert(rewrite::gathered_list(before, seq![last]) == rewrite::gathered_list(
        rewrite::gathered(before, last),
        Seq::empty(),
    ));
}

/// A generic is gathered at the end, unless it was gathered before. Variables and types with
/// quantifiers of their own give none.
pub proof fn law_new_generics_come_last(
    params: Seq<SymbolModel>,
    name: SymbolModel,
    kids: Seq<Term<Op>>,
    others: Seq<SymbolModel>,
    v: u32,
)
    ensures
        params.contains(name) ==> rewrite::gathered(params, Term::Node(Op::Generic(name), kids))
            == params,
        !params.contains(name) ==> rewrite::gathered(params, Term::Node(Op::Generic(name), kids))
            == params + seq![name],
        rewrite::gathered(params, Term::Node(Op::Forall(others), kids)) == params,
        rewrite::gathered(params, Term::Var(v)) == params,
{
    assert(params.push(name) =~= params + seq![name]);
}

/// Quantifying a type binds its generics, each once, and stands around the type as it is; a type
/// without generics stays alone.
pub proof fn law_generics_are_bound(t: Term<Op>)
    ensures
        (forall|id: SymbolModel| !#[trigger] rewrite::has_generic(t, id)) ==> type_cache::forall_type(
            t,
        ) == t,
        (exists|id: SymbolModel| #[trigger] rewrite::has_generic(t, id)) ==> exists|
            params: Seq<SymbolModel>,
        |
            type_cache::forall_type(t) == #[trigger] bound(params, t) && params.no_duplicates()
                && forall|id: SymbolModel|
                params.contains(id) <==> #[trigger] rewrite::has_generic(t, id),
{
    let params = rewrite::gathered(Seq::empty(), t);
    rewrite::law_generics_are_gathered_once(Seq::empty(), t);
    assert forall|id: SymbolModel| params.contains(id) <==> #[trigger] rewrite::has_generic(
        t,
        id,
    ) by {
        rewrite::law_all_generics_are_gathered(Seq::empty(), t, id);
    }
    if params.len() > 0 {
        assert(params.contains(params[0]));
        assert(rewrite::has_generic(t, params[0]));
        assert(type_cache::forall_type(t) == bound(params, t));
    }
}

/// The function type constructor, applied.
pub open spec fn arrow(arg: Term<Op>, ret: Term<Op>) -> Term<Op> {
    Term::Node(
        Op::App,
        seq![Term::Node(Op::Builtin(BuiltinType::Function), Seq::empty()), arg, ret],
    )
}

/// What remains of a type after so many arrows.
pub open spec fn after_arrows(t: Term<Op>, count: nat) -> Term<Op>
    decreases count,
{
    if count == 0 {
        t
    } else {
        after_arrows(t->Node_1[2], (count - 1) as nat)
    }
}

/// A function type takes the first argument first, and gives a function of the others.
pub proof fn law_functions_take_the_first_argument(args: Seq<Term<Op>>, ret: Term<Op>)
    ensures
        args.len() == 0 ==> type_cache::function_type(args, ret) == ret,
        args.len() > 0 ==> type_cache::function_type(args, ret) == arrow(
            args[0],
            type_cache::function_type(args.drop_first(), ret),
        ),
{
}

/// A function that gives a function takes the arguments of both, in order.
pub proof fn law_functions_are_curried(first: Seq<Term<Op>>, last: Seq<Term<Op>>, ret: Term<Op>)
    ensures
        type_cache::function_type(first + last, ret) == type_cache::function_type(
            first,
            type_cache::function_type(last, ret),
        ),
    decreases first.len(),
{
    if first.len() == 0 {
        assert(first + last =~= last);
    } else {
        assert((first + last).drop_first() =~= first.drop_first() + last);
        law_functions_are_curried(first.drop_first(), last, ret);
    }
}

/// After `i` arrows comes an arrow from the argument at `i`, and after all of them the result.
pub proof fn law_arguments_come_in_order(args: Seq<Term<Op>>, ret: Term<Op>, i: int)
    requires
        0 <= i < args.len(),
    ensures
        after_arrows(type_cache::function_type(args, ret), i as nat) == arrow(
            args[i],
            after_arrows(type_cache::function_type(args, ret), (i + 1) as nat),
        ),
        after_arrows(type_cache::function_type(args, ret), args.len()) == ret,
    decreases args.len(),
{
    let t = type_cache::function_type(args, ret);
    let rest = args.drop_first();
    let next = type_cache::function_type(rest, ret);
    assert(t == arrow(args[0], next));
    assert(t->Node_1[2] == next);
    assert(after_arrows(t, (i + 1) as nat) == after_arrows(next, i as nat));
    assert(after_arrows(t, args.len()) == after_arrows(next, rest.len()));
    if i > 0 {
        assert(after_arrows(t, i as nat) == after_arrows(next, (i - 1) as nat));
        assert(rest[i - 1] == args[i]);
        law_arguments_come_in_order(rest, ret, i - 1);
    } else if rest.len() > 0 {
        law_arguments_come_in_order(rest, ret, 0);
    }
}

/// An array type applies the array constructor to the type of the elements.
pub proof fn law_arrays_hold_their_elements(element: Term<Op>)
    ensures
        type_cache::array_type(element) == Term::Node(
            Op::App,
            seq![Term::Node(Op::Builtin(BuiltinType::Array), Seq::empty()), element],
        ),
{
}

/// A record type is one row: the fields with their types in order, and then the empty row. Without
/// fields it is the empty row alone.
pub proof fn law_records_hold_their_fields(names: Seq<Seq<char>>, fields: Seq<Term<Op>>)
    requires
        names.len() == fields.len(),
    ensures
        type_cache::record_type(names, fields) matches Term::Node(Op::Record, rows) && rows.len()
            == 1 && {
            &&& names.len() == 0 ==> rows[0] == Term::Node(Op::EmptyRow, Seq::empty())
            &&& names.len() > 0 ==> (rows[0] matches Term::Node(Op::ExtendRow(found), kids)
                && found == names && kids.len() == fields.len() + 1 && (forall|i: int|
                0 <= i < fields.len() ==> #[trigger] kids[i] == fields[i]) && kids[fields.len() as int]
                == Term::Node(Op::EmptyRow, Seq::empty()))
        },
{
}

/// Types are the same as terms only if they are made of the same parts.
pub proof fn law_models_keep_the_parts(a: types::Type, b: types::Type)
    requires
        a.model() == b.model(),
    ensures
        match (a, b) {
            (types::Type::Variable(v), types::Type::Variable(w)) => v == w,
            (types::Type::Node(op, args), types::Type::Node(other_op, other_args)) => {
                &&& op.model() == other_op.model()
                &&& args@.len() == other_args@.len()
                &&& forall|i: int|
                    0 <= i < args@.len() ==> (#[trigger] args@[i]).model() == other_args@[i].model()
            },
            _ => false,
        },
{
    if let types::Type::Node(_, args) = a {
        if let types::Type::Node(_, other_args) = b {
            assert(a.model()->Node_1.len() == args@.len());
            assert(b.model()->Node_1.len() == other_args@.len());
            assert forall|i: int| 0 <= i < args@.len() implies (#[trigger] args@[i]).model()
                == other_args@[i].model() by {
                assert(a.model()->Node_1[i] == args@[i].model());
                assert(b.model()->Node_1[i] == other_args@[i].model());
            }
        }
    }
}

/// Operators are the same in terms only if they are of the same kind, with the same symbols, in
/// order.
pub proof fn law_models_keep_the_operator(a: types::TypeOp, b: types::TypeOp)
    requires
        a.model() == b.model(),
    ensures
        match (a, b) {
            (types::TypeOp::Builtin(m), types::TypeOp::Builtin(n)) => m == n,
            (types::TypeOp::Forall(m), types::TypeOp::Forall(n)) => m@.len() == n@.len() && forall|
                i: int,
            |
                0 <= i < m@.len() ==> (#[trigger] m@[i]).id == n@[i].id && m@[i].name@ == n@[i].name@,
            (types::TypeOp::ExtendRow(m), types::TypeOp::ExtendRow(n)) => m@.len() == n@.len()
                && forall|i: int| 0 <= i < m@.len() ==> (#[trigger] m@[i])@ == n@[i]@,
            (types::TypeOp::Ident(m), types::TypeOp::Ident(n)) => m.id == n.id && m.name@ == n.name@,
            (types::TypeOp::Generic(m), types::TypeOp::Generic(n)) => m.id == n.id && m.name@
                == n.name@,
            (types::TypeOp::Skolem(m), types::TypeOp::Skolem(n)) => m.id == n.id && m.name@
                == n.name@,
            (types::TypeOp::Alias(m), types::TypeOp::Alias(n)) => {
                &&& m.alias.name.id == n.alias.name.id
                &&& m.alias.name.name@ == n.alias.name.name@
                &&& m.alias.typ.model() == n.alias.typ.model()
                &&& m.group@.len() == n.group@.len()
                &&& forall|i: int|
                    0 <= i < m.group@.len() ==> (#[trigger] m.group@[i]).name.id == n.group@[i].name.id
                        && m.group@[i].typ.model() == n.group@[i].typ.model()
            },
            (types::TypeOp::Hole, types::TypeOp::Hole) => true,
            (types::TypeOp::Opaque, types::TypeOp::Opaque) => true,
            (types::TypeOp::App, types::TypeOp::App) => true,
            (types::TypeOp::Record, types::TypeOp::Record) => true,
            (types::TypeOp::EmptyRow, types::TypeOp::EmptyRow) => true,
            _ => false,
        },
{
    match (a, b) {
        (types::TypeOp::Forall(m), types::TypeOp::Forall(n)) => {
            assert(types::symbols_of(m@) == types::symbols_of(n@));
            assert(types::symbols_of(m@).len() == m@.len());
            assert(types::symbols_of(n@).len() == n@.len());
            assert forall|i: int| 0 <= i < m@.len() implies (#[trigger] m@[i]).model()
                == n@[i].model() by {
                assert(types::symbols_of(m@)[i] == m@[i].model());
                assert(types::symbols_of(n@)[i] == n@[i].model());
            }
        },
        (types::TypeOp::ExtendRow(m), types::TypeOp::ExtendRow(n)) => {
            let x = text::texts_of(m@);
            assert(x == text::texts_of(n@));
            assert(x.len() == m@.len() && x.len() == n@.len());
            assert forall|i: int| 0 <= i < m@.len() implies (#[trigger] m@[i])@ == n@[i]@ by {
                assert(x[i] == m@[i]@);
                assert(x[i] == n@[i]@);
            }
        },
        (types::TypeOp::Alias(m), types::TypeOp::Alias(n)) => {
            assert(m.model() == n.model());
            assert(m.model().group.len() == m.group@.len());
            assert(n.model().group.len() == n.group@.len());
            assert(m.model().alias == Box::new(m.alias.model()));
            assert(n.model().alias == Box::new(n.alias.model()));
            assert forall|i: int| 0 <= i < m.group@.len() implies (#[trigger] m.group@[i]).name.id
                == n.group@[i].name.id && m.group@[i].typ.model() == n.group@[i].typ.model() by {
                assert(m.model().group[i] == m.group@[i].model());
                assert(n.model().group[i] == n.group@[i].model());
            }
        },
        _ => {},
    }
}

} // verus!
