//! What an alias is replaced by, and when.
use vstd::prelude::*;
use crate::alias;
use crate::resolve;
use crate::resolve::TypeEnv;
use crate::rewrite;
use crate::rewrite::Leaf;
use crate::symbol::SymbolModel;
use crate::term::Term;
use crate::type_laws;
use crate::types::{AliasData, AliasModel, AliasRef, Op};

verus! {

/// Of several aliases, the first one of a name is found.
pub proof fn law_first_alias_of_a_name_counts(aliases: Seq<AliasRef>, i: int)
    requires
        0 <= i < aliases.len(),
        forall|j: int|
            0 <= j < i ==> (#[trigger] aliases[j]).alias.name.id != aliases[i].alias.name.id,
    ensures
        resolve::first_named(aliases, aliases[i].alias.name.id) == Some(aliases[i].model()),
    decreases aliases.len(),
{
    if i > 0 {
        assert(aliases[0].alias.name.id != aliases[i].alias.name.id);
        let rest = aliases.drop_first();
        assert(rest[i - 1] == aliases[i]);
        assert forall|j: int| 0 <= j < i - 1 implies (#[trigger] rest[j]).alias.name.id
            != rest[i - 1].alias.name.id by {
            assert(rest[j] == aliases[j + 1]);
        }
        law_first_alias_of_a_name_counts(rest, i - 1);
    }
}

/// A name that none of the aliases has is not found.
pub proof fn law_other_names_are_not_found(aliases: Seq<AliasRef>, id: u64)
    requires
        forall|j: int| 0 <= j < aliases.len() ==> (#[trigger] aliases[j]).alias.name.id != id,
    ensures
        resolve::first_named(aliases, id) is None,
    decreases aliases.len(),
{
    if aliases.len() > 0 {
        assert(aliases[0].alias.name.id != id);
        let rest = aliases.drop_first();
        assert forall|j: int| 0 <= j < rest.len() implies (#[trigger] rest[j]).alias.name.id != id by {
            assert(rest[j] == aliases[j + 1]);
        }
        law_other_names_are_not_found(rest, id);
    }
}

/// What the environment knows of a name, or that it does not know it.
pub open spec fn known<E: TypeEnv>(env: &E, name: SymbolModel) -> Result<
    Option<AliasModel>,
    SymbolModel,
> {
    match env.info(name.id) {
        Some(found) => Ok(Some(found)),
        None => Err(name),
    }
}

/// An identifier, applied to anything or not, is what the environment has under its name; an
/// unknown one is an error that names it.
pub proof fn law_identifiers_are_looked_up<E: TypeEnv>(
    env: &E,
    name: SymbolModel,
    kids: Seq<Term<Op>>,
    args: Seq<Term<Op>>,
)
    ensures
        resolve::peeked(env, type_laws::given(Term::Node(Op::Ident(name), kids), args)) == known(
            env,
            name,
        ),
{
    let head = Term::Node(Op::Ident(name), kids);
    assert((seq![head] + args)[0] == head);
    type_laws::law_names_of_types(name, arbitrary(), kids, head, args);
    assert(resolve::carried_alias(head, args.len()) is None);
}

/// An alias that is applied to as many arguments as it has parameters is that very alias, whatever
/// the environment has under its name; otherwise it is what the environment has.
pub proof fn law_carried_aliases_come_first<E: TypeEnv>(
    env: &E,
    found: AliasModel,
    params: Seq<SymbolModel>,
    body: Term<Op>,
    kids: Seq<Term<Op>>,
    args: Seq<Term<Op>>,
)
    requires
        found.alias.typ == type_laws::bound(params, body),
    ensures
        resolve::peeked(env, type_laws::given(Term::Node(Op::Alias(found), kids), args)) == (
        if args.len() == params.len() {
            Ok::<Option<AliasModel>, SymbolModel>(Some(found))
        } else {
            known(env, found.alias.name)
        }),
{
    let head = Term::Node(Op::Alias(found), kids);
    assert((seq![head] + args)[0] == head);
    type_laws::law_names_of_types(found.alias.name, found, kids, head, args);
    assert(alias::params_of(found.alias.typ) == params);
    assert((seq![head] + args).len() == args.len() + 1);
    assert(resolve::carried_alias(head, args.len()) == if params.len() == args.len() {
        Some(found)
    } else {
        None
    });
}

/// The same for an alias that has no parameters.
pub proof fn law_plain_aliases_come_first<E: TypeEnv>(
    env: &E,
    found: AliasModel,
    kids: Seq<Term<Op>>,
    args: Seq<Term<Op>>,
)
    requires
        !(found.alias.typ matches Term::Node(Op::Forall(_), _)),
    ensures
        resolve::peeked(env, type_laws::given(Term::Node(Op::Alias(found), kids), args)) == (
        if args.len() == 0 {
            Ok::<Option<AliasModel>, SymbolModel>(Some(found))
        } else {
            known(env, found.alias.name)
        }),
{
    let head = Term::Node(Op::Alias(found), kids);
    assert((seq![head] + args)[0] == head);
    type_laws::law_names_of_types(found.alias.name, found, kids, head, args);
    assert(alias::params_of(found.alias.typ).len() == 0);
    assert((seq![head] + args).len() == args.len() + 1);
    assert(resolve::carried_alias(head, args.len()) == if 0 == args.len() {
        Some(found)
    } else {
        None
    });
}

/// A name that stands for an alias, applied to arguments, is replaced by the type of the alias
/// applied to those arguments, unless that type is opaque.
pub proof fn law_names_are_replaced_by_their_types<E: TypeEnv>(
    env: &E,
    name: SymbolModel,
    found: AliasModel,
    args: Seq<Term<Op>>,
)
    requires
        env.info(name.id) == Some(found),
    ensures
        alias::remove_forall(found.alias.typ) matches Term::Node(Op::Opaque, _)
            ==> resolve::expanded(
            env,
            type_laws::given(Term::Node(Op::Ident(name), Seq::empty()), args),
        ) == Ok::<Option<Term<Op>>, SymbolModel>(None),
        !(alias::remove_forall(found.alias.typ) matches Term::Node(Op::Opaque, _))
            ==> resolve::expanded(
            env,
            type_laws::given(Term::Node(Op::Ident(name), Seq::empty()), args),
        ) == Ok::<Option<Term<Op>>, SymbolModel>(
            alias::applied(alias::alias_type(found), args),
        ),
{
    let head = Term::Node(Op::Ident(name), Seq::empty());
    let t = type_laws::given(head, args);
    law_identifiers_are_looked_up(env, name, Seq::empty(), args);
    type_laws::law_unquantified_types_stay(t);
    type_laws::law_arguments_of_applications(Op::Ident(name), Seq::empty(), head, args, 0);
    assert(alias::unapplied_args(t) =~= args);
}

/// A name that the environment does not know is an error that names it, and is not replaced.
pub proof fn law_unknown_names_are_errors<E: TypeEnv>(
    env: &E,
    name: SymbolModel,
    args: Seq<Term<Op>>,
)
    requires
        env.info(name.id) is None,
    ensures
        ({
            let t = type_laws::given(Term::Node(Op::Ident(name), Seq::empty()), args);
            &&& resolve::expanded(env, t) == Err::<Option<Term<Op>>, SymbolModel>(name)
            &&& resolve::expansion_ends(env, t)
            &&& resolve::fully_expanded(env, t) == t
        }),
{
    let t = type_laws::given(Term::Node(Op::Ident(name), Seq::empty()), args);
    law_identifiers_are_looked_up(env, name, Seq::empty(), args);
    type_laws::law_unquantified_types_stay(t);
    assert(resolve::removed(env, t, 0) == Some(t));
    resolve::lemma_fully_expanded(env, t, 0);
}

/// The name of an alias that just names one of its parameters, applied to as many arguments, is
/// replaced by the argument at the position of that parameter.
pub proof fn law_projections_are_replaced<E: TypeEnv>(
    env: &E,
    name: SymbolModel,
    params: Seq<SymbolModel>,
    args: Seq<Term<Op>>,
    i: int,
)
    requires
        type_laws::distinct(params),
        args.len() == params.len(),
        0 <= i < params.len(),
        env.info(name.id) == Some(
            type_laws::alias_for(
                name,
                Seq::empty(),
                type_laws::bound(params, Term::Node(Op::Generic(params[i]), Seq::empty())),
            ),
        ),
    ensures
        resolve::expanded(
            env,
            type_laws::given(Term::Node(Op::Ident(name), Seq::empty()), args),
        ) == Ok::<Option<Term<Op>>, SymbolModel>(Some(args[i])),
{
    let body = Term::Node(Op::Generic(params[i]), Seq::empty());
    let typ = type_laws::bound(params, body);
    let found = type_laws::alias_for(name, Seq::empty(), typ);
    assert(typ->Node_1[0] == body);
    assert(alias::remove_forall(typ) == alias::remove_forall(body));
    law_names_are_replaced_by_their_types(env, name, found, args);
    type_laws::law_aliases_go_under_operators(
        name,
        Seq::empty(),
        Op::Generic(params[i]),
        Seq::empty(),
        0,
    );
    type_laws::law_aliases_go_under_operators(
        name,
        Seq::empty(),
        Op::Forall(params),
        seq![body],
        0,
    );
    let inner = alias::alias_type(type_laws::alias_for(name, Seq::empty(), body));
    assert(inner->Node_1 =~= Seq::empty());
    assert(inner == body);
    assert(alias::alias_type(found)->Node_1 =~= seq![body]);
    type_laws::law_parameters_stand_for_arguments(params, args, i, Seq::empty());
}

/// Where an alias is replaced, what is left in the end is what is left of the replacement.
pub proof fn law_replacing_goes_on<E: TypeEnv>(env: &E, t: Term<Op>, next: Term<Op>)
    requires
        resolve::expanded(env, t) == Ok::<Option<Term<Op>>, SymbolModel>(Some(next)),
        resolve::expansion_ends(env, next),
    ensures
        resolve::expansion_ends(env, t),
        resolve::fully_expanded(env, t) == resolve::fully_expanded(env, next),
{
    resolve::lemma_expand_once(env, t, next);
}

/// Quantifiers around a type do not matter to its aliases: what they bind is rigid.
pub proof fn law_quantified_aliases_are_rigid<E: TypeEnv>(
    env: &E,
    params: Seq<SymbolModel>,
    t: Term<Op>,
)
    requires
        !(t matches Term::Node(Op::Forall(_), _)),
    ensures
        resolve::expanded(env, type_laws::bound(params, t)) == resolve::expanded(
            env,
            alias::skolemized(type_laws::bound(params, t)),
        ),
{
    let whole = type_laws::bound(params, t);
    let found = alias::skolemized(whole);
    assert(whole->Node_1[0] == t);
    assert(alias::remove_forall(t) == t);
    if let Term::Node(op, _) = t {
        if let Some(leaf) = rewrite::leaf_of(op) {
            lemma_rigid(alias::all_params(whole), leaf);
        }
    }
    assert(!(found matches Term::Node(Op::Forall(_), _)));
    type_laws::law_unquantified_types_stay(found);
}

/// A parameter is replaced by a rigid constant, if at all.
proof fn lemma_rigid(params: Seq<SymbolModel>, leaf: Leaf)
    ensures
        rewrite::rule_for(alias::skolem_rules(params), leaf) matches Some(found) ==> (found matches Term::Node(Op::Skolem(_), _)),
    decreases params.len(),
{
    let rules = alias::skolem_rules(params);
    if params.len() > 0 && leaf != Leaf::Generic(params[0].id) {
        assert(rules.drop_first() =~= alias::skolem_rules(params.drop_first()));
        lemma_rigid(params.drop_first(), leaf);
    }
}

/// What is asked about a type is its own alias: the answer is one for that alias, and there is none
/// for a type that has no alias.
pub proof fn law_answers_are_about_the_alias<E: TypeEnv, F: Fn(&AliasData) -> bool>(
    env: &E,
    canonical: F,
    t: Term<Op>,
    found: AliasRef,
    answer: bool,
)
    ensures
        resolve::peeked(env, t) == Ok::<Option<AliasModel>, SymbolModel>(Some(found.model()))
            && canonical.ensures((&*found.alias,), answer) ==> resolve::may_answer(
            env,
            canonical,
            t,
            answer,
        ),
        resolve::may_answer(env, canonical, t, answer) ==> (resolve::peeked(env, t) matches Ok(
            Some(_),
        )) && exists|other: AliasRef|
            resolve::peeked(env, t) == Ok::<Option<AliasModel>, SymbolModel>(
                Some(#[trigger] other.model()),
            ) && canonical.ensures((&*other.alias,), answer),
{
}

/// A type whose alias is always canonical is left as it is.
pub proof fn law_canonical_aliases_stay<E: TypeEnv, F: Fn(&AliasData) -> bool>(
    env: &E,
    canonical: F,
    t: Term<Op>,
    found: Term<Op>,
    fuel: nat,
)
    requires
        forall|data: &AliasData| !#[trigger] canonical.ensures((data,), false),
        resolve::canonical_form(env, canonical, t, found, fuel),
    ensures
        found == t,
{
}

/// Where no alias is canonical, aliases are replaced as long as that is possible.
pub proof fn law_other_aliases_are_replaced<E: TypeEnv, F: Fn(&AliasData) -> bool>(
    env: &E,
    canonical: F,
    t: Term<Op>,
    found: Term<Op>,
    fuel: nat,
)
    requires
        forall|data: &AliasData| !#[trigger] canonical.ensures((data,), true),
        resolve::canonical_form(env, canonical, t, found, fuel),
    ensures
        match resolve::peeked(env, found) {
            Ok(Some(alias)) => alias::applied(
                alias::alias_type(alias),
                alias::unapplied_args(found),
            ) is None,
            _ => true,
        },
        match resolve::peeked(env, t) {
            Ok(Some(alias)) => match alias::applied(
                alias::alias_type(alias),
                alias::unapplied_args(t),
            ) {
                Some(next) => fuel > 0 && resolve::canonical_form(
                    env,
                    canonical,
                    next,
                    found,
                    (fuel - 1) as nat,
                ),
                None => found == t,
            },
            _ => found == t,
        },
    decreases fuel,
{
    if let Some(next) = resolve::alias_applied(env, t) {
        if fuel > 0 && resolve::canonical_form(env, canonical, next, found, (fuel - 1) as nat) {
            law_other_aliases_are_replaced(env, canonical, next, found, (fuel - 1) as nat);
        }
    }
}

} // verus!
