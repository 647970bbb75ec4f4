//! Replacing type aliases by the types that they name.
use vstd::prelude::*;
use crate::alias;
use crate::symbol::{Symbol, SymbolModel};
use crate::term::Term;
use crate::types;
use crate::types::{AliasData, AliasModel, AliasRef, Op, Type, TypeOp};
use std::borrow::Cow;
use vstd::string::StringExecFns;

verus! {

/// Why an alias could not be resolved.
#[derive(Debug)]
pub enum Error {
    /// There is no type of that name.
    UndefinedType(Symbol),
}

impl Error {
    /// What kind of error it is.
    pub fn description(&self) -> (description: String)
        ensures
            match self {
                Error::UndefinedType(_) => description@ == "undefined type"@,
            },
    {
        match self {
            Error::UndefinedType(_) => "undefined type".to_owned(),
        }
    }

    /// The error as it is shown to a user.
    pub fn message(&self) -> (message: String)
        ensures
            match self {
                Error::UndefinedType(id) => message@ == "Type `"@ + id.name@ + "` does not exist."@,
            },
    {
        match self {
            Error::UndefinedType(id) => {
                let mut message = String::new();
                message.append("Type `");
                message.append(id.name.as_str());
                message.append("` does not exist.");
                assert(message@ =~= "Type `"@ + id.name@ + "` does not exist."@);
                message
            },
        }
    }
}

/// A trait which provides a lookup of the type information of names.
pub trait TypeEnv {
    /// The alias of that name.
    spec fn info(&self, id: u64) -> Option<AliasModel>;

    /// Returns the type info of the name.
    fn find_type_info(&self, id: &Symbol) -> (alias: Option<&AliasRef>)
        ensures
            match alias {
                Some(found) => self.info(id.id) == Some(found.model()),
                None => self.info(id.id) is None,
            },
    ;
}

/// The first of several aliases that has a name.
pub open spec fn first_named(aliases: Seq<AliasRef>, id: u64) -> Option<AliasModel>
    decreases aliases.len(),
{
    if aliases.len() == 0 {
        None
    } else if aliases[0].alias.name.id == id {
        Some(aliases[0].model())
    } else {
        first_named(aliases.drop_first(), id)
    }
}

/// Aliases are looked up by their own names; the first of a name counts.
impl TypeEnv for Vec<AliasRef> {
    open spec fn info(&self, id: u64) -> Option<AliasModel> {
        first_named(self@, id)
    }

    fn find_type_info(&self, id: &Symbol) -> (alias: Option<&AliasRef>) {
        let mut i: usize = 0;
        assert(self@.skip(0) =~= self@);
        while i < self.len()
            invariant
                i <= self.len(),
                first_named(self@.skip(i as int), id.id) == first_named(self@, id.id),
            decreases self.len() - i,
        {
            assert(self@.skip(i as int)[0] == self@[i as int]);
            assert(self@.skip(i as int).drop_first() =~= self@.skip(i + 1));
            if self[i].alias.name.id == id.id {
                return Some(&self[i]);
            }
            i = i + 1;
        }
        None
    }
}

/// The alias that a type carries itself, where it is applied to as many arguments as it has
/// parameters; `given` arguments have been seen already.
pub open spec fn carried_alias(t: Term<Op>, given: nat) -> Option<AliasModel>
    decreases t,
{
    match t {
        Term::Node(Op::Alias(found), _) => if alias::params_of(found.alias.typ).len() == given {
            Some(found)
        } else {
            None
        },
        Term::Node(Op::App, kids) => if kids.len() > 0 {
            carried_alias(kids[0], (kids.len() - 1 + given) as nat)
        } else {
            None
        },
        _ => None,
    }
}

/// The alias that a type is headed by: the one that it carries, or the one that the environment
/// has under its name. An error names what the environment does not know.
pub open spec fn peeked<E: TypeEnv>(env: &E, t: Term<Op>) -> Result<Option<AliasModel>, SymbolModel> {
    match alias::alias_ident(t) {
        Some(id) => match carried_alias(t, 0) {
            Some(found) => Ok(Some(found)),
            None => match env.info(id.id) {
                Some(found) => Ok(Some(found)),
                None => Err(id),
            },
        },
        None => Ok(None),
    }
}

/// The type that one expansion gives; nothing where the type is not an alias, or the alias is
/// opaque or cannot be expanded.
pub open spec fn expanded<E: TypeEnv>(env: &E, t: Term<Op>) -> Result<Option<Term<Op>>, SymbolModel> {
    let typ = alias::skolemized(t);
    match peeked(env, typ) {
        Ok(Some(found)) => match alias::remove_forall(found.alias.typ) {
            Term::Node(Op::Opaque, _) => Ok(None),
            _ => Ok(alias::applied(alias::alias_type(found), alias::unapplied_args(typ))),
        },
        Ok(None) => Ok(None),
        Err(id) => Err(id),
    }
}

/// The type after `fuel` expansions at most; `None` where those are not enough.
pub open spec fn removed<E: TypeEnv>(env: &E, t: Term<Op>, fuel: nat) -> Option<Term<Op>>
    decreases fuel,
{
    match expanded(env, t) {
        Ok(Some(next)) => if fuel == 0 {
            None
        } else {
            removed(env, next, (fuel - 1) as nat)
        },
        _ => Some(t),
    }
}

/// The aliases around the type come to an end.
pub open spec fn expansion_ends<E: TypeEnv>(env: &E, t: Term<Op>) -> bool {
    exists|fuel: nat| (#[trigger] removed(env, t, fuel)) is Some
}

/// The type without aliases around it, where they come to an end.
pub open spec fn fully_expanded<E: TypeEnv>(env: &E, t: Term<Op>) -> Term<Op> {
    let fuel = choose|fuel: nat| (#[trigger] removed(env, t, fuel)) is Some;
    removed(env, t, fuel).unwrap()
}

/// More expansions than are needed change nothing.
pub proof fn lemma_removed_fuel<E: TypeEnv>(env: &E, t: Term<Op>, fuel: nat, more: nat)
    requires
        removed(env, t, fuel) is Some,
        fuel <= more,
    ensures
        removed(env, t, more) == removed(env, t, fuel),
    decreases fuel,
{
    if let Ok(Some(next)) = expanded(env, t) {
        lemma_removed_fuel(env, next, (fuel - 1) as nat, (more - 1) as nat);
    }
}

/// Any number of expansions that is enough gives the type without aliases.
pub proof fn lemma_fully_expanded<E: TypeEnv>(env: &E, t: Term<Op>, fuel: nat)
    requires
        removed(env, t, fuel) is Some,
    ensures
        expansion_ends(env, t),
        removed(env, t, fuel) == Some(fully_expanded(env, t)),
{
    let chosen = choose|fuel: nat| (#[trigger] removed(env, t, fuel)) is Some;
    if fuel <= chosen {
        lemma_removed_fuel(env, t, fuel, chosen);
    } else {
        lemma_removed_fuel(env, t, chosen, fuel);
    }
}

/// One expansion does not change what comes out in the end.
pub proof fn lemma_expand_once<E: TypeEnv>(env: &E, t: Term<Op>, next: Term<Op>)
    requires
        expanded(env, t) == Ok::<Option<Term<Op>>, SymbolModel>(Some(next)),
    ensures
        expansion_ends(env, next) <==> expansion_ends(env, t),
        expansion_ends(env, t) ==> fully_expanded(env, next) == fully_expanded(env, t),
{
    if expansion_ends(env, t) {
        let fuel = choose|fuel: nat| (#[trigger] removed(env, t, fuel)) is Some;
        assert(removed(env, next, (fuel - 1) as nat) is Some);
        lemma_fully_expanded(env, next, (fuel - 1) as nat);
        lemma_fully_expanded(env, t, fuel);
    }
    if expansion_ends(env, next) {
        let fuel = choose|fuel: nat| (#[trigger] removed(env, next, fuel)) is Some;
        assert(removed(env, t, fuel + 1) is Some);
    }
}

/// Expand `typ` if it is an alias that can be expanded and return the expanded type.
/// Returns `None` if the type is not an alias or the alias could not be expanded.
pub fn remove_alias<E: TypeEnv>(env: &E, typ: &Type) -> (result: Result<Option<Type>, Error>)
    ensures
        match result {
            Ok(Some(next)) => expanded(env, typ.model()) == Ok::<Option<Term<Op>>, SymbolModel>(
                Some(next.model()),
            ),
            Ok(None) => expanded(env, typ.model()) == Ok::<Option<Term<Op>>, SymbolModel>(None),
            Err(Error::UndefinedType(id)) => expanded(env, typ.model()) == Err::<
                Option<Term<Op>>,
                SymbolModel,
            >(id.model()),
        },
{
    let typ = typ.skolemize();
    match peek_alias(env, &typ) {
        Err(error) => Err(error),
        Ok(None) => Ok(None),
        Ok(Some(found)) => {
            // Opaque types should only exist as the alias itself
            let inner = found.unresolved_type().remove_forall();
            if inner.is_opaque() {
                return Ok(None);
            }
            Ok(found.typ().apply_args(&typ.unapplied_args()))
        },
    }
}

impl Type {
    /// Whether the type is opaque.
    fn is_opaque(&self) -> (opaque: bool)
        ensures
            opaque == (self.model() matches Term::Node(Op::Opaque, _)),
    {
        match self {
            Type::Node(TypeOp::Opaque, _) => {
                assert(TypeOp::Opaque.model() == Op::Opaque);
                true
            },
            Type::Node(op, _) => {
                assert(!(op.model() is Opaque));
                false
            },
            Type::Variable(_) => false,
        }
    }
}

/// The alias that the type is headed by: the one that it carries, or the one that the environment
/// has under its name.
pub fn peek_alias<'t, E: TypeEnv>(env: &'t E, typ: &'t Type) -> (result: Result<
    Option<&'t AliasRef>,
    Error,
>)
    ensures
        match result {
            Ok(Some(found)) => peeked(env, typ.model()) == Ok::<Option<AliasModel>, SymbolModel>(
                Some(found.model()),
            ),
            Ok(None) => peeked(env, typ.model()) == Ok::<Option<AliasModel>, SymbolModel>(None),
            Err(Error::UndefinedType(id)) => peeked(env, typ.model()) == Err::<
                Option<AliasModel>,
                SymbolModel,
            >(id.model()),
        },
{
    let carried = extract_alias(typ, 0);
    match typ.alias_ident() {
        Some(id) => match carried {
            Some(found) => Ok(Some(found)),
            None => match env.find_type_info(id) {
                Some(found) => Ok(Some(found)),
                None => Err(Error::UndefinedType(id.clone())),
            },
        },
        None => Ok(None),
    }
}

/// No alias has more parameters than can be counted.
proof fn lemma_too_many_arguments(typ: Type, given: nat)
    requires
        given > usize::MAX,
    ensures
        carried_alias(typ.model(), given) is None,
    decreases typ,
{
    if let Type::Node(op, args) = typ {
        match op {
            TypeOp::Alias(a) => {
                assert(op.model() == Op::Alias(a.model()));
                assert(a.model().alias == Box::new(a.alias.model()));
                assert(a.alias.model().typ == a.alias.typ.model());
                if let Type::Node(inner, kids) = a.alias.typ {
                    if let TypeOp::Forall(params) = inner {
                        assert(inner.model() == Op::Forall(types::symbols_of(params@)));
                        assert(types::symbols_of(params@).len() == params.len());
                    } else {
                        assert(!(inner.model() is Forall));
                    }
                }
            },
            TypeOp::App => {
                assert(op.model() == Op::App);
                if args@.len() > 0 {
                    lemma_too_many_arguments(args@[0], (args@.len() - 1 + given) as nat);
                }
            },
            _ => {
                assert(!(op.model() is Alias) && !(op.model() is App));
            },
        }
    }
}

/// The alias that the type carries itself, where it is applied to as many arguments as it has
/// parameters.
fn extract_alias(typ: &Type, given_arguments_count: usize) -> (found: Option<&AliasRef>)
    ensures
        match found {
            Some(a) => carried_alias(typ.model(), given_arguments_count as nat) == Some(a.model()),
            None => carried_alias(typ.model(), given_arguments_count as nat) is None,
        },
    decreases typ,
{
    match typ {
        Type::Node(TypeOp::Alias(a), _) => {
            assert(TypeOp::Alias(*a).model() == Op::Alias(a.model()));
            let params = a.params();
            assert(types::symbols_of(params@).len() == params@.len());
            if params.len() == given_arguments_count {
                Some(a)
            } else {
                None
            }
        },
        Type::Node(TypeOp::App, args) => {
            assert(TypeOp::App.model() == Op::App);
            if args.len() > 0 {
                match (args.len() - 1).checked_add(given_arguments_count) {
                    Some(count) => extract_alias(&args[0], count),
                    None => {
                        proof {
                            lemma_too_many_arguments(
                                args@[0],
                                (args@.len() - 1 + given_arguments_count) as nat,
                            );
                        }
                        None
                    },
                }
            } else {
                None
            }
        },
        Type::Node(op, _) => {
            assert(!(op.model() is Alias) && !(op.model() is App));
            None
        },
        Type::Variable(_) => None,
    }
}

/// Removes type aliases from `typ` until it is an actual type
pub fn remove_aliases<E: TypeEnv>(env: &E, typ: Type) -> (found: Type)
    requires
        expansion_ends(env, typ.model()),
    ensures
        found.model() == fully_expanded(env, typ.model()),
{
    let ghost start = typ.model();
    let ghost mut fuel = choose|fuel: nat| (#[trigger] removed(env, start, fuel)) is Some;
    proof {
        lemma_fully_expanded(env, start, fuel);
    }
    let mut typ = typ;
    loop
        invariant
            removed(env, typ.model(), fuel) == Some(fully_expanded(env, start)),
        ensures
            typ.model() == fully_expanded(env, start),
        decreases fuel,
    {
        match remove_alias(env, &typ) {
            Ok(Some(next)) => {
                typ = next;
                proof {
                    fuel = (fuel - 1) as nat;
                }
            },
            _ => {
                break ;
            },
        }
    }
    typ
}

/// A type that may be borrowed, as a term.
pub open spec fn model_of(typ: Cow<'_, Type>) -> Term<Op> {
    match typ {
        Cow::Borrowed(t) => t.model(),
        Cow::Owned(t) => t.model(),
    }
}

/// Removes type aliases from `typ` until it is an actual type; a type that has none is not copied.
pub fn remove_aliases_cow<'t, E: TypeEnv>(env: &E, typ: &'t Type) -> (found: Cow<'t, Type>)
    requires
        expansion_ends(env, typ.model()),
    ensures
        match found {
            Cow::Borrowed(t) => t == typ && !(expanded(env, typ.model()) matches Ok(Some(_))),
            Cow::Owned(t) => (expanded(env, typ.model()) matches Ok(Some(_))),
        },
        model_of(found) == fully_expanded(env, typ.model()),
{
    match remove_alias(env, typ) {
        Ok(Some(next)) => {
            proof {
                lemma_expand_once(env, typ.model(), next.model());
            }
            Cow::Owned(remove_aliases(env, next))
        },
        _ => {
            proof {
                assert(removed(env, typ.model(), 0) is Some);
                lemma_fully_expanded(env, typ.model(), 0);
            }
            Cow::Borrowed(typ)
        },
    }
}

/// The type that the alias around `t` may be replaced by, if it is not canonical.
pub open spec fn alias_applied<E: TypeEnv>(env: &E, t: Term<Op>) -> Option<Term<Op>> {
    match peeked(env, t) {
        Ok(Some(found)) => alias::applied(alias::alias_type(found), alias::unapplied_args(t)),
        _ => None,
    }
}

/// `canonical` may give this answer for the alias around `t`.
pub open spec fn may_answer<E: TypeEnv, F: Fn(&AliasData) -> bool>(
    env: &E,
    canonical: F,
    t: Term<Op>,
    answer: bool,
) -> bool {
    exists|found: AliasRef|
        peeked(env, t) == Ok::<Option<AliasModel>, SymbolModel>(Some(#[trigger] found.model()))
            && canonical.ensures((&*found.alias,), answer)
}

/// However `canonical` answers, no more than `fuel` aliases around `t` have to be replaced before
/// one is canonical or cannot be replaced.
pub open spec fn canonical_ends<E: TypeEnv, F: Fn(&AliasData) -> bool>(
    env: &E,
    canonical: F,
    t: Term<Op>,
    fuel: nat,
) -> bool
    decreases fuel,
{
    match alias_applied(env, t) {
        Some(next) => may_answer(env, canonical, t, false) ==> fuel > 0 && canonical_ends(
            env,
            canonical,
            next,
            (fuel - 1) as nat,
        ),
        None => true,
    }
}

/// `found` is `t` with no more than `fuel` of the aliases around it replaced: all up to the first
/// one that is canonical or cannot be replaced.
pub open spec fn canonical_form<E: TypeEnv, F: Fn(&AliasData) -> bool>(
    env: &E,
    canonical: F,
    t: Term<Op>,
    found: Term<Op>,
    fuel: nat,
) -> bool
    decreases fuel,
{
    ||| found == t && {
        ||| !(peeked(env, t) matches Ok(Some(_)))
        ||| may_answer(env, canonical, t, true)
        ||| may_answer(env, canonical, t, false) && alias_applied(env, t) is None
    }
    ||| {
        &&& fuel > 0
        &&& may_answer(env, canonical, t, false)
        &&& alias_applied(env, t) matches Some(next)
        &&& canonical_form(env, canonical, next, found, (fuel - 1) as nat)
    }
}

/// Replaces the aliases around `typ` up to the first one that `canonical` accepts or that cannot
/// be replaced; a type of which none is replaced is not copied.
pub fn canonical_alias<'t, E: TypeEnv, F: Fn(&AliasData) -> bool>(
    env: &E,
    typ: &'t Type,
    canonical: &F,
) -> (found: Cow<'t, Type>)
    requires
        forall|data: &AliasData| canonical.requires((data,)),
        exists|fuel: nat| #[trigger] canonical_ends(env, *canonical, typ.model(), fuel),
    ensures
        exists|fuel: nat| #[trigger]
            canonical_form(
                env,
                *canonical,
                typ.model(),
                model_of(found),
                fuel,
            ),
        found matches Cow::Borrowed(t) ==> t == typ,
        found is Owned ==> alias_applied(env, typ.model()) is Some && may_answer(
            env,
            *canonical,
            typ.model(),
            false,
        ),
{
    let ghost fuel = choose|fuel: nat| #[trigger] canonical_ends(env, *canonical, typ.model(), fuel);
    match expand_unless_canonical(env, typ, canonical) {
        None => {
            assert(canonical_form(env, *canonical, typ.model(), typ.model(), 0));
            Cow::Borrowed(typ)
        },
        Some(next) => {
            let found = canonical_alias_owned(env, next, canonical, Ghost((fuel - 1) as nat));
            assert(canonical_form(env, *canonical, typ.model(), found.model(), fuel));
            Cow::Owned(found)
        },
    }
}

/// Replaces the alias around `typ`, unless `canonical` accepts it or it cannot be replaced.
fn expand_unless_canonical<E: TypeEnv, F: Fn(&AliasData) -> bool>(
    env: &E,
    typ: &Type,
    canonical: &F,
) -> (next: Option<Type>)
    requires
        forall|data: &AliasData| canonical.requires((data,)),
    ensures
        match next {
            Some(t) => alias_applied(env, typ.model()) == Some(t.model()) && may_answer(
                env,
                *canonical,
                typ.model(),
                false,
            ),
            None => {
                ||| !(peeked(env, typ.model()) matches Ok(Some(_)))
                ||| may_answer(env, *canonical, typ.model(), true)
                ||| may_answer(env, *canonical, typ.model(), false) && alias_applied(
                    env,
                    typ.model(),
                ) is None
            },
        },
{
    match peek_alias(env, typ) {
        Ok(Some(found)) => {
            if canonical(&found.alias) {
                None
            } else {
                found.typ().apply_args(&typ.unapplied_args())
            }
        },
        _ => None,
    }
}

/// Replaces the aliases around `typ` up to the first one that `canonical` accepts or that cannot
/// be replaced.
fn canonical_alias_owned<E: TypeEnv, F: Fn(&AliasData) -> bool>(
    env: &E,
    typ: Type,
    canonical: &F,
    Ghost(fuel): Ghost<nat>,
) -> (found: Type)
    requires
        forall|data: &AliasData| canonical.requires((data,)),
        canonical_ends(env, *canonical, typ.model(), fuel),
    ensures
        canonical_form(env, *canonical, typ.model(), found.model(), fuel),
    decreases fuel,
{
    match expand_unless_canonical(env, &typ, canonical) {
        None => typ,
        Some(next) => canonical_alias_owned(env, next, canonical, Ghost((fuel - 1) as nat)),
    }
}

/// A type without aliases around it has no more of them to remove: removing aliases once more
/// gives the same type.
pub proof fn law_aliases_are_gone<E: TypeEnv>(env: &E, t: Term<Op>)
    requires
        expansion_ends(env, t),
    ensures
        !(expanded(env, fully_expanded(env, t)) matches Ok(Some(_))),
        expansion_ends(env, fully_expanded(env, t)),
        fully_expanded(env, fully_expanded(env, t)) == fully_expanded(env, t),
{
    let fuel = choose|fuel: nat| (#[trigger] removed(env, t, fuel)) is Some;
    lemma_fully_expanded(env, t, fuel);
    lemma_removed_is_final(env, t, fuel);
    let found = fully_expanded(env, t);
    assert(removed(env, found, 0) == Some(found));
    lemma_fully_expanded(env, found, 0);
}

proof fn lemma_removed_is_final<E: TypeEnv>(env: &E, t: Term<Op>, fuel: nat)
    requires
        removed(env, t, fuel) is Some,
    ensures
        !(expanded(env, removed(env, t, fuel).unwrap()) matches Ok(Some(_))),
    decreases fuel,
{
    if let Ok(Some(next)) = expanded(env, t) {
        lemma_removed_is_final(env, next, (fuel - 1) as nat);
    }
}

/// A type that is no alias, applied or not, is an actual type already: it is left as it is.
pub proof fn law_actual_types_stay<E: TypeEnv>(env: &E, t: Term<Op>)
    requires
        alias::alias_ident(alias::skolemized(t)) is None,
    ensures
        expanded(env, t) == Ok::<Option<Term<Op>>, SymbolModel>(None),
        expansion_ends(env, t),
        fully_expanded(env, t) == t,
{
    assert(removed(env, t, 0) == Some(t));
    lemma_fully_expanded(env, t, 0);
}

/// An alias whose type is opaque only exists as the alias itself: it is never expanded.
pub proof fn law_opaque_aliases_stay<E: TypeEnv>(env: &E, t: Term<Op>, found: AliasModel)
    requires
        peeked(env, alias::skolemized(t)) == Ok::<Option<AliasModel>, SymbolModel>(Some(found)),
        alias::remove_forall(found.alias.typ) matches Term::Node(Op::Opaque, _),
    ensures
        expanded(env, t) == Ok::<Option<Term<Op>>, SymbolModel>(None),
        fully_expanded(env, t) == t,
{
    assert(removed(env, t, 0) == Some(t));
    lemma_fully_expanded(env, t, 0);
}

/// Where every expansion gives a type of a lower rank, the aliases around a type come to an end.
pub proof fn law_ranked_aliases_end<E: TypeEnv>(
    env: &E,
    t: Term<Op>,
    rank: spec_fn(Term<Op>) -> nat,
)
    requires
        forall|u: Term<Op>|
            match #[trigger] expanded(env, u) {
                Ok(Some(next)) => rank(next) < rank(u),
                _ => true,
            },
    ensures
        expansion_ends(env, t),
    decreases rank(t),
{
    match expanded(env, t) {
        Ok(Some(next)) => {
            law_ranked_aliases_end(env, next, rank);
            lemma_expand_once(env, t, next);
        },
        _ => {
            assert(removed(env, t, 0) is Some);
        },
    }
}

} // verus!
