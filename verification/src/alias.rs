//! Taking types apart: applications, quantifiers and aliases.
use vstd::prelude::*;
use crate::rewrite;
use crate::rewrite::Leaf;
use crate::substitution::share;
use crate::symbol::{Symbol, SymbolModel};
use crate::term::Term;
use crate::types;
use crate::types::{AliasEntry, AliasModel, AliasRef, Op, Type, TypeOp};

verus! {

/// The operator without operands.
pub open spec fn leaf(op: Op) -> Term<Op> {
    Term::Node(op, Seq::empty())
}

/// `kids[0]` applied to the others.
pub open spec fn application(kids: Seq<Term<Op>>) -> Term<Op> {
    if kids.len() == 1 {
        kids[0]
    } else {
        Term::Node(Op::App, kids)
    }
}

/// The symbol under which the type may be known as an alias: that of an identifier or of an alias,
/// applied to anything or not.
pub open spec fn alias_ident(t: Term<Op>) -> Option<SymbolModel>
    decreases t,
{
    match t {
        Term::Node(Op::App, kids) => if kids.len() > 0 {
            alias_ident(kids[0])
        } else {
            None
        },
        Term::Node(Op::Ident(id), _) => Some(id),
        Term::Node(Op::Alias(alias), _) => Some(alias.alias.name),
        _ => None,
    }
}

/// All the arguments of an application, those of the applied type first.
pub open spec fn unapplied_args(t: Term<Op>) -> Seq<Term<Op>>
    decreases t,
{
    match t {
        Term::Node(Op::App, kids) => if kids.len() > 0 {
            unapplied_args(kids[0]) + kids.drop_first()
        } else {
            Seq::empty()
        },
        _ => Seq::empty(),
    }
}

/// The type without the quantifiers around it.
pub open spec fn remove_forall(t: Term<Op>) -> Term<Op>
    decreases t,
{
    match t {
        Term::Node(Op::Forall(_), kids) => if kids.len() > 0 {
            remove_forall(kids[0])
        } else {
            t
        },
        _ => t,
    }
}

/// The parameters that the outermost quantifier binds.
pub open spec fn params_of(t: Term<Op>) -> Seq<SymbolModel> {
    match t {
        Term::Node(Op::Forall(params), kids) => if kids.len() > 0 {
            params
        } else {
            Seq::empty()
        },
        _ => Seq::empty(),
    }
}

/// The type that the outermost quantifier stands around.
pub open spec fn quantified(t: Term<Op>) -> Term<Op> {
    match t {
        Term::Node(Op::Forall(_), kids) => if kids.len() > 0 {
            kids[0]
        } else {
            t
        },
        _ => t,
    }
}

/// All the parameters that the quantifiers around the type bind.
pub open spec fn all_params(t: Term<Op>) -> Seq<SymbolModel>
    decreases t,
{
    match t {
        Term::Node(Op::Forall(params), kids) => if kids.len() > 0 {
            params + all_params(kids[0])
        } else {
            Seq::empty()
        },
        _ => Seq::empty(),
    }
}

/// Rules that make each parameter a rigid constant.
pub open spec fn skolem_rules(params: Seq<SymbolModel>) -> Seq<(Leaf, Term<Op>)> {
    Seq::new(params.len(), |i: int| (Leaf::Generic(params[i].id), leaf(Op::Skolem(params[i]))))
}

/// The type without the quantifiers around it, with rigid constants for what they bind.
pub open spec fn skolemized(t: Term<Op>) -> Term<Op> {
    rewrite::rewritten(remove_forall(t), skolem_rules(all_params(t)))
}

/// Rules that replace parameters by arguments.
pub open spec fn param_rules(params: Seq<SymbolModel>, args: Seq<Term<Op>>) -> Seq<(Leaf, Term<Op>)> {
    Seq::new(params.len(), |i: int| (Leaf::Generic(params[i].id), args[i]))
}

/// The last `missing` of `kids` are the last `missing` of `params`, as generics and in order.
pub open spec fn ends_with_params(kids: Seq<Term<Op>>, params: Seq<SymbolModel>, missing: int) -> bool {
    &&& missing < kids.len()
    &&& missing <= params.len()
    &&& forall|k: int|
        0 <= k < missing ==> #[trigger] kids[kids.len() - missing + k] == leaf(
            Op::Generic(params[params.len() - missing + k]),
        )
}

/// A quantified type applied to arguments. Arguments may be missing where the missing parameters
/// only appear in order at the end of the type; arguments that are too many stay applied.
pub open spec fn applied(t: Term<Op>, args: Seq<Term<Op>>) -> Option<Term<Op>> {
    let params = params_of(t);
    let body = quantified(t);
    let n = params.len() as int;
    if args.len() >= n {
        let typ = rewrite::rewritten(body, param_rules(params, args.take(n)));
        Some(application(seq![typ] + args.skip(n)))
    } else {
        let missing = n - args.len();
        match body {
            Term::Node(Op::App, kids) => if ends_with_params(kids, params, missing) {
                Some(
                    rewrite::rewritten(
                        application(kids.take(kids.len() - missing)),
                        param_rules(params.take(args.len() as int), args),
                    ),
                )
            } else {
                None
            },
            _ => None,
        }
    }
}

/// Rules that make the names of aliases refer to them.
pub open spec fn group_rules(group: Seq<AliasEntry>) -> Seq<(Leaf, Term<Op>)> {
    Seq::new(
        group.len(),
        |i: int|
            (
                Leaf::Ident(group[i].name.id),
                leaf(Op::Alias(AliasModel { alias: Box::new(group[i]), group })),
            ),
    )
}

/// The type that an alias names. The aliases of its group have taken the place of their names.
pub open spec fn alias_type(alias: AliasModel) -> Term<Op> {
    rewrite::rewritten(alias.alias.typ, group_rules(alias.group))
}

impl Clone for Type {
    fn clone(&self) -> (copy: Type)
        ensures
            copy.model() == self.model(),
    {
        self.duplicate()
    }
}

impl Type {
    /// The type `args[0]` applied to the others.
    pub fn app(args: Vec<Type>) -> (typ: Type)
        requires
            args@.len() > 0,
        ensures
            typ.model() == application(types::models_of(args@)),
    {
        let mut args = args;
        if args.len() == 1 {
            args.swap_remove(0)
        } else {
            let typ = Type::Node(TypeOp::App, args);
            assert(TypeOp::App.model() == Op::App);
            assert(typ.model()->Node_1 =~= types::models_of(args@));
            typ
        }
    }

    /// The symbol under which the type may be known as an alias.
    pub fn alias_ident(&self) -> (ident: Option<&Symbol>)
        ensures
            match ident {
                Some(symbol) => alias_ident(self.model()) == Some(symbol.model()),
                None => alias_ident(self.model()) is None,
            },
        decreases self,
    {
        match self {
            Type::Variable(_) => None,
            Type::Node(op, args) => {
                match op {
                    TypeOp::App => {
                        assert(op.model() == Op::App);
                        if args.len() > 0 {
                            args[0].alias_ident()
                        } else {
                            None
                        }
                    },
                    TypeOp::Ident(name) => {
                        assert(op.model() == Op::Ident(name.model()));
                        Some(name)
                    },
                    TypeOp::Alias(alias) => {
                        assert(op.model() == Op::Alias(alias.model()));
                        assert(alias.model().alias == Box::new(alias.alias.model()));
                        assert(alias.alias.model().name == alias.alias.name.model());
                        Some(&alias.alias.name)
                    },
                    _ => {
                        assert(!(op.model() is App) && !(op.model() is Ident) && !(op.model() is Alias));
                        None
                    },
                }
            },
        }
    }

    /// All the arguments of an application, those of the applied type first.
    pub fn unapplied_args(&self) -> (found: Vec<Type>)
        ensures
            types::models_of(found@) == unapplied_args(self.model()),
        decreases self,
    {
        match self {
            Type::Node(TypeOp::App, args) => {
                assert(TypeOp::App.model() == Op::App);
                if args.len() == 0 {
                    let found: Vec<Type> = Vec::new();
                    assert(types::models_of(found@) =~= Seq::empty());
                    return found;
                }
                let mut found = args[0].unapplied_args();
                let ghost first = types::models_of(found@);
                let ghost kids = self.model()->Node_1;
                let mut i: usize = 1;
                assert(types::models_of(found@) =~= first + kids.subrange(1, 1));
                while i < args.len()
                    invariant
                        1 <= i <= args.len(),
                        kids.len() == args@.len(),
                        forall|k: int| 0 <= k < kids.len() ==> kids[k] == (#[trigger] args@[k]).model(),
                        types::models_of(found@) == first + kids.subrange(1, i as int),
                    decreases args.len() - i,
                {
                    let ghost before = types::models_of(found@);
                    found.push(args[i].duplicate());
                    assert(types::models_of(found@) =~= before.push(kids[i as int]));
                    assert(kids.subrange(1, i + 1) =~= kids.subrange(1, i as int).push(
                        kids[i as int],
                    ));
                    assert(types::models_of(found@) =~= first + kids.subrange(1, i + 1));
                    i = i + 1;
                }
                assert(kids.subrange(1, i as int) =~= kids.drop_first());
                found
            },
            Type::Node(op, _) => {
                assert(!(op.model() is App));
                let found: Vec<Type> = Vec::new();
                assert(types::models_of(found@) =~= Seq::empty());
                found
            },
            Type::Variable(_) => {
                let found: Vec<Type> = Vec::new();
                assert(types::models_of(found@) =~= Seq::empty());
                found
            },
        }
    }

    /// The type without the quantifiers around it.
    pub fn remove_forall(&self) -> (typ: &Type)
        ensures
            typ.model() == remove_forall(self.model()),
        decreases self,
    {
        match self {
            Type::Node(TypeOp::Forall(params), args) => {
                assert(TypeOp::Forall(*params).model() == Op::Forall(types::symbols_of(params@)));
                if args.len() > 0 {
                    args[0].remove_forall()
                } else {
                    self
                }
            },
            Type::Node(op, _) => {
                assert(!(op.model() is Forall));
                self
            },
            Type::Variable(_) => self,
        }
    }
}

/// The types at `types[from]` to `types[to - 1]`, copied.
pub fn types_between(typs: &Vec<Type>, from: usize, to: usize) -> (copy: Vec<Type>)
    requires
        from <= to <= typs@.len(),
    ensures
        types::models_of(copy@) == types::models_of(typs@).subrange(from as int, to as int),
{
    let mut copy: Vec<Type> = Vec::new();
    let mut i: usize = from;
    while i < to
        invariant
            from <= i <= to <= typs@.len(),
            copy@.len() == i - from,
            forall|k: int| 0 <= k < i - from ==> (#[trigger] copy@[k]).model() == typs@[from + k].model(),
        decreases to - i,
    {
        copy.push(typs[i].duplicate());
        i = i + 1;
    }
    assert(types::models_of(copy@) =~= types::models_of(typs@).subrange(from as int, to as int));
    copy
}

impl Type {
    /// The parameters that the outermost quantifier binds.
    pub fn params(&self) -> (params: Vec<Symbol>)
        ensures
            types::symbols_of(params@) == params_of(self.model()),
    {
        match self {
            Type::Node(TypeOp::Forall(params), args) => {
                assert(TypeOp::Forall(*params).model() == Op::Forall(types::symbols_of(params@)));
                if args.len() > 0 {
                    return types::duplicate_symbols(params);
                }
            },
            Type::Node(op, _) => {
                assert(!(op.model() is Forall));
            },
            Type::Variable(_) => {},
        }
        let none: Vec<Symbol> = Vec::new();
        assert(types::symbols_of(none@) =~= Seq::empty());
        none
    }

    /// The type that the outermost quantifier stands around.
    pub fn quantified(&self) -> (typ: &Type)
        ensures
            typ.model() == quantified(self.model()),
    {
        match self {
            Type::Node(TypeOp::Forall(params), args) => {
                assert(TypeOp::Forall(*params).model() == Op::Forall(types::symbols_of(params@)));
                if args.len() > 0 {
                    &args[0]
                } else {
                    self
                }
            },
            Type::Node(op, _) => {
                assert(!(op.model() is Forall));
                self
            },
            Type::Variable(_) => self,
        }
    }

    /// Adds a rule for every parameter that the quantifiers around the type bind.
    fn add_skolem_rules(&self, rules: &mut Vec<(Leaf, Type)>)
        ensures
            rewrite::rules_of(final(rules)@) == rewrite::rules_of(old(rules)@) + skolem_rules(
                all_params(self.model()),
            ),
        decreases self,
    {
        match self {
            Type::Node(TypeOp::Forall(params), args) => {
                assert(TypeOp::Forall(*params).model() == Op::Forall(types::symbols_of(params@)));
                if args.len() == 0 {
                    assert(rewrite::rules_of(rules@) =~= rewrite::rules_of(rules@) + skolem_rules(
                        Seq::empty(),
                    ));
                    return;
                }
                let ghost start = rewrite::rules_of(rules@);
                let ghost ids = types::symbols_of(params@);
                let mut i: usize = 0;
                assert(rewrite::rules_of(rules@) =~= start + skolem_rules(ids.take(0)));
                while i < params.len()
                    invariant
                        i <= params.len(),
                        ids == types::symbols_of(params@),
                        rewrite::rules_of(rules@) == start + skolem_rules(ids.take(i as int)),
                    decreases params.len() - i,
                {
                    let ghost before = rewrite::rules_of(rules@);
                    let skolem = Type::Node(TypeOp::Skolem(params[i].clone()), Vec::new());
                    proof {
                        assert(skolem->Node_0.model() == Op::Skolem(params@[i as int].model()));
                        assert(skolem.model()->Node_1 =~= Seq::empty());
                    }
                    rules.push((Leaf::Generic(params[i].id), skolem));
                    assert(rewrite::rules_of(rules@) =~= before.push(
                        (Leaf::Generic(ids[i as int].id), leaf(Op::Skolem(ids[i as int]))),
                    ));
                    i = i + 1;
                    assert(rewrite::rules_of(rules@) =~= start + skolem_rules(ids.take(i as int)));
                }
                assert(ids.take(i as int) =~= ids);
                args[0].add_skolem_rules(rules);
                assert(rewrite::rules_of(rules@) =~= start + skolem_rules(
                    all_params(self.model()),
                ));
            },
            Type::Node(op, _) => {
                assert(!(op.model() is Forall));
                assert(rewrite::rules_of(rules@) =~= rewrite::rules_of(rules@) + skolem_rules(
                    Seq::empty(),
                ));
            },
            Type::Variable(_) => {
                assert(rewrite::rules_of(rules@) =~= rewrite::rules_of(rules@) + skolem_rules(
                    Seq::empty(),
                ));
            },
        }
    }

    /// The type without the quantifiers around it, with rigid constants for what they bind.
    pub fn skolemize(&self) -> (typ: Type)
        ensures
            typ.model() == skolemized(self.model()),
    {
        let mut rules: Vec<(Leaf, Type)> = Vec::new();
        let ghost none = rewrite::rules_of(rules@);
        self.add_skolem_rules(&mut rules);
        assert(rewrite::rules_of(rules@) =~= skolem_rules(all_params(self.model())));
        self.remove_forall().rewrite(&rules)
    }

    /// Whether the type is this generic.
    fn is_generic(&self, name: &Symbol) -> (found: bool)
        ensures
            found == (self.model() == leaf(Op::Generic(name.model()))),
    {
        match self {
            Type::Node(TypeOp::Generic(own), args) => {
                assert(TypeOp::Generic(*own).model() == Op::Generic(own.model()));
                let found = own.same(name) && args.len() == 0;
                assert(self.model()->Node_1.len() == args@.len());
                assert(found ==> self.model()->Node_1 =~= Seq::empty());
                found
            },
            Type::Node(op, _) => {
                assert(!(op.model() is Generic));
                false
            },
            Type::Variable(_) => false,
        }
    }

    /// A quantified type applied to arguments. Arguments may be missing where the missing
    /// parameters only appear in order at the end of the type; otherwise there is no such type.
    pub fn apply_args(&self, args: &Vec<Type>) -> (typ: Option<Type>)
        ensures
            match typ {
                Some(t) => applied(self.model(), types::models_of(args@)) == Some(t.model()),
                None => applied(self.model(), types::models_of(args@)) is None,
            },
    {
        let params = self.params();
        let body = self.quantified();
        let ghost ids = types::symbols_of(params@);
        let ghost terms = types::models_of(args@);
        if args.len() >= params.len() {
            let rules = rules_for(&params, args, params.len());
            let typ = body.rewrite(&rules);
            let mut parts: Vec<Type> = vec![typ];
            let mut rest = types_between(args, params.len(), args.len());
            proof {
                assert(rewrite::rules_of(rules@) =~= param_rules(ids, terms.take(ids.len() as int)));
                assert(types::models_of(parts@ + rest@) =~= seq![typ.model()] + terms.skip(
                    ids.len() as int,
                ));
            }
            parts.append(&mut rest);
            Some(Type::app(parts))
        } else {
            let missing = params.len() - args.len();
            match body {
                Type::Node(TypeOp::App, kids) => {
                    assert(TypeOp::App.model() == Op::App);
                    let ghost kid_terms = body.model()->Node_1;
                    assert(kid_terms =~= types::models_of(kids@));
                    if missing >= kids.len() {
                        return None;
                    }
                    let mut k: usize = 0;
                    while k < missing
                        invariant
                            k <= missing,
                            missing == params@.len() - args@.len(),
                            missing < kids@.len(),
                            args@.len() < params@.len(),
                            kid_terms == types::models_of(kids@),
                            ids == types::symbols_of(params@),
                            terms == types::models_of(args@),
                            ids == params_of(self.model()),
                            quantified(self.model()) == Term::Node(Op::App, kid_terms),
                            forall|j: int|
                                0 <= j < k ==> #[trigger] kid_terms[kid_terms.len() - missing + j]
                                    == leaf(Op::Generic(ids[ids.len() - missing + j])),
                        decreases missing - k,
                    {
                        if !kids[kids.len() - missing + k].is_generic(
                            &params[params.len() - missing + k],
                        ) {
                            assert(kid_terms[kid_terms.len() - missing + k as int] != leaf(
                                Op::Generic(ids[ids.len() - missing + k as int]),
                            ));
                            return None;
                        }
                        k = k + 1;
                    }
                    let shorter = Type::app(types_between(kids, 0, kids.len() - missing));
                    let rules = rules_for(&params, args, args.len());
                    proof {
                        assert(kid_terms.subrange(0, kid_terms.len() - missing) =~= kid_terms.take(
                            kid_terms.len() - missing,
                        ));
                        assert(rewrite::rules_of(rules@) =~= param_rules(
                            ids.take(args@.len() as int),
                            terms,
                        ));
                    }
                    Some(shorter.rewrite(&rules))
                },
                Type::Node(op, _) => {
                    assert(!(op.model() is App));
                    None
                },
                Type::Variable(_) => None,
            }
        }
    }
}

/// Rules that replace the first `n` parameters by the first `n` arguments.
fn rules_for(params: &Vec<Symbol>, args: &Vec<Type>, n: usize) -> (rules: Vec<(Leaf, Type)>)
    requires
        n <= params@.len(),
        n <= args@.len(),
    ensures
        rewrite::rules_of(rules@) == param_rules(
            types::symbols_of(params@).take(n as int),
            types::models_of(args@).take(n as int),
        ),
{
    let mut rules: Vec<(Leaf, Type)> = Vec::new();
    let mut i: usize = 0;
    while i < n
        invariant
            i <= n,
            n <= params@.len(),
            n <= args@.len(),
            rules@.len() == i,
            forall|k: int|
                0 <= k < i ==> (#[trigger] rules@[k]).0 == Leaf::Generic(params@[k].id)
                    && rules@[k].1.model() == args@[k].model(),
        decreases n - i,
    {
        rules.push((Leaf::Generic(params[i].id), args[i].duplicate()));
        i = i + 1;
    }
    assert(rewrite::rules_of(rules@) =~= param_rules(
        types::symbols_of(params@).take(n as int),
        types::models_of(args@).take(n as int),
    ));
    rules
}

impl AliasRef {
    /// The type as it was written, in which aliases of the same group are identifiers.
    pub fn unresolved_type(&self) -> (typ: &Type)
        ensures
            typ.model() == self.model().alias.typ,
    {
        assert(self.model().alias == Box::new(self.alias.model()));
        assert(self.alias.model().typ == self.alias.typ.model());
        &self.alias.typ
    }

    /// The parameters of the alias.
    pub fn params(&self) -> (params: Vec<Symbol>)
        ensures
            types::symbols_of(params@) == params_of(self.model().alias.typ),
    {
        self.unresolved_type().params()
    }

    /// The type that the alias names. The aliases of its group have taken the place of their
    /// names.
    pub fn typ(&self) -> (typ: Type)
        ensures
            typ.model() == alias_type(self.model()),
    {
        let mut rules: Vec<(Leaf, Type)> = Vec::new();
        let group = &self.group;
        let ghost entries = self.model().group;
        let mut i: usize = 0;
        while i < group.len()
            invariant
                i <= group@.len(),
                group@ == self.group@,
                entries == self.model().group,
                entries.len() == group@.len(),
                forall|k: int| 0 <= k < entries.len() ==> entries[k] == (#[trigger] group@[k]).model(),
                rules@.len() == i,
                forall|k: int|
                    0 <= k < i ==> (#[trigger] rules@[k]).0 == group_rules(entries)[k].0
                        && rules@[k].1.model() == group_rules(entries)[k].1,
            decreases group@.len() - i,
        {
            let alias = AliasRef { alias: share(&group[i]), group: share(&self.group) };
            let name = group[i].name.id;
            let typ = Type::Node(TypeOp::Alias(alias), Vec::new());
            proof {
                assert(entries[i as int] == group@[i as int].model());
                assert(group@[i as int].model().name.id == name);
                assert(alias.model().group =~= entries);
                assert(*alias.model().alias == entries[i as int]);
                assert(alias.model().alias == Box::new(entries[i as int]));
                assert(typ->Node_0.model() == Op::Alias(alias.model()));
                assert(typ.model()->Node_1 =~= Seq::empty());
            }
            rules.push((Leaf::Ident(name), typ));
            i = i + 1;
        }
        assert(rewrite::rules_of(rules@) =~= group_rules(entries));
        self.unresolved_type().rewrite(&rules)
    }
}

} // verus!
