//! Replacing parts of types.
use vstd::prelude::*;
use crate::symbol::{Symbol, SymbolModel};
use crate::term::Term;
use crate::types;
use crate::types::{Op, Type, TypeOp};

verus! {

/// A part of a type that can be replaced, by the id of its symbol.
#[derive(Clone, Copy, Debug, PartialEq, Eq, Structural)]
pub enum Leaf {
    Ident(u64),
    Generic(u64),
}

/// The leaf that an operator stands for.
pub open spec fn leaf_of(op: Op) -> Option<Leaf> {
    match op {
        Op::Ident(name) => Some(Leaf::Ident(name.id)),
        Op::Generic(name) => Some(Leaf::Generic(name.id)),
        _ => None,
    }
}

/// What a leaf is replaced by: the first rule for it decides.
pub open spec fn rule_for(rules: Seq<(Leaf, Term<Op>)>, leaf: Leaf) -> Option<Term<Op>>
    decreases rules.len(),
{
    if rules.len() == 0 {
        None
    } else if rules[0].0 == leaf {
        Some(rules[0].1)
    } else {
        rule_for(rules.drop_first(), leaf)
    }
}

/// The term with every leaf replaced that has a rule.
pub open spec fn rewritten(t: Term<Op>, rules: Seq<(Leaf, Term<Op>)>) -> Term<Op>
    decreases t,
{
    match t {
        Term::Var(_) => t,
        Term::Node(op, kids) => {
            let replacement = match leaf_of(op) {
                Some(leaf) => rule_for(rules, leaf),
                None => None,
            };
            match replacement {
                Some(r) => r,
                None => Term::Node(
                    op,
                    Seq::new(
                        kids.len(),
                        |i: int|
                            if 0 <= i < kids.len() {
                                rewritten(kids[i], rules)
                            } else {
                                arbitrary()
                            },
                    ),
                ),
            }
        },
    }
}

/// Rules as they stand for terms.
pub open spec fn rules_of(rules: Seq<(Leaf, Type)>) -> Seq<(Leaf, Term<Op>)> {
    Seq::new(rules.len(), |i: int| (rules[i].0, rules[i].1.model()))
}

/// Looks up the rule for a leaf.
fn find_rule(rules: &Vec<(Leaf, Type)>, leaf: Leaf) -> (found: Option<Type>)
    ensures
        match found {
            Some(typ) => rule_for(rules_of(rules@), leaf) == Some(typ.model()),
            None => rule_for(rules_of(rules@), leaf) is None,
        },
{
    let mut i: usize = 0;
    let ghost all = rules_of(rules@);
    assert(all.skip(0) =~= all);
    while i < rules.len()
        invariant
            i <= rules.len(),
            all == rules_of(rules@),
            rule_for(all.skip(i as int), leaf) == rule_for(all, leaf),
        decreases rules.len() - i,
    {
        assert(all.skip(i as int)[0] == all[i as int]);
        assert(all.skip(i as int).drop_first() =~= all.skip(i + 1));
        if rules[i].0 == leaf {
            return Some(rules[i].1.duplicate());
        }
        i = i + 1;
    }
    None
}

impl TypeOp {
    /// The leaf that the operator stands for.
    fn leaf(&self) -> (leaf: Option<Leaf>)
        ensures
            leaf == leaf_of(self.model()),
    {
        match self {
            TypeOp::Ident(name) => Some(Leaf::Ident(name.id)),
            TypeOp::Generic(name) => Some(Leaf::Generic(name.id)),
            _ => None,
        }
    }
}

impl Type {
    /// The type with every leaf replaced that has a rule.
    pub fn rewrite(&self, rules: &Vec<(Leaf, Type)>) -> (typ: Type)
        ensures
            typ.model() == rewritten(self.model(), rules_of(rules@)),
        decreases self,
    {
        match self {
            Type::Variable(id) => Type::Variable(*id),
            Type::Node(op, args) => {
                if let Some(leaf) = op.leaf() {
                    if let Some(typ) = find_rule(rules, leaf) {
                        return typ;
                    }
                }
                let mut kids: Vec<Type> = Vec::new();
                let mut i: usize = 0;
                while i < args.len()
                    invariant
                        i <= args.len(),
                        kids@.len() == i,
                        forall|k: int|
                            0 <= k < i ==> (#[trigger] kids@[k]).model() == rewritten(
                                args@[k].model(),
                                rules_of(rules@),
                            ),
                        forall|k: int|
                            0 <= k < args@.len() ==> decreases_to!(self => #[trigger] args@[k]),
                    decreases args.len() - i,
                {
                    kids.push(args[i].rewrite(rules));
                    i = i + 1;
                }
                let typ = Type::Node(op.duplicate(), kids);
                assert(typ.model()->Node_1 =~= rewritten(
                    self.model(),
                    rules_of(rules@),
                )->Node_1);
                typ
            },
        }
    }
}

/// `params` with the generics of `t` added, in the order in which they first occur and each once.
/// Types with quantifiers of their own are passed over.
pub open spec fn gathered(params: Seq<SymbolModel>, t: Term<Op>) -> Seq<SymbolModel>
    decreases t,
{
    match t {
        Term::Var(_) => params,
        Term::Node(op, kids) => match op {
            Op::Generic(name) => if params.contains(name) {
                params
            } else {
                params.push(name)
            },
            Op::Forall(_) => params,
            _ => gathered_list(params, kids),
        },
    }
}

/// `params` with the generics of several terms added.
pub open spec fn gathered_list(params: Seq<SymbolModel>, kids: Seq<Term<Op>>) -> Seq<SymbolModel>
    decreases kids,
{
    if kids.len() == 0 {
        params
    } else {
        gathered_list(gathered(params, kids[0]), kids.drop_first())
    }
}

/// Adds the generics of `typ` to `params`, in the order in which they first occur and each once.
pub fn gather_generics(params: &mut Vec<Symbol>, typ: &Type)
    ensures
        types::symbols_of(final(params)@) == gathered(types::symbols_of(old(params)@), typ.model()),
    decreases typ,
{
    match typ {
        Type::Variable(_) => {},
        Type::Node(op, args) => match op {
            TypeOp::Generic(name) => {
                assert(op.model() == Op::Generic(name.model()));
                let mut i: usize = 0;
                while i < params.len()
                    invariant
                        i <= params.len(),
                        params@ == old(params)@,
                        forall|k: int| 0 <= k < i ==> (#[trigger] params@[k]).model() != name.model(),
                        typ.model() is Node,
                        typ.model()->Node_0 == Op::Generic(name.model()),
                    decreases params.len() - i,
                {
                    if params[i].same(name) {
                        assert(types::symbols_of(params@)[i as int] == name.model());
                        return;
                    }
                    i = i + 1;
                }
                assert(!types::symbols_of(params@).contains(name.model()));
                params.push(name.clone());
                assert(types::symbols_of(params@) =~= types::symbols_of(old(params)@).push(name.model()));
            },
            TypeOp::Forall(params) => {
                assert(op.model() == Op::Forall(types::symbols_of(params@)));
            },
            _ => {
                assert(!(op.model() is Generic) && !(op.model() is Forall));
                let ghost kids = types::models_of(args@);
                let ghost whole = gathered(types::symbols_of(params@), typ.model());
                assert(typ.model()->Node_1 =~= kids);
                assert(kids.skip(0) =~= kids);
                let mut i: usize = 0;
                while i < args.len()
                    invariant
                        i <= args.len(),
                        kids == types::models_of(args@),
                        gathered_list(types::symbols_of(params@), kids.skip(i as int)) == whole,
                        forall|k: int|
                            0 <= k < args@.len() ==> decreases_to!(typ => #[trigger] args@[k]),
                    decreases args.len() - i,
                {
                    assert(kids.skip(i as int)[0] == args@[i as int].model());
                    assert(kids.skip(i as int).drop_first() =~= kids.skip(i + 1));
                    gather_generics(params, &args[i]);
                    i = i + 1;
                }
            },
        },
    }
}

/// The generic occurs in the term, outside of types with quantifiers of their own.
pub open spec fn has_generic(t: Term<Op>, id: SymbolModel) -> bool
    decreases t,
{
    match t {
        Term::Var(_) => false,
        Term::Node(op, kids) => match op {
            Op::Generic(generic) => generic == id,
            Op::Forall(_) => false,
            _ => exists|i: int| 0 <= i < kids.len() && has_generic(#[trigger] kids[i], id),
        },
    }
}

/// The generics that are gathered are those that occur in the term, and those that were there.
pub proof fn law_all_generics_are_gathered(params: Seq<SymbolModel>, t: Term<Op>, id: SymbolModel)
    ensures
        gathered(params, t).contains(id) <==> params.contains(id) || has_generic(t, id),
    decreases t,
{
    if let Term::Node(op, kids) = t {
        match op {
            Op::Generic(generic) => {
                if !params.contains(generic) {
                    let more = params.push(generic);
                    assert(more[params.len() as int] == generic);
                    assert(forall|i: int| 0 <= i < params.len() ==> more[i] == params[i]);
                    if params.contains(id) {
                        let i = choose|i: int| 0 <= i < params.len() && params[i] == id;
                        assert(more[i] == id);
                    }
                }
            },
            Op::Forall(_) => {},
            _ => {
                lemma_all_generics_of_list(params, kids, id);
            },
        }
    }
}

proof fn lemma_all_generics_of_list(params: Seq<SymbolModel>, kids: Seq<Term<Op>>, id: SymbolModel)
    ensures
        gathered_list(params, kids).contains(id) <==> params.contains(id) || exists|i: int|
            0 <= i < kids.len() && has_generic(#[trigger] kids[i], id),
    decreases kids,
{
    if kids.len() > 0 {
        let rest = kids.drop_first();
        law_all_generics_are_gathered(params, kids[0], id);
        lemma_all_generics_of_list(gathered(params, kids[0]), rest, id);
        if exists|i: int| 0 <= i < kids.len() && has_generic(#[trigger] kids[i], id) {
            let i = choose|i: int| 0 <= i < kids.len() && has_generic(#[trigger] kids[i], id);
            if i > 0 {
                assert(has_generic(rest[i - 1], id));
            }
        }
        if exists|i: int| 0 <= i < rest.len() && has_generic(#[trigger] rest[i], id) {
            let i = choose|i: int| 0 <= i < rest.len() && has_generic(#[trigger] rest[i], id);
            assert(has_generic(kids[i + 1], id));
        }
    }
}

/// Every generic is gathered once.
pub proof fn law_generics_are_gathered_once(params: Seq<SymbolModel>, t: Term<Op>)
    requires
        params.no_duplicates(),
    ensures
        gathered(params, t).no_duplicates(),
    decreases t,
{
    if let Term::Node(op, kids) = t {
        match op {
            Op::Generic(_) => {},
            Op::Forall(_) => {},
            _ => {
                lemma_gathered_list_once(params, kids);
            },
        }
    }
}

proof fn lemma_gathered_list_once(params: Seq<SymbolModel>, kids: Seq<Term<Op>>)
    requires
        params.no_duplicates(),
    ensures
        gathered_list(params, kids).no_duplicates(),
    decreases kids,
{
    if kids.len() > 0 {
        law_generics_are_gathered_once(params, kids[0]);
        lemma_gathered_list_once(gathered(params, kids[0]), kids.drop_first());
    }
}

} // verus!
