//! Types as what a substitution works on.
use vstd::prelude::*;
use crate::alias;
use crate::constraints;
use crate::constraints::Instantiate;
use crate::fnv_map::fnv_get;
use crate::rewrite;
use crate::rewrite::{gather_generics, Leaf};
use crate::subs;
use crate::subs::Subs;
use crate::substitution;
use crate::substitution::{share, Constraints, Substitutable, Substitution, Variable};
use crate::symbol::{Symbol, SymbolModel};
use crate::term::Term;
use crate::types;
use crate::types::{duplicate_types, Op, Type, TypeOp};
use crate::unify::Unifiable;
use crate::union_table;
use fnv::FnvHashMap;

verus! {

impl Substitutable for Type {
    type Op = Op;

    type Variable = u32;

    type Factory = ();

    open spec fn term(&self) -> Term<Op> {
        self.model()
    }

    fn from_variable(x: u32) -> (typ: Type) {
        let typ = Type::Variable(x);
        assert(typ.model() == Term::<Op>::Var(x));
        assert(x.id() == x);
        typ
    }

    fn get_var(&self) -> (var: Option<&u32>) {
        match self {
            Type::Variable(id) => {
                assert(self.model() == Term::<Op>::Var(*id));
                assert(id.id() == *id);
                Some(id)
            },
            Type::Node(_, _) => None,
        }
    }

    fn traverse(&self) -> (kids: Vec<Type>) {
        match self {
            Type::Variable(_) => Vec::new(),
            Type::Node(_, args) => {
                let kids = duplicate_types(args);
                assert(types::models_of(kids@).len() == types::models_of(args@).len());
                assert forall|i: int| 0 <= i < args@.len() implies (#[trigger] kids@[i]).model()
                    == self.model()->Node_1[i] by {
                    assert(types::models_of(kids@)[i] == types::models_of(args@)[i]);
                }
                kids
            },
        }
    }

    fn duplicate(&self) -> (typ: Type) {
        self.duplicate()
    }

    fn same(&self, other: &Type) -> (same: bool) {
        self.same(other)
    }
}

/// Types match where their operators are the same and their operands match in pairs.
impl Unifiable<()> for Type {
    open spec fn zipped(state: (), l: Term<Op>, r: Term<Op>) -> Option<Seq<(Term<Op>, Term<Op>)>> {
        match (l, r) {
            (Term::Node(a, ks), Term::Node(b, ls)) => if a == b && ks.len() == ls.len() {
                Some(Seq::new(ks.len(), |i: int| (ks[i], ls[i])))
            } else {
                None
            },
            _ => None,
        }
    }

    fn zip_match(&self, other: &Type, state: &()) -> (pairs: Option<Vec<(Type, Type)>>) {
        match (self, other) {
            (Type::Node(op, args), Type::Node(other_op, other_args)) => {
                if !op.same(other_op) || args.len() != other_args.len() {
                    return None;
                }
                let mut pairs: Vec<(Type, Type)> = Vec::new();
                let mut i: usize = 0;
                while i < args.len()
                    invariant
                        i <= args.len(),
                        args@.len() == other_args@.len(),
                        pairs@.len() == i,
                        forall|k: int|
                            0 <= k < i ==> (#[trigger] pairs@[k]).0.model() == args@[k].model()
                                && pairs@[k].1.model() == other_args@[k].model(),
                    decreases args.len() - i,
                {
                    pairs.push((args[i].duplicate(), other_args[i].duplicate()));
                    i = i + 1;
                }
                Some(pairs)
            },
            _ => None,
        }
    }
}

/// The substitution with a variable for each of the generics, on which what `demands` has under
/// its name is demanded.
pub open spec fn with_generics(
    s: Subs<Op>,
    generics: Seq<SymbolModel>,
    demands: Map<u64, Seq<Term<Op>>>,
) -> Subs<Op>
    decreases generics.len(),
{
    if generics.len() == 0 {
        s
    } else {
        let demand = if demands.contains_key(generics[0].id) {
            Some((generics[0].id, demands[generics[0].id]))
        } else {
            None
        };
        with_generics(s.with_var(demand), generics.drop_first(), demands)
    }
}

/// Rules that replace generics by the variables from `first` on.
pub open spec fn variable_rules(generics: Seq<SymbolModel>, first: nat) -> Seq<(Leaf, Term<Op>)> {
    Seq::new(
        generics.len(),
        |i: int| (Leaf::Generic(generics[i].id), Term::<Op>::Var((first + i) as u32)),
    )
}

pub proof fn lemma_with_generics_extends(
    s: Subs<Op>,
    generics: Seq<SymbolModel>,
    demands: Map<u64, Seq<Term<Op>>>,
)
    requires
        s.wf(),
        generics.len() > 0 ==> s.vars.len() == s.size() && s.size() + generics.len()
            <= union_table::max_keys(),
    ensures
        with_generics(s, generics, demands).extends(s),
        with_generics(s, generics, demands).vars.len() == s.vars.len() + generics.len(),
    decreases generics.len(),
{
    if generics.len() > 0 {
        let demand = if demands.contains_key(generics[0].id) {
            Some((generics[0].id, demands[generics[0].id]))
        } else {
            None
        };
        let next = s.with_var(demand);
        subs::lemma_with_var_extends(s, demand);
        lemma_with_generics_extends(next, generics.drop_first(), demands);
        subs::lemma_extends_trans(s, next, with_generics(s, generics, demands));
    }
}

proof fn lemma_with_generics_relevelled(
    before: Subs<Op>,
    after: Subs<Op>,
    generics: Seq<SymbolModel>,
    demands: Map<u64, Seq<Term<Op>>>,
)
    requires
        before.wf(),
        after.relevelled(before),
        generics.len() > 0 ==> before.vars.len() == before.size() && before.size() + generics.len()
            <= union_table::max_keys(),
    ensures
        with_generics(after, generics, demands).relevelled(
            with_generics(before, generics, demands),
        ),
    decreases generics.len(),
{
    if generics.len() > 0 {
        let demand = if demands.contains_key(generics[0].id) {
            Some((generics[0].id, demands[generics[0].id]))
        } else {
            None
        };
        subs::lemma_with_var_extends(before, demand);
        subs::lemma_with_var_extends(after, demand);
        let a = before.with_var(demand);
        let b = after.with_var(demand);
        assert(b.table.classes.dom() =~= a.table.classes.dom());
        assert(b.relevelled(a));
        lemma_with_generics_relevelled(a, b, generics.drop_first(), demands);
    }
}

/// The generics of a type become new variables, the same generic the same variable; quantifiers
/// around the type go away.
impl Instantiate for Type {
    open spec fn instantiated(
        t: Term<Op>,
        s: Subs<Op>,
        constraints: Map<u64, Seq<Term<Op>>>,
    ) -> Option<(Term<Op>, Subs<Op>)> {
        let body = alias::remove_forall(t);
        let generics = rewrite::gathered(Seq::empty(), body);
        if generics.len() == 0 || s.vars.len() == s.size() && s.size() + generics.len()
            <= union_table::max_keys() {
            Some(
                (
                    rewrite::rewritten(body, variable_rules(generics, s.vars.len())),
                    with_generics(s, generics, constraints),
                ),
            )
        } else {
            None
        }
    }

    proof fn instantiated_extends(
        t: Term<Op>,
        s: Subs<Op>,
        constraints: Map<u64, Seq<Term<Op>>>,
    ) {
        let generics = rewrite::gathered(Seq::empty(), alias::remove_forall(t));
        lemma_with_generics_extends(s, generics, constraints);
    }

    proof fn instantiated_relevelled(
        t: Term<Op>,
        before: Subs<Op>,
        after: Subs<Op>,
        constraints: Map<u64, Seq<Term<Op>>>,
    ) {
        let generics = rewrite::gathered(Seq::empty(), alias::remove_forall(t));
        if Self::instantiated(t, before, constraints) is Some {
            lemma_with_generics_relevelled(before, after, generics, constraints);
        }
    }

    fn instantiate(
        &self,
        subs: &mut Substitution<Type>,
        constraints: &FnvHashMap<u64, Constraints<Type>>,
    ) -> (typ: Type) {
        let body = self.remove_forall();
        let mut generics: Vec<Symbol> = Vec::new();
        assert(types::symbols_of(generics@) =~= Seq::empty());
        gather_generics(&mut generics, body);
        let ghost ids = types::symbols_of(generics@);
        let ghost demands = constraints::demands_of(constraints@);
        let ghost whole = with_generics(subs@, ids, demands);
        let ghost first = subs@.vars.len();
        let mut rules: Vec<(Leaf, Type)> = Vec::new();
        let mut i: usize = 0;
        assert(ids.skip(0) =~= ids);
        while i < generics.len()
            invariant
                i <= generics.len(),
                ids == types::symbols_of(generics@),
                demands == constraints::demands_of(constraints@),
                subs.wf(),
                generics@.len() > 0 ==> subs@.vars.len() == subs@.size(),
                subs@.vars.len() == first + i,
                first + generics@.len() <= union_table::max_keys(),
                with_generics(subs@, ids.skip(i as int), demands) == whole,
                rules@.len() == i,
                forall|k: int|
                    0 <= k < i ==> (#[trigger] rules@[k]).0 == Leaf::Generic(ids[k].id)
                        && rules@[k].1.model() == Term::<Op>::Var((first + k) as u32),
            decreases generics.len() - i,
        {
            assert(ids.skip(i as int)[0] == generics@[i as int].model());
            assert(ids.skip(i as int).drop_first() =~= ids.skip(i + 1));
            let constraint = match fnv_get(constraints, generics[i].id) {
                Some(candidates) => Some((generics[i].clone(), share(candidates))),
                None => None,
            };
            proof {
                subs::lemma_with_var_extends(subs@, substitution::constraint_of(constraint));
            }
            let var = subs.new_constrained_var(constraint);
            rules.push((Leaf::Generic(generics[i].id), var));
            i = i + 1;
        }
        assert(rewrite::rules_of(rules@) =~= variable_rules(ids, first));
        body.rewrite(&rules)
    }
}

/// What is applied, after all applications.
pub open spec fn applied_head(t: Term<Op>) -> Term<Op>
    decreases t,
{
    match t {
        Term::Node(Op::App, kids) => if kids.len() > 0 {
            applied_head(kids[0])
        } else {
            t
        },
        _ => t,
    }
}

/// The type is an application of something.
pub open spec fn is_application(t: Term<Op>) -> bool {
    t matches Term::Node(Op::App, kids) && kids.len() > 0
}

/// An application of an application as one application to all the arguments; any other type as it
/// is.
pub open spec fn unrolled(t: Term<Op>) -> Term<Op> {
    match t {
        Term::Node(Op::App, kids) => if kids.len() > 0 && is_application(kids[0]) {
            alias::application(seq![applied_head(t)] + alias::unapplied_args(t))
        } else {
            t
        },
        _ => t,
    }
}

/// The type with everything in it that a variable stands for in the place of that variable, and
/// with applications unrolled. There is no outcome where variables stand for each other more
/// than `fuel` levels deep, or a variable cannot be asked for.
pub open spec fn substituted(s: Subs<Op>, t: Term<Op>, fuel: nat) -> Option<Term<Op>>
    decreases fuel, 0nat,
{
    if fuel == 0 || !s.askable(t) {
        None
    } else {
        match s.actual(t) {
            Term::Var(v) => Some(Term::Var(v)),
            Term::Node(op, kids) => match substituted_list(s, kids, (fuel - 1) as nat) {
                Some(found) => Some(unrolled(Term::Node(op, found))),
                None => None,
            },
        }
    }
}

/// Several types, each with what its variables stand for.
pub open spec fn substituted_list(s: Subs<Op>, kids: Seq<Term<Op>>, fuel: nat) -> Option<
    Seq<Term<Op>>,
>
    decreases fuel, 1 + kids.len(),
{
    if kids.len() == 0 {
        Some(Seq::empty())
    } else {
        match (
            substituted_list(s, kids.drop_last(), fuel),
            substituted(s, kids.last(), fuel),
        ) {
            (Some(found), Some(last)) => Some(found.push(last)),
            _ => None,
        }
    }
}

/// What the variables of the type stand for comes to an end.
pub open spec fn substitution_ends(s: Subs<Op>, t: Term<Op>) -> bool {
    exists|fuel: nat| (#[trigger] substituted(s, t, fuel)) is Some
}

/// The type with everything in it that a variable stands for, where that comes to an end.
pub open spec fn fully_substituted(s: Subs<Op>, t: Term<Op>) -> Term<Op> {
    let fuel = choose|fuel: nat| (#[trigger] substituted(s, t, fuel)) is Some;
    substituted(s, t, fuel).unwrap()
}

/// A replacement that comes to an end has the same outcome however deep it might have gone.
pub proof fn lemma_substituted_fuel(s: Subs<Op>, t: Term<Op>, fuel: nat, more: nat)
    requires
        substituted(s, t, fuel) is Some,
        fuel <= more,
    ensures
        substituted(s, t, more) == substituted(s, t, fuel),
    decreases fuel, 0nat,
{
    if let Term::Node(_, kids) = s.actual(t) {
        lemma_substituted_list_fuel(s, kids, (fuel - 1) as nat, (more - 1) as nat);
    }
}

/// The same for several types.
pub proof fn lemma_substituted_list_fuel(s: Subs<Op>, kids: Seq<Term<Op>>, fuel: nat, more: nat)
    requires
        substituted_list(s, kids, fuel) is Some,
        fuel <= more,
    ensures
        substituted_list(s, kids, more) == substituted_list(s, kids, fuel),
    decreases fuel, 1 + kids.len(),
{
    if kids.len() > 0 {
        lemma_substituted_list_fuel(s, kids.drop_last(), fuel, more);
        lemma_substituted_fuel(s, kids.last(), fuel, more);
    }
}

/// Any depth that is enough gives the type with everything in it that a variable stands for.
pub proof fn lemma_fully_substituted(s: Subs<Op>, t: Term<Op>, fuel: nat)
    requires
        substituted(s, t, fuel) is Some,
    ensures
        substitution_ends(s, t),
        substituted(s, t, fuel) == Some(fully_substituted(s, t)),
{
    let chosen = choose|fuel: nat| (#[trigger] substituted(s, t, fuel)) is Some;
    if fuel <= chosen {
        lemma_substituted_fuel(s, t, fuel, chosen);
    } else {
        lemma_substituted_fuel(s, t, chosen, fuel);
    }
}

/// A list that comes to an end does so for each of its members.
pub proof fn lemma_substituted_list_parts(s: Subs<Op>, kids: Seq<Term<Op>>, fuel: nat)
    requires
        substituted_list(s, kids, fuel) is Some,
    ensures
        substituted_list(s, kids, fuel).unwrap().len() == kids.len(),
        forall|i: int|
            0 <= i < kids.len() ==> substituted(s, #[trigger] kids[i], fuel) == Some(
                substituted_list(s, kids, fuel).unwrap()[i],
            ),
    decreases kids.len(),
{
    if kids.len() > 0 {
        lemma_substituted_list_parts(s, kids.drop_last(), fuel);
        assert forall|i: int| 0 <= i < kids.len() implies substituted(s, #[trigger] kids[i], fuel)
            == Some(substituted_list(s, kids, fuel).unwrap()[i]) by {
            if i < kids.len() - 1 {
                assert(kids.drop_last()[i] == kids[i]);
            }
        }
    }
}

impl Type {
    /// What is applied, after all applications.
    fn applied_head(&self) -> (head: &Type)
        ensures
            head.model() == applied_head(self.model()),
        decreases self,
    {
        match self {
            Type::Node(TypeOp::App, args) => {
                assert(TypeOp::App.model() == Op::App);
                if args.len() > 0 {
                    args[0].applied_head()
                } else {
                    self
                }
            },
            Type::Node(op, _) => {
                assert(!(op.model() is App));
                self
            },
            Type::Variable(_) => self,
        }
    }

    /// Whether the type is an application of something.
    fn is_application(&self) -> (found: bool)
        ensures
            found == is_application(self.model()),
    {
        match self {
            Type::Node(TypeOp::App, args) => {
                assert(TypeOp::App.model() == Op::App);
                assert(self.model()->Node_1.len() == args@.len());
                args.len() > 0
            },
            Type::Node(op, _) => {
                assert(!(op.model() is App));
                false
            },
            Type::Variable(_) => false,
        }
    }

    /// An application of an application as one application to all the arguments; any other type
    /// as it is.
    pub fn unroll(self) -> (typ: Type)
        ensures
            typ.model() == unrolled(self.model()),
    {
        let nested = match &self {
            Type::Node(TypeOp::App, args) => {
                assert(TypeOp::App.model() == Op::App);
                args.len() > 0 && args[0].is_application()
            },
            Type::Node(op, _) => {
                assert(!(op.model() is App));
                false
            },
            Type::Variable(_) => false,
        };
        if !nested {
            return self;
        }
        let mut parts: Vec<Type> = vec![self.applied_head().duplicate()];
        let mut args = self.unapplied_args();
        proof {
            assert(types::models_of(parts@ + args@) =~= seq![applied_head(self.model())]
                + alias::unapplied_args(self.model())) by {
                assert(types::models_of(args@) == alias::unapplied_args(self.model()));
                assert(forall|i: int|
                    0 <= i < args@.len() ==> types::models_of(args@)[i] == (#[trigger] args@[i]).model());
            }
        }
        parts.append(&mut args);
        Type::app(parts)
    }
}

impl Substitution<Type> {
    /// Replaces every variable in the type by what it stands for.
    pub fn set_type(&mut self, t: Type) -> (typ: Type)
        requires
            old(self).wf(),
            substitution_ends(old(self)@, t.model()),
        ensures
            final(self)@ == old(self)@,
            typ.model() == fully_substituted(old(self)@, t.model()),
    {
        let ghost fuel = choose|fuel: nat|
            (#[trigger] substituted(self@, t.model(), fuel)) is Some;
        proof {
            lemma_fully_substituted(self@, t.model(), fuel);
        }
        self.substitute(&t, Ghost(fuel))
    }

    fn substitute(&mut self, t: &Type, Ghost(fuel): Ghost<nat>) -> (typ: Type)
        requires
            old(self).wf(),
            substituted(old(self)@, t.model(), fuel) is Some,
        ensures
            final(self)@ == old(self)@,
            Some(typ.model()) == substituted(old(self)@, t.model(), fuel),
        decreases fuel,
    {
        let found = self.real_type(t).duplicate();
        match found {
            Type::Variable(id) => Type::Variable(id),
            Type::Node(op, args) => {
                let ghost kids = types::models_of(args@);
                let ghost depth = (fuel - 1) as nat;
                let ghost done = substituted_list(self@, kids, depth);
                proof {
                    assert(found.model()->Node_1 =~= kids);
                    lemma_substituted_list_parts(self@, kids, depth);
                }
                let mut parts: Vec<Type> = Vec::new();
                let mut i: usize = 0;
                while i < args.len()
                    invariant
                        i <= args.len(),
                        depth < fuel,
                        self.wf(),
                        self@ == old(self)@,
                        kids == types::models_of(args@),
                        done is Some,
                        done.unwrap().len() == kids.len(),
                        forall|k: int|
                            0 <= k < kids.len() ==> substituted(self@, #[trigger] kids[k], depth)
                                == Some(done.unwrap()[k]),
                        parts@.len() == i,
                        forall|k: int|
                            0 <= k < i ==> (#[trigger] parts@[k]).model() == done.unwrap()[k],
                    decreases args.len() - i,
                {
                    assert(kids[i as int] == args@[i as int].model());
                    parts.push(self.substitute(&args[i], Ghost(depth)));
                    i = i + 1;
                }
                let typ = Type::Node(op, parts);
                assert(typ.model()->Node_1 =~= done.unwrap());
                typ.unroll()
            },
        }
    }
}

} // verus!
