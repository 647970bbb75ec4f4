//! The types of the language.
use vstd::prelude::*;
use crate::substitution::share;
use crate::symbol::{Symbol, SymbolModel};
use crate::term::Term;
use crate::text;
use crate::text::{duplicate_texts, same_texts};
use std::sync::Arc;

verus! {

/// The types that are built into the language.
#[derive(Clone, Copy, Debug, PartialEq, Eq, Structural)]
pub enum BuiltinType {
    /// Unicode string
    String,
    /// Unsigned byte
    Byte,
    /// Character
    Char,
    /// Integer number
    Int,
    /// Floating point number
    Float,
    /// Type constructor for arrays, `Array a : Type -> Type`
    Array,
    /// Type constructor for functions, `(->) a b : Type -> Type -> Type`
    Function,
}

/// A type: a variable that is yet to be inferred, or an operator with its operands.
#[derive(Debug)]
pub enum Type {
    /// An unbound type variable that may be unified with other types.
    Variable(u32),
    Node(TypeOp, Vec<Type>),
}

/// What a type is made with.
#[derive(Debug)]
pub enum TypeOp {
    /// An unbound type `_`, awaiting ascription.
    Hole,
    /// An opaque type
    Opaque,
    /// A builtin type
    Builtin(BuiltinType),
    /// Universally quantified types: the parameters; the operand is the type they stand in.
    Forall(Vec<Symbol>),
    /// A type application: the first operand is applied to the others.
    App,
    /// Record constructor, of kind `Row -> Type`: the operand is the row.
    Record,
    /// The empty row, of kind `Row`
    EmptyRow,
    /// Row extension: the names of fields; the operands are their types and the rest of the row.
    ExtendRow(Vec<String>),
    /// An identifier type
    Ident(Symbol),
    /// A variable that needs to be instantiated with a fresh type variable
    /// when the binding is refered to.
    Generic(Symbol),
    /// A rigid constant that stands for a quantified variable.
    Skolem(Symbol),
    /// A type alias
    Alias(AliasRef),
}

/// A reference to an alias, with the group of aliases that its type may refer to by name.
#[derive(Debug)]
pub struct AliasRef {
    pub alias: Arc<AliasData>,
    pub group: Arc<Vec<Arc<AliasData>>>,
}

/// A type alias: a name for a type.
#[derive(Debug)]
pub struct AliasData {
    pub name: Symbol,
    /// The type, in which aliases of the same group are identifiers.
    pub typ: Type,
}

/// The operator of a type, as it stands in terms.
pub enum Op {
    Hole,
    Opaque,
    Builtin(BuiltinType),
    Forall(Seq<SymbolModel>),
    App,
    Record,
    EmptyRow,
    ExtendRow(Seq<Seq<char>>),
    Ident(SymbolModel),
    Generic(SymbolModel),
    Skolem(SymbolModel),
    Alias(AliasModel),
}

/// The model of an [`AliasRef`].
pub struct AliasModel {
    pub alias: Box<AliasEntry>,
    pub group: Seq<AliasEntry>,
}

/// The model of an [`AliasData`].
pub struct AliasEntry {
    pub name: SymbolModel,
    pub typ: Term<Op>,
}

/// Several symbols as they stand in models.
pub open spec fn symbols_of(symbols: Seq<Symbol>) -> Seq<SymbolModel> {
    Seq::new(symbols.len(), |i: int| symbols[i].model())
}

impl Type {
    /// The type as a term.
    pub open spec fn model(self) -> Term<Op>
        decreases self,
    {
        match self {
            Type::Variable(id) => Term::Var(id),
            Type::Node(op, args) => Term::Node(
                op.model(),
                Seq::new(
                    args@.len(),
                    |i: int|
                        if 0 <= i < args@.len() {
                            args@[i].model()
                        } else {
                            arbitrary()
                        },
                ),
            ),
        }
    }
}

/// Several types as terms.
pub open spec fn models_of(types: Seq<Type>) -> Seq<Term<Op>> {
    Seq::new(types.len(), |i: int| types[i].model())
}

impl TypeOp {
    /// The operator as it stands in terms.
    pub open spec fn model(self) -> Op
        decreases self,
    {
        match self {
            TypeOp::Hole => Op::Hole,
            TypeOp::Opaque => Op::Opaque,
            TypeOp::Builtin(builtin) => Op::Builtin(builtin),
            TypeOp::Forall(params) => Op::Forall(symbols_of(params@)),
            TypeOp::App => Op::App,
            TypeOp::Record => Op::Record,
            TypeOp::EmptyRow => Op::EmptyRow,
            TypeOp::ExtendRow(names) => Op::ExtendRow(text::texts_of(names@)),
            TypeOp::Ident(name) => Op::Ident(name.model()),
            TypeOp::Generic(name) => Op::Generic(name.model()),
            TypeOp::Skolem(name) => Op::Skolem(name.model()),
            TypeOp::Alias(alias) => Op::Alias(alias.model()),
        }
    }
}

impl AliasRef {
    /// The alias as it stands in terms.
    pub open spec fn model(self) -> AliasModel
        decreases self,
    {
        AliasModel {
            alias: Box::new(self.alias.model()),
            group: Seq::new(
                self.group@.len(),
                |i: int|
                    if 0 <= i < self.group@.len() {
                        self.group@[i].model()
                    } else {
                        arbitrary()
                    },
            ),
        }
    }
}

impl AliasData {
    /// The alias as it stands in terms.
    pub open spec fn model(self) -> AliasEntry
        decreases self,
    {
        AliasEntry { name: self.name.model(), typ: self.typ.model() }
    }
}

/// Copies symbols.
pub fn duplicate_symbols(symbols: &Vec<Symbol>) -> (copy: Vec<Symbol>)
    ensures
        copy@ == symbols@,
{
    let mut copy: Vec<Symbol> = Vec::new();
    let mut i: usize = 0;
    while i < symbols.len()
        invariant
            i <= symbols.len(),
            copy@ == symbols@.take(i as int),
        decreases symbols.len() - i,
    {
        copy.push(symbols[i].clone());
        i = i + 1;
        assert(copy@ =~= symbols@.take(i as int));
    }
    assert(copy@ =~= symbols@);
    copy
}

/// Whether symbols are the same, one by one.
fn same_symbols(a: &Vec<Symbol>, b: &Vec<Symbol>) -> (same: bool)
    ensures
        same == (symbols_of(a@) == symbols_of(b@)),
{
    if a.len() != b.len() {
        assert(symbols_of(a@).len() != symbols_of(b@).len());
        return false;
    }
    let mut i: usize = 0;
    while i < a.len()
        invariant
            i <= a.len(),
            a@.len() == b@.len(),
            forall|k: int| 0 <= k < i ==> (#[trigger] a@[k]).model() == b@[k].model(),
        decreases a.len() - i,
    {
        if !a[i].same(&b[i]) {
            assert(symbols_of(a@)[i as int] != symbols_of(b@)[i as int]);
            return false;
        }
        i = i + 1;
    }
    assert(symbols_of(a@) =~= symbols_of(b@));
    true
}

impl Type {
    /// The same type once more.
    pub fn duplicate(&self) -> (copy: Type)
        ensures
            copy.model() == self.model(),
        decreases self,
    {
        match self {
            Type::Variable(id) => Type::Variable(*id),
            Type::Node(op, args) => {
                let copy = Type::Node(op.duplicate(), duplicate_types(args));
                assert(copy.model()->Node_1 =~= self.model()->Node_1) by {
                    assert(models_of(args@) =~= self.model()->Node_1);
                    assert(models_of(copy->Node_1@) =~= copy.model()->Node_1);
                }
                copy
            },
        }
    }

    /// Whether the two types are the same.
    pub fn same(&self, other: &Type) -> (same: bool)
        ensures
            same == (self.model() == other.model()),
        decreases self,
    {
        match (self, other) {
            (Type::Variable(a), Type::Variable(b)) => *a == *b,
            (Type::Node(op, args), Type::Node(other_op, other_args)) => {
                assert(models_of(args@) =~= self.model()->Node_1);
                assert(models_of(other_args@) =~= other.model()->Node_1);
                if !op.same(other_op) {
                    return false;
                }
                if args.len() != other_args.len() {
                    return false;
                }
                let mut i: usize = 0;
                while i < args.len()
                    invariant
                        i <= args.len(),
                        args@.len() == other_args@.len(),
                        forall|k: int|
                            0 <= k < i ==> (#[trigger] args@[k]).model() == other_args@[k].model(),
                        models_of(args@) == self.model()->Node_1,
                        models_of(other_args@) == other.model()->Node_1,
                        forall|k: int| 0 <= k < args@.len() ==> decreases_to!(self => #[trigger] args@[k]),
                        self.model() is Node,
                        other.model() is Node,
                    decreases args.len() - i,
                {
                    if !args[i].same(&other_args[i]) {
                        assert(models_of(args@)[i as int] != models_of(other_args@)[i as int]);
                        return false;
                    }
                    i = i + 1;
                }
                assert(models_of(args@) =~= models_of(other_args@));
                true
            },
            _ => false,
        }
    }
}

/// Copies types.
pub fn duplicate_types(types: &Vec<Type>) -> (copy: Vec<Type>)
    ensures
        models_of(copy@) == models_of(types@),
    decreases types,
{
    let mut copy: Vec<Type> = Vec::new();
    let mut i: usize = 0;
    while i < types.len()
        invariant
            i <= types.len(),
            copy@.len() == i,
            forall|k: int| 0 <= k < i ==> (#[trigger] copy@[k]).model() == types@[k].model(),
            forall|k: int| 0 <= k < types@.len() ==> decreases_to!(types => #[trigger] types@[k]),
        decreases types.len() - i,
    {
        copy.push(types[i].duplicate());
        i = i + 1;
    }
    assert(models_of(copy@) =~= models_of(types@));
    copy
}

impl TypeOp {
    /// The same operator once more.
    pub fn duplicate(&self) -> (copy: TypeOp)
        ensures
            copy.model() == self.model(),
    {
        match self {
            TypeOp::Hole => TypeOp::Hole,
            TypeOp::Opaque => TypeOp::Opaque,
            TypeOp::Builtin(builtin) => TypeOp::Builtin(*builtin),
            TypeOp::Forall(params) => TypeOp::Forall(duplicate_symbols(params)),
            TypeOp::App => TypeOp::App,
            TypeOp::Record => TypeOp::Record,
            TypeOp::EmptyRow => TypeOp::EmptyRow,
            TypeOp::ExtendRow(names) => TypeOp::ExtendRow(duplicate_texts(names)),
            TypeOp::Ident(name) => TypeOp::Ident(name.clone()),
            TypeOp::Generic(name) => TypeOp::Generic(name.clone()),
            TypeOp::Skolem(name) => TypeOp::Skolem(name.clone()),
            TypeOp::Alias(alias) => TypeOp::Alias(alias.duplicate()),
        }
    }

    /// Whether the two operators are the same.
    pub fn same(&self, other: &TypeOp) -> (same: bool)
        ensures
            same == (self.model() == other.model()),
        decreases self,
    {
        match (self, other) {
            (TypeOp::Hole, TypeOp::Hole) => true,
            (TypeOp::Opaque, TypeOp::Opaque) => true,
            (TypeOp::Builtin(a), TypeOp::Builtin(b)) => *a == *b,
            (TypeOp::Forall(a), TypeOp::Forall(b)) => same_symbols(a, b),
            (TypeOp::App, TypeOp::App) => true,
            (TypeOp::Record, TypeOp::Record) => true,
            (TypeOp::EmptyRow, TypeOp::EmptyRow) => true,
            (TypeOp::ExtendRow(a), TypeOp::ExtendRow(b)) => same_texts(a, b),
            (TypeOp::Ident(a), TypeOp::Ident(b)) => a.same(b),
            (TypeOp::Generic(a), TypeOp::Generic(b)) => a.same(b),
            (TypeOp::Skolem(a), TypeOp::Skolem(b)) => a.same(b),
            (TypeOp::Alias(a), TypeOp::Alias(b)) => a.same(b),
            _ => false,
        }
    }
}

impl AliasRef {
    /// The same alias once more.
    pub fn duplicate(&self) -> (copy: AliasRef)
        ensures
            copy == *self,
    {
        AliasRef { alias: share(&self.alias), group: share(&self.group) }
    }

    /// Whether the two aliases are the same.
    pub fn same(&self, other: &AliasRef) -> (same: bool)
        ensures
            same == (self.model() == other.model()),
        decreases self,
    {
        let a = &self.group;
        let b = &other.group;
        if !self.alias.same(&other.alias) {
            return false;
        }
        if a.len() != b.len() {
            assert(self.model().group.len() != other.model().group.len());
            return false;
        }
        let mut i: usize = 0;
        while i < a.len()
            invariant
                i <= a@.len(),
                a@.len() == b@.len(),
                a@ == self.group@,
                b@ == other.group@,
                forall|k: int| 0 <= k < i ==> (#[trigger] a@[k]).model() == b@[k].model(),
                forall|k: int| 0 <= k < a@.len() ==> decreases_to!(self => *#[trigger] a@[k]),
                self.model().alias == other.model().alias,
            decreases a@.len() - i,
        {
            if !a[i].same(&b[i]) {
                assert(self.model().group[i as int] != other.model().group[i as int]);
                return false;
            }
            i = i + 1;
        }
        assert(self.model().group =~= other.model().group);
        true
    }
}

impl AliasData {
    /// Whether the two aliases have the same name and the same type.
    pub fn same(&self, other: &AliasData) -> (same: bool)
        ensures
            same == (self.model() == other.model()),
        decreases self,
    {
        self.name.same(&other.name) && self.typ.same(&other.typ)
    }
}

} // verus!
