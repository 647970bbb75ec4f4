//! Making types.
use vstd::prelude::*;
use crate::alias;
use crate::rewrite;
use crate::rewrite::gather_generics;
use crate::symbol::{Symbol, SymbolModel};
use crate::term::Term;
use crate::text;
use crate::types;
use crate::types::{AliasRef, BuiltinType, Op, Type, TypeOp};

verus! {

/// The type of functions from `args` to `ret`.
pub open spec fn function_type(args: Seq<Term<Op>>, ret: Term<Op>) -> Term<Op>
    decreases args.len(),
{
    if args.len() == 0 {
        ret
    } else {
        Term::Node(
            Op::App,
            seq![
                alias::leaf(Op::Builtin(BuiltinType::Function)),
                args[0],
                function_type(args.drop_first(), ret),
            ],
        )
    }
}

/// The type of arrays.
pub open spec fn array_type(element: Term<Op>) -> Term<Op> {
    Term::Node(Op::App, seq![alias::leaf(Op::Builtin(BuiltinType::Array)), element])
}

/// The type of records with these fields.
pub open spec fn record_type(names: Seq<Seq<char>>, fields: Seq<Term<Op>>) -> Term<Op> {
    let row = if names.len() == 0 {
        alias::leaf(Op::EmptyRow)
    } else {
        Term::Node(Op::ExtendRow(names), fields.push(alias::leaf(Op::EmptyRow)))
    };
    Term::Node(Op::Record, seq![row])
}

/// The type, with a quantifier around it that binds its generics.
pub open spec fn forall_type(t: Term<Op>) -> Term<Op> {
    quantified_over(rewrite::gathered(Seq::empty(), t), t)
}

/// The type with a quantifier around it, if there is anything to bind.
pub open spec fn quantified_over(params: Seq<SymbolModel>, t: Term<Op>) -> Term<Op> {
    if params.len() == 0 {
        t
    } else {
        Term::Node(Op::Forall(params), seq![t])
    }
}

/// The name and the type of a field of a record.
#[derive(Debug)]
pub struct TypeField {
    pub name: String,
    pub typ: Type,
}

/// The names of fields.
pub open spec fn field_names(fields: Seq<TypeField>) -> Seq<Seq<char>> {
    Seq::new(fields.len(), |i: int| fields[i].name@)
}

/// The types of fields.
pub open spec fn field_types(fields: Seq<TypeField>) -> Seq<Term<Op>> {
    Seq::new(fields.len(), |i: int| fields[i].typ.model())
}

impl Type {
    /// A type without operands.
    fn leaf(op: TypeOp) -> (typ: Type)
        ensures
            typ.model() == alias::leaf(op.model()),
    {
        let typ = Type::Node(op, Vec::new());
        assert(typ.model()->Node_1 =~= Seq::empty());
        typ
    }

    /// A type that awaits ascription.
    pub fn hole() -> (typ: Type)
        ensures
            typ.model() == alias::leaf(Op::Hole),
    {
        Type::leaf(TypeOp::Hole)
    }

    /// A type of which nothing is known.
    pub fn opaque() -> (typ: Type)
        ensures
            typ.model() == alias::leaf(Op::Opaque),
    {
        Type::leaf(TypeOp::Opaque)
    }

    /// A type that is built into the language.
    pub fn builtin(builtin: BuiltinType) -> (typ: Type)
        ensures
            typ.model() == alias::leaf(Op::Builtin(builtin)),
    {
        Type::leaf(TypeOp::Builtin(builtin))
    }

    /// The type of that name.
    pub fn ident(name: Symbol) -> (typ: Type)
        ensures
            typ.model() == alias::leaf(Op::Ident(name.model())),
    {
        Type::leaf(TypeOp::Ident(name))
    }

    /// A type variable of that name.
    pub fn generic(name: Symbol) -> (typ: Type)
        ensures
            typ.model() == alias::leaf(Op::Generic(name.model())),
    {
        Type::leaf(TypeOp::Generic(name))
    }

    /// The type that an alias stands for.
    pub fn alias(alias: AliasRef) -> (typ: Type)
        ensures
            typ.model() == alias::leaf(Op::Alias(alias.model())),
    {
        Type::leaf(TypeOp::Alias(alias))
    }

    /// The type of arrays.
    pub fn array(element: Type) -> (typ: Type)
        ensures
            typ.model() == array_type(element.model()),
    {
        let mut parts: Vec<Type> = Vec::new();
        parts.push(Type::builtin(BuiltinType::Array));
        parts.push(element);
        let typ = Type::Node(TypeOp::App, parts);
        assert(TypeOp::App.model() == Op::App);
        assert(typ.model()->Node_1 =~= array_type(element.model())->Node_1);
        typ
    }

    /// The type of functions.
    pub fn function(args: Vec<Type>, ret: Type) -> (typ: Type)
        ensures
            typ.model() == function_type(types::models_of(args@), ret.model()),
    {
        let ghost all = types::models_of(args@);
        let mut args = args;
        let mut typ = ret;
        assert(all.skip(args@.len() as int) =~= Seq::empty());
        while args.len() > 0
            invariant
                args@.len() <= all.len(),
                types::models_of(args@) == all.take(args@.len() as int),
                typ.model() == function_type(all.skip(args@.len() as int), ret.model()),
            decreases args.len(),
        {
            let ghost before = types::models_of(args@);
            let ghost n = args@.len() as int;
            let ghost body = typ.model();
            let arg = args.pop().unwrap();
            let mut parts: Vec<Type> = Vec::new();
            parts.push(Type::builtin(BuiltinType::Function));
            parts.push(arg);
            parts.push(typ);
            typ = Type::Node(TypeOp::App, parts);
            proof {
                assert(types::models_of(args@) =~= all.take(n - 1)) by {
                    assert(types::models_of(args@) =~= before.drop_last());
                }
                let rest = all.skip(n - 1);
                assert(rest[0] == before[n - 1]);
                assert(rest[0] == arg.model());
                assert(rest.drop_first() =~= all.skip(n));
                assert(TypeOp::App.model() == Op::App);
                assert(typ.model()->Node_1 =~= function_type(rest, ret.model())->Node_1);
            }
        }
        assert(all.skip(0) =~= all);
        typ
    }

    /// The type of records.
    pub fn record(fields: Vec<TypeField>) -> (typ: Type)
        ensures
            typ.model() == record_type(field_names(fields@), field_types(fields@)),
    {
        let mut names: Vec<String> = Vec::new();
        let mut parts: Vec<Type> = Vec::new();
        let mut i: usize = 0;
        while i < fields.len()
            invariant
                i <= fields.len(),
                names@.len() == i,
                parts@.len() == i,
                forall|k: int| 0 <= k < i ==> (#[trigger] names@[k])@ == fields@[k].name@,
                forall|k: int|
                    0 <= k < i ==> (#[trigger] parts@[k]).model() == fields@[k].typ.model(),
            decreases fields.len() - i,
        {
            names.push(fields[i].name.clone());
            parts.push(fields[i].typ.duplicate());
            i = i + 1;
        }
        let row = if fields.len() == 0 {
            assert(TypeOp::EmptyRow.model() == Op::EmptyRow);
            Type::leaf(TypeOp::EmptyRow)
        } else {
            assert(TypeOp::EmptyRow.model() == Op::EmptyRow);
            parts.push(Type::leaf(TypeOp::EmptyRow));
            let row = Type::Node(TypeOp::ExtendRow(names), parts);
            proof {
                assert(text::texts_of(names@) =~= field_names(fields@));
                assert(TypeOp::ExtendRow(names).model() == Op::ExtendRow(field_names(fields@)));
                assert(row.model()->Node_1 =~= field_types(fields@).push(
                    alias::leaf(Op::EmptyRow),
                ));
            }
            row
        };
        let mut rows: Vec<Type> = Vec::new();
        rows.push(row);
        let typ = Type::Node(TypeOp::Record, rows);
        assert(TypeOp::Record.model() == Op::Record);
        assert(typ.model()->Node_1 =~= record_type(
            field_names(fields@),
            field_types(fields@),
        )->Node_1);
        typ
    }

    /// The type with a quantifier around it, if there is anything to bind.
    pub fn quantify(params: Vec<Symbol>, typ: Type) -> (quantified: Type)
        ensures
            quantified.model() == quantified_over(types::symbols_of(params@), typ.model()),
    {
        if params.len() == 0 {
            return typ;
        }
        let mut parts: Vec<Type> = Vec::new();
        parts.push(typ);
        let quantified = Type::Node(TypeOp::Forall(params), parts);
        assert(TypeOp::Forall(params).model() == Op::Forall(types::symbols_of(params@)));
        assert(quantified.model()->Node_1 =~= seq![typ.model()]);
        quantified
    }

    /// The type, with a quantifier around it that binds its generics.
    pub fn generalize(self) -> (typ: Type)
        ensures
            typ.model() == forall_type(self.model()),
    {
        let mut params: Vec<Symbol> = Vec::new();
        assert(types::symbols_of(params@) =~= Seq::empty());
        gather_generics(&mut params, &self);
        Type::quantify(params, self)
    }
}

} // verus!
