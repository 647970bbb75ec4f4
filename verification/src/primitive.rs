//! Functions of the host as values of the virtual machine.
use vstd::prelude::*;
use crate::api::{Pushable, VmType};
use crate::function::{FunctionType, GluonFunction, VmFunction};
use crate::machine;
use crate::machine::{Context, Error, Failure, Heap};
use crate::term::Term;
use crate::thread::Thread;
use crate::types::{Op, Type};
use crate::value::{Val, VmIndex};
use std::marker::PhantomData;

verus! {

/// A function of the host with the type `F`.
#[derive(Debug)]
pub struct Primitive<F> {
    name: &'static str,
    function: GluonFunction,
    _typ: PhantomData<F>,
}

/// A function of the host with the type `F` that may hold on to the thread.
#[derive(Debug)]
pub struct RefPrimitive<'vm, F> {
    name: &'static str,
    function: GluonFunction,
    _typ: PhantomData<(&'vm Thread, F)>,
}

/// The text with `to` in the place of each occurrence of `from`, from the left.
pub open spec fn replaced(text: Seq<char>, from: Seq<char>, to: Seq<char>) -> Seq<char>
    decreases text.len(),
{
    if text.len() == 0 || from.len() == 0 {
        text
    } else if from.is_prefix_of(text) {
        to + replaced(text.skip(from.len() as int), from, to)
    } else {
        seq![text[0]] + replaced(text.skip(1), from, to)
    }
}

/// `str::replace`: a copy of the text with `to` in the place of each occurrence of `from`, where
/// `from` is not empty.
#[verifier::external_body]
fn replace_all(text: &str, from: &str, to: &str) -> (copy: String)
    requires
        from@.len() > 0,
    ensures
        copy@ == replaced(text@, from@, to@),
{
    text.replace(from, to)
}

impl<F> Primitive<F> {
    pub closed spec fn label(&self) -> Seq<char> {
        self.name@
    }

    pub closed spec fn handle(&self) -> GluonFunction {
        self.function
    }
}

impl<'vm, F> RefPrimitive<'vm, F> {
    pub closed spec fn label(&self) -> Seq<char> {
        self.name@
    }

    pub closed spec fn handle(&self) -> GluonFunction {
        self.function
    }
}

pub fn primitive<F>(name: &'static str, function: GluonFunction) -> (primitive: Primitive<F>)
    ensures
        primitive.label() == name@,
        primitive.handle() == function,
{
    Primitive { name, function, _typ: PhantomData }
}

pub fn primitive_f<'vm, F: VmFunction<'vm>>(
    name: &'static str,
    function: GluonFunction,
    typ: F,
) -> (primitive: RefPrimitive<'vm, F>)
    ensures
        primitive.label() == name@,
        primitive.handle() == function,
{
    RefPrimitive { name, function, _typ: PhantomData }
}

impl<F: VmType> VmType for Primitive<F> {
    open spec fn typable(vm: &Thread) -> bool {
        F::typable(vm)
    }

    open spec fn typ(vm: &Thread) -> Term<Op> {
        F::typ(vm)
    }

    open spec fn extra() -> u8 {
        0
    }

    fn make_type(vm: &Thread) -> (typ: Type) {
        F::make_type(vm)
    }

    fn extra_args() -> (count: VmIndex) {
        0
    }
}

/// Making a function of the host. The separators of rust modules in its name become those of gluon
/// modules.
pub open spec fn primitive_placed(
    heap: Heap,
    name: Seq<char>,
    args: VmIndex,
    function: GluonFunction,
) -> (Heap, Result<Val, Failure>) {
    machine::function_placed(heap, replaced(name, "::"@, "."@), args, function)
}

impl<'vm, F: FunctionType + VmType> Pushable<'vm> for Primitive<F> {
    open spec fn pushed(self, vm: &Thread, heap: Heap) -> (Heap, Result<Val, Failure>) {
        primitive_placed(heap, self.label(), F::arity(), self.handle())
    }

    proof fn law_memory_is_bounded(self, vm: &Thread, heap: Heap) {
    }

    fn push(self, vm: &'vm Thread, context: &mut Context) -> (result: Result<(), Error>) {
        proof {
            reveal_strlit("::");
        }
        let id = replace_all(self.name, "::", ".");
        match context.alloc_function(id, F::arguments(), self.function) {
            Ok(value) => {
                context.push_value(value);
                Ok(())
            },
            Err(error) => Err(error),
        }
    }
}

impl<'vm, F: VmType> VmType for RefPrimitive<'vm, F> {
    open spec fn typable(vm: &Thread) -> bool {
        F::typable(vm)
    }

    open spec fn typ(vm: &Thread) -> Term<Op> {
        F::typ(vm)
    }

    open spec fn extra() -> u8 {
        0
    }

    fn make_type(vm: &Thread) -> (typ: Type) {
        F::make_type(vm)
    }

    fn extra_args() -> (count: VmIndex) {
        0
    }
}

impl<'vm, F: FunctionType + VmType> Pushable<'vm> for RefPrimitive<'vm, F> {
    open spec fn pushed(self, vm: &Thread, heap: Heap) -> (Heap, Result<Val, Failure>) {
        primitive_placed(heap, self.label(), F::arity(), self.handle())
    }

    proof fn law_memory_is_bounded(self, vm: &Thread, heap: Heap) {
    }

    fn push(self, vm: &'vm Thread, context: &mut Context) -> (result: Result<(), Error>) {
        let inner: Primitive<F> = Primitive {
            function: self.function,
            name: self.name,
            _typ: PhantomData,
        };
        inner.push(vm, context)
    }
}

/// A function of the host whose type is not known.
#[derive(Debug)]
pub struct CPrimitive {
    function: GluonFunction,
    args: VmIndex,
    id: String,
}

impl CPrimitive {
    pub closed spec fn label(&self) -> Seq<char> {
        self.id@
    }

    pub closed spec fn arity(&self) -> VmIndex {
        self.args
    }

    pub closed spec fn handle(&self) -> GluonFunction {
        self.function
    }

    pub fn new(function: GluonFunction, args: VmIndex, id: &str) -> (primitive: CPrimitive)
        ensures
            primitive.handle() == function,
            primitive.arity() == args,
            primitive.label() == id@,
    {
        CPrimitive { id: id.to_owned(), function, args }
    }
}

impl<'vm> Pushable<'vm> for CPrimitive {
    open spec fn pushed(self, vm: &Thread, heap: Heap) -> (Heap, Result<Val, Failure>) {
        machine::function_placed(heap, self.label(), self.arity(), self.handle())
    }

    proof fn law_memory_is_bounded(self, vm: &Thread, heap: Heap) {
    }

    fn push(self, vm: &'vm Thread, context: &mut Context) -> (result: Result<(), Error>) {
        match context.alloc_function(self.id, self.args, self.function) {
            Ok(value) => {
                context.push_value(value);
                Ok(())
            },
            Err(error) => Err(error),
        }
    }
}

/// The separator of rust modules stands somewhere in the name.
pub open spec fn has_separator(name: Seq<char>) -> bool {
    exists|i: int| 0 <= i < name.len() - 1 && #[trigger] name[i] == ':' && name[i + 1] == ':'
}

/// No separator of rust modules is left in the name of a function.
pub proof fn law_no_separator_is_left(name: Seq<char>)
    ensures
        !has_separator(replaced(name, "::"@, "."@)),
        name.len() > 0 && !"::"@.is_prefix_of(name) ==> replaced(name, "::"@, "."@).len() > 0
            && replaced(name, "::"@, "."@)[0] == name[0],
    decreases name.len(),
{
    reveal_strlit("::");
    reveal_strlit(".");
    let from = "::"@;
    let to = "."@;
    assert(from =~= seq![':', ':']);
    assert(to =~= seq!['.']);
    let all = replaced(name, from, to);
    if name.len() > 0 {
        if from.is_prefix_of(name) {
            law_no_separator_is_left(name.skip(2));
            let rest = replaced(name.skip(2), from, to);
            assert(all =~= to + rest);
            if has_separator(all) {
                let i = choose|i: int|
                    0 <= i < all.len() - 1 && #[trigger] all[i] == ':' && all[i + 1] == ':';
                assert(i > 0);
                assert(rest[i - 1] == ':' && rest[(i - 1) + 1] == ':');
            }
        } else {
            let tail = name.skip(1);
            law_no_separator_is_left(tail);
            let rest = replaced(tail, from, to);
            assert(all =~= seq![name[0]] + rest);
            if has_separator(all) {
                let i = choose|i: int|
                    0 <= i < all.len() - 1 && #[trigger] all[i] == ':' && all[i + 1] == ':';
                if i == 0 {
                    assert(rest.len() > 0 && rest[0] == ':');
                    if tail.len() > 0 {
                        if from.is_prefix_of(tail) {
                            assert(tail[0] == ':');
                            assert(name[1] == ':');
                            assert(name.subrange(0, 2) =~= from);
                        } else {
                            assert(rest[0] == tail[0]);
                            assert(name.subrange(0, 2) =~= from);
                        }
                    }
                } else {
                    assert(rest[i - 1] == ':' && rest[(i - 1) + 1] == ':');
                }
            }
        }
    }
}

/// A name without a separator of rust modules stays as it is.
pub proof fn law_other_names_stay(name: Seq<char>)
    requires
        !has_separator(name),
    ensures
        replaced(name, "::"@, "."@) == name,
    decreases name.len(),
{
    reveal_strlit("::");
    let from = "::"@;
    assert(from =~= seq![':', ':']);
    if name.len() > 0 {
        if from.is_prefix_of(name) {
            assert(name[0] == from[0] && name[1] == from[1]);
            assert(name[0int + 1] == ':');
        }
        let tail = name.skip(1);
        if has_separator(tail) {
            let i = choose|i: int|
                0 <= i < tail.len() - 1 && #[trigger] tail[i] == ':' && tail[i + 1] == ':';
            assert(name[i + 1] == ':' && name[(i + 1) + 1] == ':');
        }
        law_other_names_stay(tail);
        assert(replaced(name, from, "."@) =~= name);
    }
}

} // verus!
