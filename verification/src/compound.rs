//! Options, results, arrays and tuples of the host in the virtual machine.
use vstd::prelude::*;
use crate::api::{Getable, Marshalled, Pushable, VmType};
use crate::machine;
use crate::machine::{Context, Error, Failure, Heap, Machine};
use crate::scalar;
use crate::scalar::find_alias_type;
use crate::term::Term;
use crate::thread::Thread;
use crate::type_cache;
use crate::type_cache::TypeField;
use crate::types;
use crate::types::{Op, Type};
use crate::value;
use crate::value::{Val, Value, VmIndex, VmTag};
use crate::value_ref;
use crate::value_ref::{ValueRef, Variants};

verus! {

/// Values that were pushed one after the other, or why that stopped, and the memory afterwards.
pub type Parts = (Heap, Result<Seq<Val>, Failure>);

/// No values yet.
pub open spec fn no_parts(heap: Heap) -> Parts {
    (heap, Ok(Seq::empty()))
}

/// One more value, unless there was a failure before.
pub open spec fn joined<'vm, T: Pushable<'vm>>(parts: Parts, vm: &Thread, item: T) -> Parts {
    match parts.1 {
        Ok(values) => {
            let (heap, outcome) = item.pushed(vm, parts.0);
            match outcome {
                Ok(value) => (heap, Ok(values.push(value))),
                Err(failure) => (heap, Err(failure)),
            }
        },
        Err(_) => parts,
    }
}

/// Data that holds the values.
pub open spec fn packed(parts: Parts, tag: VmTag) -> (Heap, Result<Val, Failure>) {
    match parts.1 {
        Ok(values) => machine::data_placed(parts.0, tag, values),
        Err(failure) => (parts.0, Err(failure)),
    }
}

/// The machine while the values are on its stack, above what was there before.
pub open spec fn holding(before: Machine, parts: Parts) -> Machine {
    match parts.1 {
        Ok(values) => Machine { stack: before.stack + values, heap: parts.0, ..before },
        Err(_) => before.with_heap(parts.0),
    }
}

/// Pushes one more value; where that fails, drops all of them.
pub(crate) fn push_part<'vm, T: Pushable<'vm>>(
    item: T,
    vm: &'vm Thread,
    context: &mut Context,
    base: usize,
    Ghost(before): Ghost<Machine>,
    Ghost(parts): Ghost<Parts>,
) -> (result: Result<(), Error>)
    requires
        parts.1 is Ok,
        base == before.stack.len(),
        old(context)@ == holding(before, parts),
    ensures
        final(context)@ == holding(before, joined(parts, vm, item)),
        match result {
            Ok(_) => joined(parts, vm, item).1 is Ok,
            Err(error) => joined(parts, vm, item).1 == Err::<Seq<Val>, Failure>(error.model()),
        },
{
    match item.push(vm, context) {
        Ok(_) => {
            assert(context@.stack =~= before.stack + joined(parts, vm, item).1->Ok_0);
            Ok(())
        },
        Err(error) => {
            context.truncate(base);
            assert(context@.stack =~= before.stack);
            Err(error)
        },
    }
}

/// Replaces the values by data that holds them; where that fails, drops them.
pub(crate) fn pack_parts(
    context: &mut Context,
    base: usize,
    tag: VmTag,
    Ghost(before): Ghost<Machine>,
    Ghost(parts): Ghost<Parts>,
) -> (result: Result<(), Error>)
    requires
        parts.1 is Ok,
        base == before.stack.len(),
        old(context)@ == holding(before, parts),
    ensures
        final(context)@ == before.after(packed(parts, tag)),
        machine::agrees(packed(parts, tag).1, result),
{
    assert(context@.stack.len() == before.stack.len() + parts.1->Ok_0.len());
    let count: usize = context.stack.len() - base;
    let values = context.pop_values(count);
    proof {
        assert(context@.stack =~= before.stack);
        assert(value::models_of(values@) =~= parts.1->Ok_0);
    }
    match context.alloc_data(tag, values) {
        Ok(value) => {
            context.push_value(value);
            Ok(())
        },
        Err(error) => Err(error),
    }
}

/// The alias `name`, applied to types.
pub open spec fn applied_alias(vm: &Thread, name: Seq<char>, args: Seq<Term<Op>>) -> Term<Op> {
    Term::Node(Op::App, seq![scalar::alias_type(vm, name)] + args)
}

/// The alias `name`, applied to types. There has to be one.
pub(crate) fn apply_alias(vm: &Thread, name: &str, args: Vec<Type>) -> (typ: Type)
    requires
        vm.type_info(name@) is Some,
        args@.len() > 0,
    ensures
        typ.model() == applied_alias(vm, name@, types::models_of(args@)),
{
    let mut args = args;
    let ghost models = types::models_of(args@);
    let mut parts: Vec<Type> = Vec::new();
    parts.push(find_alias_type(vm, name));
    parts.append(&mut args);
    assert(types::models_of(parts@) =~= seq![scalar::alias_type(vm, name@)] + models);
    Type::app(parts)
}

impl<T: VmType> VmType for Option<T> {
    open spec fn typable(vm: &Thread) -> bool {
        vm.type_info("std.types.Option"@) is Some && T::typable(vm)
    }

    open spec fn typ(vm: &Thread) -> Term<Op> {
        applied_alias(vm, "std.types.Option"@, seq![T::typ(vm)])
    }

    open spec fn extra() -> u8 {
        0
    }

    fn make_type(vm: &Thread) -> (typ: Type) {
        let mut args: Vec<Type> = Vec::new();
        args.push(T::make_type(vm));
        assert(types::models_of(args@) =~= seq![T::typ(vm)]);
        apply_alias(vm, "std.types.Option", args)
    }

    fn extra_args() -> (count: VmIndex) {
        0
    }
}

impl<'vm, T: Pushable<'vm>> Pushable<'vm> for Option<T> {
    open spec fn pushed(self, vm: &Thread, heap: Heap) -> (Heap, Result<Val, Failure>) {
        match self {
            Some(value) => packed(joined(no_parts(heap), vm, value), 1),
            None => (heap, Ok(Val::Tag(0))),
        }
    }

    proof fn law_memory_is_bounded(self, vm: &Thread, heap: Heap) {
        if let Some(value) = self {
            value.law_memory_is_bounded(vm, heap);
        }
    }

    fn push(self, vm: &'vm Thread, context: &mut Context) -> (result: Result<(), Error>) {
        match self {
            Some(value) => {
                let base: usize = context.stack.len();
                let ghost before = context@;
                let ghost parts = no_parts(before.heap);
                assert(context@.stack =~= before.stack + Seq::<Val>::empty());
                match push_part(value, vm, context, base, Ghost(before), Ghost(parts)) {
                    Ok(_) => {},
                    Err(error) => {
                        return Err(error);
                    },
                }
                pack_parts(context, base, 1, Ghost(before), Ghost(joined(parts, vm, value)))
            },
            None => {
                context.push_value(Value::Tag(0));
                Ok(())
            },
        }
    }
}

impl<'vm, T: Getable<'vm>> Getable<'vm> for Option<T> {
    type Image = Option<T::Image>;

    open spec fn image(self) -> Option<T::Image> {
        match self {
            Some(value) => Some(value.image()),
            None => None,
        }
    }

    open spec fn of_thread(self, vm: &Thread) -> bool {
        self matches Some(value) ==> value.of_thread(vm)
    }

    open spec fn gettable(value: Val) -> bool {
        match value_ref::shown(value) {
            value_ref::Shown::Data(data) => {
                let fields = value_ref::fields_of(data);
                value_ref::tag_of(data) != 0 ==> fields.len() > 0 && T::gettable(fields[0])
            },
            _ => true,
        }
    }

    open spec fn got(value: Val) -> Option<Option<T::Image>> {
        match value_ref::shown(value) {
            value_ref::Shown::Data(data) => if value_ref::tag_of(data) == 0 {
                Some(None)
            } else {
                match T::got(value_ref::fields_of(data)[0]) {
                    Some(image) => Some(Some(image)),
                    None => None,
                }
            },
            _ => None,
        }
    }

    open spec fn got_rooted(value: Val) -> Option<Option<T::Image>> {
        Self::got(value)
    }

    fn from_value_unsafe(vm: &'vm Thread, value: Variants<'vm>) -> (found: Option<Option<T>>) {
        Self::from_value(vm, value)
    }

    fn from_value(vm: &'vm Thread, value: Variants<'vm>) -> (found: Option<Option<T>>) {
        match value.as_ref() {
            ValueRef::Data(data) => {
                if data.tag() == 0 {
                    Some(None)
                } else {
                    match T::from_value(vm, data.get_variants(0).unwrap()) {
                        Some(value) => Some(Some(value)),
                        None => None,
                    }
                }
            },
            _ => None,
        }
    }
}

impl<'vm, T: Marshalled<'vm>> Marshalled<'vm> for Option<T> {
    proof fn law_read_back(self, vm: &Thread, heap: Heap) {
        if let Some(value) = self {
            value.law_read_back(vm, heap);
        }
    }
}

impl<T: VmType, E: VmType> VmType for Result<T, E> {
    open spec fn typable(vm: &Thread) -> bool {
        vm.type_info("std.types.Result"@) is Some && E::typable(vm) && T::typable(vm)
    }

    open spec fn typ(vm: &Thread) -> Term<Op> {
        applied_alias(vm, "std.types.Result"@, seq![E::typ(vm), T::typ(vm)])
    }

    open spec fn extra() -> u8 {
        0
    }

    fn make_type(vm: &Thread) -> (typ: Type) {
        let mut args: Vec<Type> = Vec::new();
        args.push(E::make_type(vm));
        args.push(T::make_type(vm));
        assert(types::models_of(args@) =~= seq![E::typ(vm), T::typ(vm)]);
        apply_alias(vm, "std.types.Result", args)
    }

    fn extra_args() -> (count: VmIndex) {
        0
    }
}

impl<'vm, T: Pushable<'vm>, E: Pushable<'vm>> Pushable<'vm> for Result<T, E> {
    open spec fn pushed(self, vm: &Thread, heap: Heap) -> (Heap, Result<Val, Failure>) {
        match self {
            Ok(ok) => packed(joined(no_parts(heap), vm, ok), 1),
            Err(err) => packed(joined(no_parts(heap), vm, err), 0),
        }
    }

    proof fn law_memory_is_bounded(self, vm: &Thread, heap: Heap) {
        match self {
            Ok(ok) => {
                ok.law_memory_is_bounded(vm, heap);
            },
            Err(err) => {
                err.law_memory_is_bounded(vm, heap);
            },
        }
    }

    fn push(self, vm: &'vm Thread, context: &mut Context) -> (result: Result<(), Error>) {
        let base: usize = context.stack.len();
        let ghost before = context@;
        let ghost parts = no_parts(before.heap);
        assert(context@.stack =~= before.stack + Seq::<Val>::empty());
        match self {
            Ok(ok) => {
                match push_part(ok, vm, context, base, Ghost(before), Ghost(parts)) {
                    Ok(_) => {},
                    Err(error) => {
                        return Err(error);
                    },
                }
                pack_parts(context, base, 1, Ghost(before), Ghost(joined(parts, vm, ok)))
            },
            Err(err) => {
                match push_part(err, vm, context, base, Ghost(before), Ghost(parts)) {
                    Ok(_) => {},
                    Err(error) => {
                        return Err(error);
                    },
                }
                pack_parts(context, base, 0, Ghost(before), Ghost(joined(parts, vm, err)))
            },
        }
    }
}

impl<'vm, T: Getable<'vm>, E: Getable<'vm>> Getable<'vm> for Result<T, E> {
    type Image = Result<T::Image, E::Image>;

    open spec fn image(self) -> Result<T::Image, E::Image> {
        match self {
            Ok(ok) => Ok(ok.image()),
            Err(err) => Err(err.image()),
        }
    }

    open spec fn of_thread(self, vm: &Thread) -> bool {
        match self {
            Ok(ok) => ok.of_thread(vm),
            Err(err) => err.of_thread(vm),
        }
    }

    open spec fn gettable(value: Val) -> bool {
        match value_ref::shown(value) {
            value_ref::Shown::Data(data) => {
                let fields = value_ref::fields_of(data);
                &&& value_ref::tag_of(data) == 0 ==> fields.len() > 0 && E::gettable(fields[0])
                &&& value_ref::tag_of(data) == 1 ==> fields.len() > 0 && T::gettable(fields[0])
            },
            _ => true,
        }
    }

    open spec fn got(value: Val) -> Option<Result<T::Image, E::Image>> {
        match value_ref::shown(value) {
            value_ref::Shown::Data(data) => if value_ref::tag_of(data) == 0 {
                match E::got(value_ref::fields_of(data)[0]) {
                    Some(image) => Some(Err(image)),
                    None => None,
                }
            } else if value_ref::tag_of(data) == 1 {
                match T::got(value_ref::fields_of(data)[0]) {
                    Some(image) => Some(Ok(image)),
                    None => None,
                }
            } else {
                None
            },
            _ => None,
        }
    }

    open spec fn got_rooted(value: Val) -> Option<Result<T::Image, E::Image>> {
        Self::got(value)
    }

    fn from_value_unsafe(vm: &'vm Thread, value: Variants<'vm>) -> (found: Option<Result<T, E>>) {
        Self::from_value(vm, value)
    }

    fn from_value(vm: &'vm Thread, value: Variants<'vm>) -> (found: Option<Result<T, E>>) {
        match value.as_ref() {
            ValueRef::Data(data) => {
                let tag: VmTag = data.tag();
                if tag == 0 {
                    match E::from_value(vm, data.get_variants(0).unwrap()) {
                        Some(err) => Some(Err(err)),
                        None => None,
                    }
                } else if tag == 1 {
                    match T::from_value(vm, data.get_variants(0).unwrap()) {
                        Some(ok) => Some(Ok(ok)),
                        None => None,
                    }
                } else {
                    None
                }
            },
            _ => None,
        }
    }
}

impl<'vm, T: Marshalled<'vm>, E: Marshalled<'vm>> Marshalled<'vm> for Result<T, E> {
    proof fn law_read_back(self, vm: &Thread, heap: Heap) {
        match self {
            Ok(ok) => {
                ok.law_read_back(vm, heap);
            },
            Err(err) => {
                err.law_read_back(vm, heap);
            },
        }
    }
}

/// The items from the last to the first.
pub(crate) fn reversed<T>(items: Vec<T>) -> (turned: Vec<T>)
    ensures
        turned@ == items@.reverse(),
{
    let ghost all = items@;
    let mut items = items;
    let mut turned: Vec<T> = Vec::new();
    while items.len() > 0
        invariant
            items@.len() + turned@.len() == all.len(),
            items@ == all.take(items@.len() as int),
            forall|k: int| 0 <= k < turned@.len() ==> turned@[k] == all[all.len() - 1 - k],
        decreases items.len(),
    {
        let item = items.pop().unwrap();
        turned.push(item);
        assert(items@ =~= all.take(items@.len() as int));
    }
    assert(turned@ =~= all.reverse());
    turned
}

/// Several values of one type, pushed one after the other.
pub open spec fn all_joined<'vm, T: Pushable<'vm>>(items: Seq<T>, vm: &Thread, heap: Heap) -> Parts
    decreases items.len(),
{
    if items.len() == 0 {
        no_parts(heap)
    } else {
        joined(all_joined(items.drop_last(), vm, heap), vm, items.last())
    }
}

/// What failed once stays failed.
proof fn lemma_failed_early<'vm, T: Pushable<'vm>>(items: Seq<T>, n: int, vm: &Thread, heap: Heap)
    requires
        0 <= n <= items.len(),
        all_joined(items.take(n), vm, heap).1 is Err,
    ensures
        all_joined(items, vm, heap) == all_joined(items.take(n), vm, heap),
    decreases items.len(),
{
    if n < items.len() {
        assert(items.drop_last().take(n) =~= items.take(n));
        lemma_failed_early(items.drop_last(), n, vm, heap);
    } else {
        assert(items.take(n) =~= items);
    }
}

/// Pushing several values takes memory within the limit.
proof fn lemma_joined_memory<'vm, T: Pushable<'vm>>(items: Seq<T>, vm: &Thread, heap: Heap)
    ensures
        heap.grows_to(all_joined(items, vm, heap).0),
    decreases items.len(),
{
    if items.len() > 0 {
        lemma_joined_memory(items.drop_last(), vm, heap);
        let parts = all_joined(items.drop_last(), vm, heap);
        items.last().law_memory_is_bounded(vm, parts.0);
    }
}

impl<T: VmType> VmType for Vec<T> {
    open spec fn typable(vm: &Thread) -> bool {
        T::typable(vm)
    }

    open spec fn typ(vm: &Thread) -> Term<Op> {
        type_cache::array_type(T::typ(vm))
    }

    open spec fn extra() -> u8 {
        0
    }

    fn make_type(vm: &Thread) -> (typ: Type) {
        Type::array(T::make_type(vm))
    }

    fn extra_args() -> (count: VmIndex) {
        0
    }
}

impl<'vm, T: Pushable<'vm>> Pushable<'vm> for Vec<T> {
    open spec fn pushed(self, vm: &Thread, heap: Heap) -> (Heap, Result<Val, Failure>) {
        let parts = all_joined(self@, vm, heap);
        match parts.1 {
            Ok(values) => machine::array_placed(parts.0, values),
            Err(failure) => (parts.0, Err(failure)),
        }
    }

    proof fn law_memory_is_bounded(self, vm: &Thread, heap: Heap) {
        lemma_joined_memory(self@, vm, heap);
    }

    fn push(self, vm: &'vm Thread, context: &mut Context) -> (result: Result<(), Error>) {
        let base: usize = context.stack.len();
        let ghost before = context@;
        let ghost items = self@;
        let mut rest = reversed(self);
        assert(items.skip(0) =~= items);
        assert(context@.stack =~= before.stack + Seq::<Val>::empty());
        assert(items.take(0) =~= Seq::empty());
        let ghost mut n: int = 0;
        while rest.len() > 0
            invariant
                0 <= n <= items.len(),
                rest@ == items.skip(n).reverse(),
                base == before.stack.len(),
                all_joined(items.take(n), vm, before.heap).1 is Ok,
                context@ == holding(before, all_joined(items.take(n), vm, before.heap)),
                before == old(context)@,
                items == self@,
            decreases rest.len(),
        {
            let ghost parts = all_joined(items.take(n), vm, before.heap);
            let item = rest.pop().unwrap();
            proof {
                assert(item == items[n]);
                assert(rest@ =~= items.skip(n + 1).reverse());
                assert(items.take(n + 1).drop_last() =~= items.take(n));
                assert(items.take(n + 1).last() == items[n]);
                n = n + 1;
            }
            match push_part(item, vm, context, base, Ghost(before), Ghost(parts)) {
                Ok(_) => {},
                Err(error) => {
                    proof {
                        lemma_failed_early(items, n, vm, before.heap);
                    }
                    return Err(error);
                },
            }
        }
        assert(items.take(n) =~= items);
        let ghost values = all_joined(items, vm, before.heap).1->Ok_0;
        assert(context@.stack.len() == before.stack.len() + values.len());
        let count: usize = context.stack.len() - base;
        let elements = context.pop_values(count);
        assert(context@.stack =~= before.stack);
        assert(value::models_of(elements@) =~= values);
        match context.alloc_array(elements) {
            Ok(value) => {
                context.push_value(value);
                Ok(())
            },
            Err(error) => Err(error),
        }
    }
}

/// The elements of an array that was pushed are read back as they were, each at its place.
pub proof fn law_elements_are_read_back<'vm, T: Marshalled<'vm>>(
    items: Seq<T>,
    vm: &Thread,
    heap: Heap,
)
    ensures
        all_joined(items, vm, heap).1 matches Ok(values) ==> values.len() == items.len() && forall|
            i: int,
        |
            0 <= i < items.len() ==> T::gettable(#[trigger] values[i]) && T::got(values[i]) == Some(
                items[i].image(),
            ),
    decreases items.len(),
{
    if items.len() > 0 {
        law_elements_are_read_back(items.drop_last(), vm, heap);
        let parts = all_joined(items.drop_last(), vm, heap);
        if parts.1 is Ok {
            items.last().law_read_back(vm, parts.0);
        }
    }
}

impl<
    A: VmType,
    B: VmType,
    C: VmType,
    D: VmType,
    E: VmType,
    F: VmType,
    G: VmType,
> VmType for (A, B, C, D, E, F, G) {
    open spec fn typable(vm: &Thread) -> bool {
        &&& A::typable(vm)
        &&& B::typable(vm)
        &&& C::typable(vm)
        &&& D::typable(vm)
        &&& E::typable(vm)
        &&& F::typable(vm)
        &&& G::typable(vm)
    }

    open spec fn typ(vm: &Thread) -> Term<Op> {
        type_cache::record_type(
            seq!["_0"@, "_1"@, "_2"@, "_3"@, "_4"@, "_5"@, "_6"@],
            seq![
                A::typ(vm),
                B::typ(vm),
                C::typ(vm),
                D::typ(vm),
                E::typ(vm),
                F::typ(vm),
                G::typ(vm),
            ],
        )
    }

    open spec fn extra() -> u8 {
        0
    }

    fn make_type(vm: &Thread) -> (typ: Type) {
        let mut fields: Vec<TypeField> = Vec::new();
        fields.push(TypeField { name: "_0".to_owned(), typ: A::make_type(vm) });
        fields.push(TypeField { name: "_1".to_owned(), typ: B::make_type(vm) });
        fields.push(TypeField { name: "_2".to_owned(), typ: C::make_type(vm) });
        fields.push(TypeField { name: "_3".to_owned(), typ: D::make_type(vm) });
        fields.push(TypeField { name: "_4".to_owned(), typ: E::make_type(vm) });
        fields.push(TypeField { name: "_5".to_owned(), typ: F::make_type(vm) });
        fields.push(TypeField { name: "_6".to_owned(), typ: G::make_type(vm) });
        proof {
            assert(type_cache::field_names(fields@) =~= seq![
                "_0"@,
                "_1"@,
                "_2"@,
                "_3"@,
                "_4"@,
                "_5"@,
                "_6"@,
            ]);
            assert(type_cache::field_types(fields@) =~= seq![
                A::typ(vm),
                B::typ(vm),
                C::typ(vm),
                D::typ(vm),
                E::typ(vm),
                F::typ(vm),
                G::typ(vm),
            ]);
        }
        Type::record(fields)
    }

    fn extra_args() -> (count: VmIndex) {
        0
    }
}

impl<
    'vm,
    A: Pushable<'vm>,
    B: Pushable<'vm>,
    C: Pushable<'vm>,
    D: Pushable<'vm>,
    E: Pushable<'vm>,
    F: Pushable<'vm>,
    G: Pushable<'vm>,
> Pushable<'vm> for (A, B, C, D, E, F, G) {
    open spec fn pushed(self, vm: &Thread, heap: Heap) -> (Heap, Result<Val, Failure>) {
        let parts = no_parts(heap);
        let parts = joined(parts, vm, self.0);
        let parts = joined(parts, vm, self.1);
        let parts = joined(parts, vm, self.2);
        let parts = joined(parts, vm, self.3);
        let parts = joined(parts, vm, self.4);
        let parts = joined(parts, vm, self.5);
        let parts = joined(parts, vm, self.6);
        packed(parts, 0)
    }

    proof fn law_memory_is_bounded(self, vm: &Thread, heap: Heap) {
        let parts = no_parts(heap);
        self.0.law_memory_is_bounded(vm, parts.0);
        let parts = joined(parts, vm, self.0);
        self.1.law_memory_is_bounded(vm, parts.0);
        let parts = joined(parts, vm, self.1);
        self.2.law_memory_is_bounded(vm, parts.0);
        let parts = joined(parts, vm, self.2);
        self.3.law_memory_is_bounded(vm, parts.0);
        let parts = joined(parts, vm, self.3);
        self.4.law_memory_is_bounded(vm, parts.0);
        let parts = joined(parts, vm, self.4);
        self.5.law_memory_is_bounded(vm, parts.0);
        let parts = joined(parts, vm, self.5);
        self.6.law_memory_is_bounded(vm, parts.0);
    }

    fn push(self, vm: &'vm Thread, context: &mut Context) -> (result: Result<(), Error>) {
        let base: usize = context.stack.len();
        let ghost before = context@;
        let ghost mut parts = no_parts(before.heap);
        assert(context@.stack =~= before.stack + Seq::<Val>::empty());
        match push_part(self.0, vm, context, base, Ghost(before), Ghost(parts)) {
            Ok(_) => {},
            Err(error) => {
                return Err(error);
            },
        }
        proof {
            parts = joined(parts, vm, self.0);
        }
        match push_part(self.1, vm, context, base, Ghost(before), Ghost(parts)) {
            Ok(_) => {},
            Err(error) => {
                return Err(error);
            },
        }
        proof {
            parts = joined(parts, vm, self.1);
        }
        match push_part(self.2, vm, context, base, Ghost(before), Ghost(parts)) {
            Ok(_) => {},
            Err(error) => {
                return Err(error);
            },
        }
        proof {
            parts = joined(parts, vm, self.2);
        }
        match push_part(self.3, vm, context, base, Ghost(before), Ghost(parts)) {
            Ok(_) => {},
            Err(error) => {
                return Err(error);
            },
        }
        proof {
            parts = joined(parts, vm, self.3);
        }
        match push_part(self.4, vm, context, base, Ghost(before), Ghost(parts)) {
            Ok(_) => {},
            Err(error) => {
                return Err(error);
            },
        }
        proof {
            parts = joined(parts, vm, self.4);
        }
        match push_part(self.5, vm, context, base, Ghost(before), Ghost(parts)) {
            Ok(_) => {},
            Err(error) => {
                return Err(error);
            },
        }
        proof {
            parts = joined(parts, vm, self.5);
        }
        match push_part(self.6, vm, context, base, Ghost(before), Ghost(parts)) {
            Ok(_) => {},
            Err(error) => {
                return Err(error);
            },
        }
        proof {
            parts = joined(parts, vm, self.6);
        }
        pack_parts(context, base, 0, Ghost(before), Ghost(parts))
    }
}

impl<
    'vm,
    A: Getable<'vm>,
    B: Getable<'vm>,
    C: Getable<'vm>,
    D: Getable<'vm>,
    E: Getable<'vm>,
    F: Getable<'vm>,
    G: Getable<'vm>,
> Getable<'vm> for (A, B, C, D, E, F, G) {
    type Image = (A::Image, B::Image, C::Image, D::Image, E::Image, F::Image, G::Image);

    open spec fn image(self) -> (
        A::Image,
        B::Image,
        C::Image,
        D::Image,
        E::Image,
        F::Image,
        G::Image,
    ) {
        (
            self.0.image(),
            self.1.image(),
            self.2.image(),
            self.3.image(),
            self.4.image(),
            self.5.image(),
            self.6.image(),
        )
    }

    open spec fn of_thread(self, vm: &Thread) -> bool {
        &&& self.0.of_thread(vm)
        &&& self.1.of_thread(vm)
        &&& self.2.of_thread(vm)
        &&& self.3.of_thread(vm)
        &&& self.4.of_thread(vm)
        &&& self.5.of_thread(vm)
        &&& self.6.of_thread(vm)
    }

    open spec fn gettable(value: Val) -> bool {
        match value_ref::shown(value) {
            value_ref::Shown::Data(data) => {
                let fields = value_ref::fields_of(data);
                &&& fields.len() == 7
                &&& A::gettable(fields[0])
                &&& B::gettable(fields[1])
                &&& C::gettable(fields[2])
                &&& D::gettable(fields[3])
                &&& E::gettable(fields[4])
                &&& F::gettable(fields[5])
                &&& G::gettable(fields[6])
            },
            _ => true,
        }
    }

    open spec fn got(value: Val) -> Option<(
        A::Image,
        B::Image,
        C::Image,
        D::Image,
        E::Image,
        F::Image,
        G::Image,
    )> {
        match value_ref::shown(value) {
            value_ref::Shown::Data(data) => {
                let fields = value_ref::fields_of(data);
                match (
                    A::got(fields[0]),
                    B::got(fields[1]),
                    C::got(fields[2]),
                    D::got(fields[3]),
                    E::got(fields[4]),
                    F::got(fields[5]),
                    G::got(fields[6]),
                ) {
                    (
                        Some(a),
                        Some(b),
                        Some(c),
                        Some(d),
                        Some(e),
                        Some(f),
                        Some(g),
                    ) => Some((a, b, c, d, e, f, g)),
                    _ => None,
                }
            },
            _ => None,
        }
    }

    open spec fn got_rooted(value: Val) -> Option<(
        A::Image,
        B::Image,
        C::Image,
        D::Image,
        E::Image,
        F::Image,
        G::Image,
    )> {
        Self::got(value)
    }

    fn from_value_unsafe(
        vm: &'vm Thread,
        value: Variants<'vm>,
    ) -> (found: Option<(A, B, C, D, E, F, G)>) {
        Self::from_value(vm, value)
    }

    fn from_value(vm: &'vm Thread, value: Variants<'vm>) -> (found: Option<(A, B, C, D, E, F, G)>) {
        match value.as_ref() {
            ValueRef::Data(data) => {
                let a = A::from_value(vm, data.get_variants(0).unwrap());
                let b = B::from_value(vm, data.get_variants(1).unwrap());
                let c = C::from_value(vm, data.get_variants(2).unwrap());
                let d = D::from_value(vm, data.get_variants(3).unwrap());
                let e = E::from_value(vm, data.get_variants(4).unwrap());
                let f = F::from_value(vm, data.get_variants(5).unwrap());
                let g = G::from_value(vm, data.get_variants(6).unwrap());
                match (a, b, c, d, e, f, g) {
                    (
                        Some(a),
                        Some(b),
                        Some(c),
                        Some(d),
                        Some(e),
                        Some(f),
                        Some(g),
                    ) => Some((a, b, c, d, e, f, g)),
                    _ => None,
                }
            },
            _ => None,
        }
    }
}

impl<
    'vm,
    A: Marshalled<'vm>,
    B: Marshalled<'vm>,
    C: Marshalled<'vm>,
    D: Marshalled<'vm>,
    E: Marshalled<'vm>,
    F: Marshalled<'vm>,
    G: Marshalled<'vm>,
> Marshalled<'vm> for (A, B, C, D, E, F, G) {
    proof fn law_read_back(self, vm: &Thread, heap: Heap) {
        let parts = no_parts(heap);
        self.0.law_read_back(vm, parts.0);
        let parts = joined(parts, vm, self.0);
        self.1.law_read_back(vm, parts.0);
        let parts = joined(parts, vm, self.1);
        self.2.law_read_back(vm, parts.0);
        let parts = joined(parts, vm, self.2);
        self.3.law_read_back(vm, parts.0);
        let parts = joined(parts, vm, self.3);
        self.4.law_read_back(vm, parts.0);
        let parts = joined(parts, vm, self.4);
        self.5.law_read_back(vm, parts.0);
        let parts = joined(parts, vm, self.5);
        self.6.law_read_back(vm, parts.0);
    }
}

impl<
    A: VmType,
    B: VmType,
    C: VmType,
    D: VmType,
    E: VmType,
    F: VmType,
> VmType for (A, B, C, D, E, F) {
    open spec fn typable(vm: &Thread) -> bool {
        &&& A::typable(vm)
        &&& B::typable(vm)
        &&& C::typable(vm)
        &&& D::typable(vm)
        &&& E::typable(vm)
        &&& F::typable(vm)
    }

    open spec fn typ(vm: &Thread) -> Term<Op> {
        type_cache::record_type(
            seq!["_1"@, "_2"@, "_3"@, "_4"@, "_5"@, "_6"@],
            seq![A::typ(vm), B::typ(vm), C::typ(vm), D::typ(vm), E::typ(vm), F::typ(vm)],
        )
    }

    open spec fn extra() -> u8 {
        0
    }

    fn make_type(vm: &Thread) -> (typ: Type) {
        let mut fields: Vec<TypeField> = Vec::new();
        fields.push(TypeField { name: "_1".to_owned(), typ: A::make_type(vm) });
        fields.push(TypeField { name: "_2".to_owned(), typ: B::make_type(vm) });
        fields.push(TypeField { name: "_3".to_owned(), typ: C::make_type(vm) });
        fields.push(TypeField { name: "_4".to_owned(), typ: D::make_type(vm) });
        fields.push(TypeField { name: "_5".to_owned(), typ: E::make_type(vm) });
        fields.push(TypeField { name: "_6".to_owned(), typ: F::make_type(vm) });
        proof {
            assert(type_cache::field_names(fields@) =~= seq![
                "_1"@,
                "_2"@,
                "_3"@,
                "_4"@,
                "_5"@,
                "_6"@,
            ]);
            assert(type_cache::field_types(fields@) =~= seq![
                A::typ(vm),
                B::typ(vm),
                C::typ(vm),
                D::typ(vm),
                E::typ(vm),
                F::typ(vm),
            ]);
        }
        Type::record(fields)
    }

    fn extra_args() -> (count: VmIndex) {
        0
    }
}

impl<
    'vm,
    A: Pushable<'vm>,
    B: Pushable<'vm>,
    C: Pushable<'vm>,
    D: Pushable<'vm>,
    E: Pushable<'vm>,
    F: Pushable<'vm>,
> Pushable<'vm> for (A, B, C, D, E, F) {
    open spec fn pushed(self, vm: &Thread, heap: Heap) -> (Heap, Result<Val, Failure>) {
        let parts = no_parts(heap);
        let parts = joined(parts, vm, self.0);
        let parts = joined(parts, vm, self.1);
        let parts = joined(parts, vm, self.2);
        let parts = joined(parts, vm, self.3);
        let parts = joined(parts, vm, self.4);
        let parts = joined(parts, vm, self.5);
        packed(parts, 0)
    }

    proof fn law_memory_is_bounded(self, vm: &Thread, heap: Heap) {
        let parts = no_parts(heap);
        self.0.law_memory_is_bounded(vm, parts.0);
        let parts = joined(parts, vm, self.0);
        self.1.law_memory_is_bounded(vm, parts.0);
        let parts = joined(parts, vm, self.1);
        self.2.law_memory_is_bounded(vm, parts.0);
        let parts = joined(parts, vm, self.2);
        self.3.law_memory_is_bounded(vm, parts.0);
        let parts = joined(parts, vm, self.3);
        self.4.law_memory_is_bounded(vm, parts.0);
        let parts = joined(parts, vm, self.4);
        self.5.law_memory_is_bounded(vm, parts.0);
    }

    fn push(self, vm: &'vm Thread, context: &mut Context) -> (result: Result<(), Error>) {
        let base: usize = context.stack.len();
        let ghost before = context@;
        let ghost mut parts = no_parts(before.heap);
        assert(context@.stack =~= before.stack + Seq::<Val>::empty());
        match push_part(self.0, vm, context, base, Ghost(before), Ghost(parts)) {
            Ok(_) => {},
            Err(error) => {
                return Err(error);
            },
        }
        proof {
            parts = joined(parts, vm, self.0);
        }
        match push_part(self.1, vm, context, base, Ghost(before), Ghost(parts)) {
            Ok(_) => {},
            Err(error) => {
                return Err(error);
            },
        }
        proof {
            parts = joined(parts, vm, self.1);
        }
        match push_part(self.2, vm, context, base, Ghost(before), Ghost(parts)) {
            Ok(_) => {},
            Err(error) => {
                return Err(error);
            },
        }
        proof {
            parts = joined(parts, vm, self.2);
        }
        match push_part(self.3, vm, context, base, Ghost(before), Ghost(parts)) {
            Ok(_) => {},
            Err(error) => {
                return Err(error);
            },
        }
        proof {
            parts = joined(parts, vm, self.3);
        }
        match push_part(self.4, vm, context, base, Ghost(before), Ghost(parts)) {
            Ok(_) => {},
            Err(error) => {
                return Err(error);
            },
        }
        proof {
            parts = joined(parts, vm, self.4);
        }
        match push_part(self.5, vm, context, base, Ghost(before), Ghost(parts)) {
            Ok(_) => {},
            Err(error) => {
                return Err(error);
            },
        }
        proof {
            parts = joined(parts, vm, self.5);
        }
        pack_parts(context, base, 0, Ghost(before), Ghost(parts))
    }
}

impl<
    'vm,
    A: Getable<'vm>,
    B: Getable<'vm>,
    C: Getable<'vm>,
    D: Getable<'vm>,
    E: Getable<'vm>,
    F: Getable<'vm>,
> Getable<'vm> for (A, B, C, D, E, F) {
    type Image = (A::Image, B::Image, C::Image, D::Image, E::Image, F::Image);

    open spec fn image(self) -> (A::Image, B::Image, C::Image, D::Image, E::Image, F::Image) {
        (
            self.0.image(),
            self.1.image(),
            self.2.image(),
            self.3.image(),
            self.4.image(),
            self.5.image(),
        )
    }

    open spec fn of_thread(self, vm: &Thread) -> bool {
        &&& self.0.of_thread(vm)
        &&& self.1.of_thread(vm)
        &&& self.2.of_thread(vm)
        &&& self.3.of_thread(vm)
        &&& self.4.of_thread(vm)
        &&& self.5.of_thread(vm)
    }

    open spec fn gettable(value: Val) -> bool {
        match value_ref::shown(value) {
            value_ref::Shown::Data(data) => {
                let fields = value_ref::fields_of(data);
                &&& fields.len() == 6
                &&& A::gettable(fields[0])
                &&& B::gettable(fields[1])
                &&& C::gettable(fields[2])
                &&& D::gettable(fields[3])
                &&& E::gettable(fields[4])
                &&& F::gettable(fields[5])
            },
            _ => true,
        }
    }

    open spec fn got(value: Val) -> Option<(
        A::Image,
        B::Image,
        C::Image,
        D::Image,
        E::Image,
        F::Image,
    )> {
        match value_ref::shown(value) {
            value_ref::Shown::Data(data) => {
                let fields = value_ref::fields_of(data);
                match (
                    A::got(fields[0]),
                    B::got(fields[1]),
                    C::got(fields[2]),
                    D::got(fields[3]),
                    E::got(fields[4]),
                    F::got(fields[5]),
                ) {
                    (
                        Some(a),
                        Some(b),
                        Some(c),
                        Some(d),
                        Some(e),
                        Some(f),
                    ) => Some((a, b, c, d, e, f)),
                    _ => None,
                }
            },
            _ => None,
        }
    }

    open spec fn got_rooted(value: Val) -> Option<(
        A::Image,
        B::Image,
        C::Image,
        D::Image,
        E::Image,
        F::Image,
    )> {
        Self::got(value)
    }

    fn from_value_unsafe(
        vm: &'vm Thread,
        value: Variants<'vm>,
    ) -> (found: Option<(A, B, C, D, E, F)>) {
        Self::from_value(vm, value)
    }

    fn from_value(vm: &'vm Thread, value: Variants<'vm>) -> (found: Option<(A, B, C, D, E, F)>) {
        match value.as_ref() {
            ValueRef::Data(data) => {
                let a = A::from_value(vm, data.get_variants(0).unwrap());
                let b = B::from_value(vm, data.get_variants(1).unwrap());
                let c = C::from_value(vm, data.get_variants(2).unwrap());
                let d = D::from_value(vm, data.get_variants(3).unwrap());
                let e = E::from_value(vm, data.get_variants(4).unwrap());
                let f = F::from_value(vm, data.get_variants(5).unwrap());
                match (a, b, c, d, e, f) {
                    (
                        Some(a),
                        Some(b),
                        Some(c),
                        Some(d),
                        Some(e),
                        Some(f),
                    ) => Some((a, b, c, d, e, f)),
                    _ => None,
                }
            },
            _ => None,
        }
    }
}

impl<
    'vm,
    A: Marshalled<'vm>,
    B: Marshalled<'vm>,
    C: Marshalled<'vm>,
    D: Marshalled<'vm>,
    E: Marshalled<'vm>,
    F: Marshalled<'vm>,
> Marshalled<'vm> for (A, B, C, D, E, F) {
    proof fn law_read_back(self, vm: &Thread, heap: Heap) {
        let parts = no_parts(heap);
        self.0.law_read_back(vm, parts.0);
        let parts = joined(parts, vm, self.0);
        self.1.law_read_back(vm, parts.0);
        let parts = joined(parts, vm, self.1);
        self.2.law_read_back(vm, parts.0);
        let parts = joined(parts, vm, self.2);
        self.3.law_read_back(vm, parts.0);
        let parts = joined(parts, vm, self.3);
        self.4.law_read_back(vm, parts.0);
        let parts = joined(parts, vm, self.4);
        self.5.law_read_back(vm, parts.0);
    }
}

impl<A: VmType, B: VmType, C: VmType, D: VmType, E: VmType> VmType for (A, B, C, D, E) {
    open spec fn typable(vm: &Thread) -> bool {
        &&& A::typable(vm)
        &&& B::typable(vm)
        &&& C::typable(vm)
        &&& D::typable(vm)
        &&& E::typable(vm)
    }

    open spec fn typ(vm: &Thread) -> Term<Op> {
        type_cache::record_type(
            seq!["_2"@, "_3"@, "_4"@, "_5"@, "_6"@],
            seq![A::typ(vm), B::typ(vm), C::typ(vm), D::typ(vm), E::typ(vm)],
        )
    }

    open spec fn extra() -> u8 {
        0
    }

    fn make_type(vm: &Thread) -> (typ: Type) {
        let mut fields: Vec<TypeField> = Vec::new();
        fields.push(TypeField { name: "_2".to_owned(), typ: A::make_type(vm) });
        fields.push(TypeField { name: "_3".to_owned(), typ: B::make_type(vm) });
        fields.push(TypeField { name: "_4".to_owned(), typ: C::make_type(vm) });
        fields.push(TypeField { name: "_5".to_owned(), typ: D::make_type(vm) });
        fields.push(TypeField { name: "_6".to_owned(), typ: E::make_type(vm) });
        proof {
            assert(type_cache::field_names(fields@) =~= seq!["_2"@, "_3"@, "_4"@, "_5"@, "_6"@]);
            assert(type_cache::field_types(fields@) =~= seq![
                A::typ(vm),
                B::typ(vm),
                C::typ(vm),
                D::typ(vm),
                E::typ(vm),
            ]);
        }
        Type::record(fields)
    }

    fn extra_args() -> (count: VmIndex) {
        0
    }
}

impl<
    'vm,
    A: Pushable<'vm>,
    B: Pushable<'vm>,
    C: Pushable<'vm>,
    D: Pushable<'vm>,
    E: Pushable<'vm>,
> Pushable<'vm> for (A, B, C, D, E) {
    open spec fn pushed(self, vm: &Thread, heap: Heap) -> (Heap, Result<Val, Failure>) {
        let parts = no_parts(heap);
        let parts = joined(parts, vm, self.0);
        let parts = joined(parts, vm, self.1);
        let parts = joined(parts, vm, self.2);
        let parts = joined(parts, vm, self.3);
        let parts = joined(parts, vm, self.4);
        packed(parts, 0)
    }

    proof fn law_memory_is_bounded(self, vm: &Thread, heap: Heap) {
        let parts = no_parts(heap);
        self.0.law_memory_is_bounded(vm, parts.0);
        let parts = joined(parts, vm, self.0);
        self.1.law_memory_is_bounded(vm, parts.0);
        let parts = joined(parts, vm, self.1);
        self.2.law_memory_is_bounded(vm, parts.0);
        let parts = joined(parts, vm, self.2);
        self.3.law_memory_is_bounded(vm, parts.0);
        let parts = joined(parts, vm, self.3);
        self.4.law_memory_is_bounded(vm, parts.0);
    }

    fn push(self, vm: &'vm Thread, context: &mut Context) -> (result: Result<(), Error>) {
        let base: usize = context.stack.len();
        let ghost before = context@;
        let ghost mut parts = no_parts(before.heap);
        assert(context@.stack =~= before.stack + Seq::<Val>::empty());
        match push_part(self.0, vm, context, base, Ghost(before), Ghost(parts)) {
            Ok(_) => {},
            Err(error) => {
                return Err(error);
            },
        }
        proof {
            parts = joined(parts, vm, self.0);
        }
        match push_part(self.1, vm, context, base, Ghost(before), Ghost(parts)) {
            Ok(_) => {},
            Err(error) => {
                return Err(error);
            },
        }
        proof {
            parts = joined(parts, vm, self.1);
        }
        match push_part(self.2, vm, context, base, Ghost(before), Ghost(parts)) {
            Ok(_) => {},
            Err(error) => {
                return Err(error);
            },
        }
        proof {
            parts = joined(parts, vm, self.2);
        }
        match push_part(self.3, vm, context, base, Ghost(before), Ghost(parts)) {
            Ok(_) => {},
            Err(error) => {
                return Err(error);
            },
        }
        proof {
            parts = joined(parts, vm, self.3);
        }
        match push_part(self.4, vm, context, base, Ghost(before), Ghost(parts)) {
            Ok(_) => {},
            Err(error) => {
                return Err(error);
            },
        }
        proof {
            parts = joined(parts, vm, self.4);
        }
        pack_parts(context, base, 0, Ghost(before), Ghost(parts))
    }
}

impl<
    'vm,
    A: Getable<'vm>,
    B: Getable<'vm>,
    C: Getable<'vm>,
    D: Getable<'vm>,
    E: Getable<'vm>,
> Getable<'vm> for (A, B, C, D, E) {
    type Image = (A::Image, B::Image, C::Image, D::Image, E::Image);

    open spec fn image(self) -> (A::Image, B::Image, C::Image, D::Image, E::Image) {
        (self.0.image(), self.1.image(), self.2.image(), self.3.image(), self.4.image())
    }

    open spec fn of_thread(self, vm: &Thread) -> bool {
        &&& self.0.of_thread(vm)
        &&& self.1.of_thread(vm)
        &&& self.2.of_thread(vm)
        &&& self.3.of_thread(vm)
        &&& self.4.of_thread(vm)
    }

    open spec fn gettable(value: Val) -> bool {
        match value_ref::shown(value) {
            value_ref::Shown::Data(data) => {
                let fields = value_ref::fields_of(data);
                &&& fields.len() == 5
                &&& A::gettable(fields[0])
                &&& B::gettable(fields[1])
                &&& C::gettable(fields[2])
                &&& D::gettable(fields[3])
                &&& E::gettable(fields[4])
            },
            _ => true,
        }
    }

    open spec fn got(value: Val) -> Option<(A::Image, B::Image, C::Image, D::Image, E::Image)> {
        match value_ref::shown(value) {
            value_ref::Shown::Data(data) => {
                let fields = value_ref::fields_of(data);
                match (
                    A::got(fields[0]),
                    B::got(fields[1]),
                    C::got(fields[2]),
                    D::got(fields[3]),
                    E::got(fields[4]),
                ) {
                    (Some(a), Some(b), Some(c), Some(d), Some(e)) => Some((a, b, c, d, e)),
                    _ => None,
                }
            },
            _ => None,
        }
    }

    open spec fn got_rooted(value: Val) -> Option<(
        A::Image,
        B::Image,
        C::Image,
        D::Image,
        E::Image,
    )> {
        Self::got(value)
    }

    fn from_value_unsafe(
        vm: &'vm Thread,
        value: Variants<'vm>,
    ) -> (found: Option<(A, B, C, D, E)>) {
        Self::from_value(vm, value)
    }

    fn from_value(vm: &'vm Thread, value: Variants<'vm>) -> (found: Option<(A, B, C, D, E)>) {
        match value.as_ref() {
            ValueRef::Data(data) => {
                let a = A::from_value(vm, data.get_variants(0).unwrap());
                let b = B::from_value(vm, data.get_variants(1).unwrap());
                let c = C::from_value(vm, data.get_variants(2).unwrap());
                let d = D::from_value(vm, data.get_variants(3).unwrap());
                let e = E::from_value(vm, data.get_variants(4).unwrap());
                match (a, b, c, d, e) {
                    (Some(a), Some(b), Some(c), Some(d), Some(e)) => Some((a, b, c, d, e)),
                    _ => None,
                }
            },
            _ => None,
        }
    }
}

impl<
    'vm,
    A: Marshalled<'vm>,
    B: Marshalled<'vm>,
    C: Marshalled<'vm>,
    D: Marshalled<'vm>,
    E: Marshalled<'vm>,
> Marshalled<'vm> for (A, B, C, D, E) {
    proof fn law_read_back(self, vm: &Thread, heap: Heap) {
        let parts = no_parts(heap);
        self.0.law_read_back(vm, parts.0);
        let parts = joined(parts, vm, self.0);
        self.1.law_read_back(vm, parts.0);
        let parts = joined(parts, vm, self.1);
        self.2.law_read_back(vm, parts.0);
        let parts = joined(parts, vm, self.2);
        self.3.law_read_back(vm, parts.0);
        let parts = joined(parts, vm, self.3);
        self.4.law_read_back(vm, parts.0);
    }
}

impl<A: VmType, B: VmType, C: VmType, D: VmType> VmType for (A, B, C, D) {
    open spec fn typable(vm: &Thread) -> bool {
        &&& A::typable(vm)
        &&& B::typable(vm)
        &&& C::typable(vm)
        &&& D::typable(vm)
    }

    open spec fn typ(vm: &Thread) -> Term<Op> {
        type_cache::record_type(
            seq!["_3"@, "_4"@, "_5"@, "_6"@],
            seq![A::typ(vm), B::typ(vm), C::typ(vm), D::typ(vm)],
        )
    }

    open spec fn extra() -> u8 {
        0
    }

    fn make_type(vm: &Thread) -> (typ: Type) {
        let mut fields: Vec<TypeField> = Vec::new();
        fields.push(TypeField { name: "_3".to_owned(), typ: A::make_type(vm) });
        fields.push(TypeField { name: "_4".to_owned(), typ: B::make_type(vm) });
        fields.push(TypeField { name: "_5".to_owned(), typ: C::make_type(vm) });
        fields.push(TypeField { name: "_6".to_owned(), typ: D::make_type(vm) });
        proof {
            assert(type_cache::field_names(fields@) =~= seq!["_3"@, "_4"@, "_5"@, "_6"@]);
            assert(type_cache::field_types(fields@) =~= seq![
                A::typ(vm),
                B::typ(vm),
                C::typ(vm),
                D::typ(vm),
            ]);
        }
        Type::record(fields)
    }

    fn extra_args() -> (count: VmIndex) {
        0
    }
}

impl<
    'vm,
    A: Pushable<'vm>,
    B: Pushable<'vm>,
    C: Pushable<'vm>,
    D: Pushable<'vm>,
> Pushable<'vm> for (A, B, C, D) {
    open spec fn pushed(self, vm: &Thread, heap: Heap) -> (Heap, Result<Val, Failure>) {
        let parts = no_parts(heap);
        let parts = joined(parts, vm, self.0);
        let parts = joined(parts, vm, self.1);
        let parts = joined(parts, vm, self.2);
        let parts = joined(parts, vm, self.3);
        packed(parts, 0)
    }

    proof fn law_memory_is_bounded(self, vm: &Thread, heap: Heap) {
        let parts = no_parts(heap);
        self.0.law_memory_is_bounded(vm, parts.0);
        let parts = joined(parts, vm, self.0);
        self.1.law_memory_is_bounded(vm, parts.0);
        let parts = joined(parts, vm, self.1);
        self.2.law_memory_is_bounded(vm, parts.0);
        let parts = joined(parts, vm, self.2);
        self.3.law_memory_is_bounded(vm, parts.0);
    }

    fn push(self, vm: &'vm Thread, context: &mut Context) -> (result: Result<(), Error>) {
        let base: usize = context.stack.len();
        let ghost before = context@;
        let ghost mut parts = no_parts(before.heap);
        assert(context@.stack =~= before.stack + Seq::<Val>::empty());
        match push_part(self.0, vm, context, base, Ghost(before), Ghost(parts)) {
            Ok(_) => {},
            Err(error) => {
                return Err(error);
            },
        }
        proof {
            parts = joined(parts, vm, self.0);
        }
        match push_part(self.1, vm, context, base, Ghost(before), Ghost(parts)) {
            Ok(_) => {},
            Err(error) => {
                return Err(error);
            },
        }
        proof {
            parts = joined(parts, vm, self.1);
        }
        match push_part(self.2, vm, context, base, Ghost(before), Ghost(parts)) {
            Ok(_) => {},
            Err(error) => {
                return Err(error);
            },
        }
        proof {
            parts = joined(parts, vm, self.2);
        }
        match push_part(self.3, vm, context, base, Ghost(before), Ghost(parts)) {
            Ok(_) => {},
            Err(error) => {
                return Err(error);
            },
        }
        proof {
            parts = joined(parts, vm, self.3);
        }
        pack_parts(context, base, 0, Ghost(before), Ghost(parts))
    }
}

impl<
    'vm,
    A: Getable<'vm>,
    B: Getable<'vm>,
    C: Getable<'vm>,
    D: Getable<'vm>,
> Getable<'vm> for (A, B, C, D) {
    type Image = (A::Image, B::Image, C::Image, D::Image);

    open spec fn image(self) -> (A::Image, B::Image, C::Image, D::Image) {
        (self.0.image(), self.1.image(), self.2.image(), self.3.image())
    }

    open spec fn of_thread(self, vm: &Thread) -> bool {
        &&& self.0.of_thread(vm)
        &&& self.1.of_thread(vm)
        &&& self.2.of_thread(vm)
        &&& self.3.of_thread(vm)
    }

    open spec fn gettable(value: Val) -> bool {
        match value_ref::shown(value) {
            value_ref::Shown::Data(data) => {
                let fields = value_ref::fields_of(data);
                &&& fields.len() == 4
                &&& A::gettable(fields[0])
                &&& B::gettable(fields[1])
                &&& C::gettable(fields[2])
                &&& D::gettable(fields[3])
            },
            _ => true,
        }
    }

    open spec fn got(value: Val) -> Option<(A::Image, B::Image, C::Image, D::Image)> {
        match value_ref::shown(value) {
            value_ref::Shown::Data(data) => {
                let fields = value_ref::fields_of(data);
                match (A::got(fields[0]), B::got(fields[1]), C::got(fields[2]), D::got(fields[3])) {
                    (Some(a), Some(b), Some(c), Some(d)) => Some((a, b, c, d)),
                    _ => None,
                }
            },
            _ => None,
        }
    }

    open spec fn got_rooted(value: Val) -> Option<(A::Image, B::Image, C::Image, D::Image)> {
        Self::got(value)
    }

    fn from_value_unsafe(vm: &'vm Thread, value: Variants<'vm>) -> (found: Option<(A, B, C, D)>) {
        Self::from_value(vm, value)
    }

    fn from_value(vm: &'vm Thread, value: Variants<'vm>) -> (found: Option<(A, B, C, D)>) {
        match value.as_ref() {
            ValueRef::Data(data) => {
                let a = A::from_value(vm, data.get_variants(0).unwrap());
                let b = B::from_value(vm, data.get_variants(1).unwrap());
                let c = C::from_value(vm, data.get_variants(2).unwrap());
                let d = D::from_value(vm, data.get_variants(3).unwrap());
                match (a, b, c, d) {
                    (Some(a), Some(b), Some(c), Some(d)) => Some((a, b, c, d)),
                    _ => None,
                }
            },
            _ => None,
        }
    }
}

impl<
    'vm,
    A: Marshalled<'vm>,
    B: Marshalled<'vm>,
    C: Marshalled<'vm>,
    D: Marshalled<'vm>,
> Marshalled<'vm> for (A, B, C, D) {
    proof fn law_read_back(self, vm: &Thread, heap: Heap) {
        let parts = no_parts(heap);
        self.0.law_read_back(vm, parts.0);
        let parts = joined(parts, vm, self.0);
        self.1.law_read_back(vm, parts.0);
        let parts = joined(parts, vm, self.1);
        self.2.law_read_back(vm, parts.0);
        let parts = joined(parts, vm, self.2);
        self.3.law_read_back(vm, parts.0);
    }
}

impl<A: VmType, B: VmType, C: VmType> VmType for (A, B, C) {
    open spec fn typable(vm: &Thread) -> bool {
        &&& A::typable(vm)
        &&& B::typable(vm)
        &&& C::typable(vm)
    }

    open spec fn typ(vm: &Thread) -> Term<Op> {
        type_cache::record_type(
            seq!["_4"@, "_5"@, "_6"@],
            seq![A::typ(vm), B::typ(vm), C::typ(vm)],
        )
    }

    open spec fn extra() -> u8 {
        0
    }

    fn make_type(vm: &Thread) -> (typ: Type) {
        let mut fields: Vec<TypeField> = Vec::new();
        fields.push(TypeField { name: "_4".to_owned(), typ: A::make_type(vm) });
        fields.push(TypeField { name: "_5".to_owned(), typ: B::make_type(vm) });
        fields.push(TypeField { name: "_6".to_owned(), typ: C::make_type(vm) });
        proof {
            assert(type_cache::field_names(fields@) =~= seq!["_4"@, "_5"@, "_6"@]);
            assert(type_cache::field_types(fields@) =~= seq![A::typ(vm), B::typ(vm), C::typ(vm)]);
        }
        Type::record(fields)
    }

    fn extra_args() -> (count: VmIndex) {
        0
    }
}

impl<'vm, A: Pushable<'vm>, B: Pushable<'vm>, C: Pushable<'vm>> Pushable<'vm> for (A, B, C) {
    open spec fn pushed(self, vm: &Thread, heap: Heap) -> (Heap, Result<Val, Failure>) {
        let parts = no_parts(heap);
        let parts = joined(parts, vm, self.0);
        let parts = joined(parts, vm, self.1);
        let parts = joined(parts, vm, self.2);
        packed(parts, 0)
    }

    proof fn law_memory_is_bounded(self, vm: &Thread, heap: Heap) {
        let parts = no_parts(heap);
        self.0.law_memory_is_bounded(vm, parts.0);
        let parts = joined(parts, vm, self.0);
        self.1.law_memory_is_bounded(vm, parts.0);
        let parts = joined(parts, vm, self.1);
        self.2.law_memory_is_bounded(vm, parts.0);
    }

    fn push(self, vm: &'vm Thread, context: &mut Context) -> (result: Result<(), Error>) {
        let base: usize = context.stack.len();
        let ghost before = context@;
        let ghost mut parts = no_parts(before.heap);
        assert(context@.stack =~= before.stack + Seq::<Val>::empty());
        match push_part(self.0, vm, context, base, Ghost(before), Ghost(parts)) {
            Ok(_) => {},
            Err(error) => {
                return Err(error);
            },
        }
        proof {
            parts = joined(parts, vm, self.0);
        }
        match push_part(self.1, vm, context, base, Ghost(before), Ghost(parts)) {
            Ok(_) => {},
            Err(error) => {
                return Err(error);
            },
        }
        proof {
            parts = joined(parts, vm, self.1);
        }
        match push_part(self.2, vm, context, base, Ghost(before), Ghost(parts)) {
            Ok(_) => {},
            Err(error) => {
                return Err(error);
            },
        }
        proof {
            parts = joined(parts, vm, self.2);
        }
        pack_parts(context, base, 0, Ghost(before), Ghost(parts))
    }
}

impl<'vm, A: Getable<'vm>, B: Getable<'vm>, C: Getable<'vm>> Getable<'vm> for (A, B, C) {
    type Image = (A::Image, B::Image, C::Image);

    open spec fn image(self) -> (A::Image, B::Image, C::Image) {
        (self.0.image(), self.1.image(), self.2.image())
    }

    open spec fn of_thread(self, vm: &Thread) -> bool {
        &&& self.0.of_thread(vm)
        &&& self.1.of_thread(vm)
        &&& self.2.of_thread(vm)
    }

    open spec fn gettable(value: Val) -> bool {
        match value_ref::shown(value) {
            value_ref::Shown::Data(data) => {
                let fields = value_ref::fields_of(data);
                &&& fields.len() == 3
                &&& A::gettable(fields[0])
                &&& B::gettable(fields[1])
                &&& C::gettable(fields[2])
            },
            _ => true,
        }
    }

    open spec fn got(value: Val) -> Option<(A::Image, B::Image, C::Image)> {
        match value_ref::shown(value) {
            value_ref::Shown::Data(data) => {
                let fields = value_ref::fields_of(data);
                match (A::got(fields[0]), B::got(fields[1]), C::got(fields[2])) {
                    (Some(a), Some(b), Some(c)) => Some((a, b, c)),
                    _ => None,
                }
            },
            _ => None,
        }
    }

    open spec fn got_rooted(value: Val) -> Option<(A::Image, B::Image, C::Image)> {
        Self::got(value)
    }

    fn from_value_unsafe(vm: &'vm Thread, value: Variants<'vm>) -> (found: Option<(A, B, C)>) {
        Self::from_value(vm, value)
    }

    fn from_value(vm: &'vm Thread, value: Variants<'vm>) -> (found: Option<(A, B, C)>) {
        match value.as_ref() {
            ValueRef::Data(data) => {
                let a = A::from_value(vm, data.get_variants(0).unwrap());
                let b = B::from_value(vm, data.get_variants(1).unwrap());
                let c = C::from_value(vm, data.get_variants(2).unwrap());
                match (a, b, c) {
                    (Some(a), Some(b), Some(c)) => Some((a, b, c)),
                    _ => None,
                }
            },
            _ => None,
        }
    }
}

impl<
    'vm,
    A: Marshalled<'vm>,
    B: Marshalled<'vm>,
    C: Marshalled<'vm>,
> Marshalled<'vm> for (A, B, C) {
    proof fn law_read_back(self, vm: &Thread, heap: Heap) {
        let parts = no_parts(heap);
        self.0.law_read_back(vm, parts.0);
        let parts = joined(parts, vm, self.0);
        self.1.law_read_back(vm, parts.0);
        let parts = joined(parts, vm, self.1);
        self.2.law_read_back(vm, parts.0);
    }
}

impl<A: VmType, B: VmType> VmType for (A, B) {
    open spec fn typable(vm: &Thread) -> bool {
        &&& A::typable(vm)
        &&& B::typable(vm)
    }

    open spec fn typ(vm: &Thread) -> Term<Op> {
        type_cache::record_type(
            seq!["_5"@, "_6"@],
            seq![A::typ(vm), B::typ(vm)],
        )
    }

    open spec fn extra() -> u8 {
        0
    }

    fn make_type(vm: &Thread) -> (typ: Type) {
        let mut fields: Vec<TypeField> = Vec::new();
        fields.push(TypeField { name: "_5".to_owned(), typ: A::make_type(vm) });
        fields.push(TypeField { name: "_6".to_owned(), typ: B::make_type(vm) });
        proof {
            assert(type_cache::field_names(fields@) =~= seq!["_5"@, "_6"@]);
            assert(type_cache::field_types(fields@) =~= seq![A::typ(vm), B::typ(vm)]);
        }
        Type::record(fields)
    }

    fn extra_args() -> (count: VmIndex) {
        0
    }
}

impl<'vm, A: Pushable<'vm>, B: Pushable<'vm>> Pushable<'vm> for (A, B) {
    open spec fn pushed(self, vm: &Thread, heap: Heap) -> (Heap, Result<Val, Failure>) {
        let parts = no_parts(heap);
        let parts = joined(parts, vm, self.0);
        let parts = joined(parts, vm, self.1);
        packed(parts, 0)
    }

    proof fn law_memory_is_bounded(self, vm: &Thread, heap: Heap) {
        let parts = no_parts(heap);
        self.0.law_memory_is_bounded(vm, parts.0);
        let parts = joined(parts, vm, self.0);
        self.1.law_memory_is_bounded(vm, parts.0);
    }

    fn push(self, vm: &'vm Thread, context: &mut Context) -> (result: Result<(), Error>) {
        let base: usize = context.stack.len();
        let ghost before = context@;
        let ghost mut parts = no_parts(before.heap);
        assert(context@.stack =~= before.stack + Seq::<Val>::empty());
        match push_part(self.0, vm, context, base, Ghost(before), Ghost(parts)) {
            Ok(_) => {},
            Err(error) => {
                return Err(error);
            },
        }
        proof {
            parts = joined(parts, vm, self.0);
        }
        match push_part(self.1, vm, context, base, Ghost(before), Ghost(parts)) {
            Ok(_) => {},
            Err(error) => {
                return Err(error);
            },
        }
        proof {
            parts = joined(parts, vm, self.1);
        }
        pack_parts(context, base, 0, Ghost(before), Ghost(parts))
    }
}

impl<'vm, A: Getable<'vm>, B: Getable<'vm>> Getable<'vm> for (A, B) {
    type Image = (A::Image, B::Image);

    open spec fn image(self) -> (A::Image, B::Image) {
        (self.0.image(), self.1.image())
    }

    open spec fn of_thread(self, vm: &Thread) -> bool {
        &&& self.0.of_thread(vm)
        &&& self.1.of_thread(vm)
    }

    open spec fn gettable(value: Val) -> bool {
        match value_ref::shown(value) {
            value_ref::Shown::Data(data) => {
                let fields = value_ref::fields_of(data);
                &&& fields.len() == 2
                &&& A::gettable(fields[0])
                &&& B::gettable(fields[1])
            },
            _ => true,
        }
    }

    open spec fn got(value: Val) -> Option<(A::Image, B::Image)> {
        match value_ref::shown(value) {
            value_ref::Shown::Data(data) => {
                let fields = value_ref::fields_of(data);
                match (A::got(fields[0]), B::got(fields[1])) {
                    (Some(a), Some(b)) => Some((a, b)),
                    _ => None,
                }
            },
            _ => None,
        }
    }

    open spec fn got_rooted(value: Val) -> Option<(A::Image, B::Image)> {
        Self::got(value)
    }

    fn from_value_unsafe(vm: &'vm Thread, value: Variants<'vm>) -> (found: Option<(A, B)>) {
        Self::from_value(vm, value)
    }

    fn from_value(vm: &'vm Thread, value: Variants<'vm>) -> (found: Option<(A, B)>) {
        match value.as_ref() {
            ValueRef::Data(data) => {
                let a = A::from_value(vm, data.get_variants(0).unwrap());
                let b = B::from_value(vm, data.get_variants(1).unwrap());
                match (a, b) {
                    (Some(a), Some(b)) => Some((a, b)),
                    _ => None,
                }
            },
            _ => None,
        }
    }
}

impl<'vm, A: Marshalled<'vm>, B: Marshalled<'vm>> Marshalled<'vm> for (A, B) {
    proof fn law_read_back(self, vm: &Thread, heap: Heap) {
        let parts = no_parts(heap);
        self.0.law_read_back(vm, parts.0);
        let parts = joined(parts, vm, self.0);
        self.1.law_read_back(vm, parts.0);
    }
}

} // verus!
