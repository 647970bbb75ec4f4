//! Which types of the language stand for types of the host.
use vstd::prelude::*;
use crate::api::VmType;
use crate::channel::{ChannelRecord, Receiver, ReceiverField, Sender, SenderField};
use crate::function::{ArgumentTypes, Function, FunctionType, HostFunction, Signature};
use crate::generic;
use crate::opaque::{Array, Generic, OpaqueValue};
use crate::primitive::{Primitive, RefPrimitive};
use crate::record::{Field, FieldTypes, Record};
use crate::roles::{
    FutureHandle, FutureResult, Hole, PushAsRef, Root, RuntimeResult, Userdata, UserdataRef, WithVM,
    IO,
};
use crate::scalar::{Float, RootStr};
use crate::term::Term;
use crate::thread::{RootedThread, Thread, ThreadRef};
use crate::type_cache;
use crate::type_laws;
use crate::types::{BuiltinType, Op};
use crate::value_ref::ArrayRepr;
use frunk_core::hlist::{HCons, HNil};

verus! {

/// An operator without operands.
pub open spec fn alone(op: Op) -> Term<Op> {
    Term::Node(op, Seq::empty())
}

/// A record type with these fields, each with the type at the same position.
pub open spec fn record_of(names: Seq<Seq<char>>, typs: Seq<Term<Op>>) -> Term<Op> {
    Term::Node(
        Op::Record,
        seq![Term::Node(Op::ExtendRow(names), typs + seq![alone(Op::EmptyRow)])],
    )
}

/// All integers of the host are integers, whatever their size. The other plain types stand for what
/// the thread knows under their names.
pub proof fn law_plain_types(vm: &Thread, t: Term<Op>)
    ensures
        vm.known_type("VmInt"@) == Some(t) ==> {
            &&& <i16 as VmType>::typ(vm) == t
            &&& <i32 as VmType>::typ(vm) == t
            &&& <i64 as VmType>::typ(vm) == t
            &&& <u16 as VmType>::typ(vm) == t
            &&& <u32 as VmType>::typ(vm) == t
            &&& <u64 as VmType>::typ(vm) == t
            &&& <usize as VmType>::typ(vm) == t
            &&& <isize as VmType>::typ(vm) == t
        },
        vm.known_type("String"@) == Some(t) ==> {
            &&& <str as VmType>::typ(vm) == t
            &&& <String as VmType>::typ(vm) == t
            &&& <RootStr as VmType>::typ(vm) == t
        },
        vm.known_type("u8"@) == Some(t) ==> <u8 as VmType>::typ(vm) == t,
        vm.known_type("f64"@) == Some(t) ==> <Float as VmType>::typ(vm) == t,
        vm.known_type("char"@) == Some(t) ==> <char as VmType>::typ(vm) == t,
        vm.known_type("()"@) == Some(t) ==> <() as VmType>::typ(vm) == t,
        vm.known_type("Thread"@) == Some(t) ==> <Thread as VmType>::typ(vm) == t
            && <RootedThread as VmType>::typ(vm) == t,
        <Hole as VmType>::typ(vm) == alone(Op::Hole),
{
}

/// Truth values, options, results and actions have the types of the aliases of their names; a
/// result is applied to the type of its errors first.
pub proof fn law_alias_types<T: VmType, E: VmType>(vm: &Thread)
    ensures
        vm.type_info("std.types.Bool"@) matches Some(found) ==> <bool as VmType>::typ(vm) == alone(
            Op::Alias(found.model()),
        ),
        vm.type_info("std.types.Option"@) matches Some(found) ==> <Option<T> as VmType>::typ(vm)
            == Term::Node(Op::App, seq![alone(Op::Alias(found.model())), T::typ(vm)]),
        vm.type_info("std.types.Result"@) matches Some(found) ==> <Result<T, E> as VmType>::typ(vm)
            == Term::Node(
            Op::App,
            seq![alone(Op::Alias(found.model())), E::typ(vm), T::typ(vm)],
        ),
        vm.type_info("IO"@) matches Some(found) ==> <IO<T> as VmType>::typ(vm) == Term::Node(
            Op::App,
            seq![alone(Op::Alias(found.model())), T::typ(vm)],
        ),
{
    if let Some(found) = vm.type_info("std.types.Option"@) {
        let head = alone(Op::Alias(found.model()));
        assert(seq![head] + seq![T::typ(vm)] =~= seq![head, T::typ(vm)]);
    }
    if let Some(found) = vm.type_info("std.types.Result"@) {
        let head = alone(Op::Alias(found.model()));
        assert(seq![head] + seq![E::typ(vm), T::typ(vm)] =~= seq![head, E::typ(vm), T::typ(vm)]);
    }
    if let Some(found) = vm.type_info("IO"@) {
        let head = alone(Op::Alias(found.model()));
        assert(seq![head] + seq![T::typ(vm)] =~= seq![head, T::typ(vm)]);
    }
}

/// Vectors, slices and arrays are arrays of the type of their elements.
pub proof fn law_array_types<'a, T: VmType + ArrayRepr>(vm: &Thread)
    ensures
        ({
            let array = Term::Node(
                Op::App,
                seq![alone(Op::Builtin(BuiltinType::Array)), T::typ(vm)],
            );
            &&& <Vec<T> as VmType>::typ(vm) == array
            &&& <&'a [T] as VmType>::typ(vm) == array
            &&& <Array<'a, T> as VmType>::typ(vm) == array
        }),
{
}

/// What wraps a value of the host for some purpose has the type of that value.
pub proof fn law_wrapped_types<'a, T: VmType, E, F: VmType, U: ThreadRef>(vm: &Thread)
    ensures
        <&'a T as VmType>::typ(vm) == T::typ(vm),
        <WithVM<'a, T> as VmType>::typ(vm) == T::typ(vm),
        <FutureResult<FutureHandle<T>> as VmType>::typ(vm) == T::typ(vm),
        <RuntimeResult<T, E> as VmType>::typ(vm) == T::typ(vm),
        <PushAsRef<E, T> as VmType>::typ(vm) == T::typ(vm),
        <UserdataRef<T> as VmType>::typ(vm) == T::typ(vm),
        <OpaqueValue<U, T> as VmType>::typ(vm) == T::typ(vm),
        <Generic<T> as VmType>::typ(vm) == T::typ(vm),
        <Primitive<F> as VmType>::typ(vm) == F::typ(vm),
        <RefPrimitive<'a, F> as VmType>::typ(vm) == F::typ(vm),
        <Function<U, F> as VmType>::typ(vm) == F::typ(vm),
{
}

/// A value of the host that is kept alive has the type that the thread knows under its key.
pub proof fn law_userdata_types<T: Userdata>(vm: &Thread, t: Term<Op>)
    requires
        vm.known_type(T::key()) == Some(t),
    ensures
        <Root<T> as VmType>::typ(vm) == t,
{
}

/// The ends of channels have the types that go by their names, applied to the type of what is sent.
pub proof fn law_channel_types<T: VmType>(vm: &Thread)
    ensures
        vm.type_info("Sender"@) matches Some(found) ==> <Sender<T> as VmType>::typ(vm) == Term::Node(
            Op::App,
            seq![alone(Op::Ident(found.alias.name.model())), T::typ(vm)],
        ),
        vm.type_info("Receiver"@) matches Some(found) ==> <Receiver<T> as VmType>::typ(vm)
            == Term::Node(
            Op::App,
            seq![alone(Op::Ident(found.alias.name.model())), T::typ(vm)],
        ),
{
}

/// A channel is a record of its two ends, under their names.
pub proof fn law_channels_are_records<S: VmType, R: VmType>(vm: &Thread)
    ensures
        <ChannelRecord<S, R> as VmType>::typ(vm) == record_of(
            seq!["sender"@, "receiver"@],
            seq![type_cache::forall_type(S::typ(vm)), type_cache::forall_type(R::typ(vm))],
        ),
{
    law_type_of_records::<SenderField, S, ReceiverField, R>(vm);
}

/// The kinds and the keys of the two ends of a channel differ.
pub proof fn law_channel_ends_differ<T>(sender: Sender<T>, receiver: Receiver<T>)
    ensures
        <Sender<T> as Userdata>::kind() != <Receiver<T> as Userdata>::kind(),
        <Sender<T> as Userdata>::key() == "Sender<A>"@,
        <Receiver<T> as Userdata>::key() == "Receiver<A>"@,
        sender.handle() == sender.channel,
        receiver.handle() == receiver.channel,
{
}

/// Only actions need an argument more when they are returned, and what stands for another type
/// needs as many as that does.
pub proof fn law_extra_arguments<'a, T: VmType, E: VmType>()
    ensures
        <IO<T> as VmType>::extra() == 1,
        <WithVM<'a, T> as VmType>::extra() == T::extra(),
        <FutureResult<FutureHandle<T>> as VmType>::extra() == T::extra(),
        <Generic<T> as VmType>::extra() == T::extra(),
        <Option<T> as VmType>::extra() == 0,
        <Result<T, E> as VmType>::extra() == 0,
        <Vec<T> as VmType>::extra() == 0,
        <&'a T as VmType>::extra() == 0,
        <() as VmType>::extra() == 0,
        <bool as VmType>::extra() == 0,
        <i64 as VmType>::extra() == 0,
        <String as VmType>::extra() == 0,
        <RuntimeResult<T, E> as VmType>::extra() == 0,
{
}

/// The type is a type variable of this name.
pub open spec fn is_letter(t: Term<Op>, letter: char) -> bool {
    t matches Term::Node(Op::Generic(symbol), kids) && symbol.name == seq![letter] && kids.len() == 0
}

/// Each type variable of the host stands for the type variable that has its letter as its name.
pub proof fn law_type_variables(vm: &Thread)
    requires
        vm.wf(),
    ensures
        is_letter(<generic::A as VmType>::typ(vm), 'a'),
        is_letter(<generic::B as VmType>::typ(vm), 'b'),
        is_letter(<generic::C as VmType>::typ(vm), 'c'),
        is_letter(<generic::D as VmType>::typ(vm), 'd'),
        is_letter(<generic::E as VmType>::typ(vm), 'e'),
        is_letter(<generic::F as VmType>::typ(vm), 'f'),
        is_letter(<generic::G as VmType>::typ(vm), 'g'),
        is_letter(<generic::H as VmType>::typ(vm), 'h'),
        is_letter(<generic::I as VmType>::typ(vm), 'i'),
        is_letter(<generic::J as VmType>::typ(vm), 'j'),
        is_letter(<generic::K as VmType>::typ(vm), 'k'),
        is_letter(<generic::L as VmType>::typ(vm), 'l'),
        is_letter(<generic::M as VmType>::typ(vm), 'm'),
        is_letter(<generic::N as VmType>::typ(vm), 'n'),
        is_letter(<generic::O as VmType>::typ(vm), 'o'),
        is_letter(<generic::P as VmType>::typ(vm), 'p'),
        is_letter(<generic::Q as VmType>::typ(vm), 'q'),
        is_letter(<generic::R as VmType>::typ(vm), 'r'),
        is_letter(<generic::X as VmType>::typ(vm), 'x'),
        is_letter(<generic::Y as VmType>::typ(vm), 'y'),
        is_letter(<generic::Z as VmType>::typ(vm), 'z'),
{
    lemma_letter(vm, 'a');
    lemma_letter(vm, 'b');
    lemma_letter(vm, 'c');
    lemma_letter(vm, 'd');
    lemma_letter(vm, 'e');
    lemma_letter(vm, 'f');
    lemma_letter(vm, 'g');
    lemma_letter(vm, 'h');
    lemma_letter(vm, 'i');
    lemma_letter(vm, 'j');
    lemma_letter(vm, 'k');
    lemma_letter(vm, 'l');
    lemma_letter(vm, 'm');
    lemma_letter(vm, 'n');
    lemma_letter(vm, 'o');
    lemma_letter(vm, 'p');
    lemma_letter(vm, 'q');
    lemma_letter(vm, 'r');
    lemma_letter(vm, 'x');
    lemma_letter(vm, 'y');
    lemma_letter(vm, 'z');
}

/// The type variable of a letter has the letter as its name.
proof fn lemma_letter(vm: &Thread, c: char)
    requires
        vm.wf(),
        'a' <= c <= 'z',
    ensures
        is_letter(vm.generic(c), c),
{
    let i = c as int - 'a' as int;
    assert(vm.generics@[i].name@ == seq![crate::thread::letter(i)]);
}

/// A tuple of two is a record of its parts, in order.
pub proof fn law_type_of_tuples_of_two<
    A: VmType,
    B: VmType,
>(vm: &Thread)
    ensures
        <(A, B) as VmType>::typ(vm) == record_of(
            seq!["_5"@, "_6"@],
            seq![A::typ(vm), B::typ(vm)],
        ),
{
    let typs = seq![A::typ(vm), B::typ(vm)];
    assert(typs.push(alone(Op::EmptyRow)) =~= typs + seq![alone(Op::EmptyRow)]);
}

/// A tuple of three is a record of its parts, in order.
pub proof fn law_type_of_tuples_of_three<
    A: VmType,
    B: VmType,
    C: VmType,
>(vm: &Thread)
    ensures
        <(A, B, C) as VmType>::typ(vm) == record_of(
            seq!["_4"@, "_5"@, "_6"@],
            seq![A::typ(vm), B::typ(vm), C::typ(vm)],
        ),
{
    let typs = seq![A::typ(vm), B::typ(vm), C::typ(vm)];
    assert(typs.push(alone(Op::EmptyRow)) =~= typs + seq![alone(Op::EmptyRow)]);
}

/// A tuple of four is a record of its parts, in order.
pub proof fn law_type_of_tuples_of_four<
    A: VmType,
    B: VmType,
    C: VmType,
    D: VmType,
>(vm: &Thread)
    ensures
        <(A, B, C, D) as VmType>::typ(vm) == record_of(
            seq!["_3"@, "_4"@, "_5"@, "_6"@],
            seq![A::typ(vm), B::typ(vm), C::typ(vm), D::typ(vm)],
        ),
{
    let typs = seq![A::typ(vm), B::typ(vm), C::typ(vm), D::typ(vm)];
    assert(typs.push(alone(Op::EmptyRow)) =~= typs + seq![alone(Op::EmptyRow)]);
}

/// A tuple of five is a record of its parts, in order.
pub proof fn law_type_of_tuples_of_five<
    A: VmType,
    B: VmType,
    C: VmType,
    D: VmType,
    E: VmType,
>(vm: &Thread)
    ensures
        <(A, B, C, D, E) as VmType>::typ(vm) == record_of(
            seq!["_2"@, "_3"@, "_4"@, "_5"@, "_6"@],
            seq![A::typ(vm), B::typ(vm), C::typ(vm), D::typ(vm), E::typ(vm)],
        ),
{
    let typs = seq![A::typ(vm), B::typ(vm), C::typ(vm), D::typ(vm), E::typ(vm)];
    assert(typs.push(alone(Op::EmptyRow)) =~= typs + seq![alone(Op::EmptyRow)]);
}

/// A tuple of six is a record of its parts, in order.
pub proof fn law_type_of_tuples_of_six<
    A: VmType,
    B: VmType,
    C: VmType,
    D: VmType,
    E: VmType,
    F: VmType,
>(vm: &Thread)
    ensures
        <(A, B, C, D, E, F) as VmType>::typ(vm) == record_of(
            seq!["_1"@, "_2"@, "_3"@, "_4"@, "_5"@, "_6"@],
            seq![A::typ(vm), B::typ(vm), C::typ(vm), D::typ(vm), E::typ(vm), F::typ(vm)],
        ),
{
    let typs = seq![A::typ(vm), B::typ(vm), C::typ(vm), D::typ(vm), E::typ(vm), F::typ(vm)];
    assert(typs.push(alone(Op::EmptyRow)) =~= typs + seq![alone(Op::EmptyRow)]);
}

/// A tuple of seven is a record of its parts, in order.
pub proof fn law_type_of_tuples_of_seven<
    A: VmType,
    B: VmType,
    C: VmType,
    D: VmType,
    E: VmType,
    F: VmType,
    G: VmType,
>(vm: &Thread)
    ensures
        <(A, B, C, D, E, F, G) as VmType>::typ(vm) == record_of(
            seq!["_0"@, "_1"@, "_2"@, "_3"@, "_4"@, "_5"@, "_6"@],
            seq![A::typ(vm), B::typ(vm), C::typ(vm), D::typ(vm), E::typ(vm), F::typ(vm), G::typ(vm)],
        ),
{
    let typs = seq![A::typ(vm), B::typ(vm), C::typ(vm), D::typ(vm), E::typ(vm), F::typ(vm), G::typ(vm)];
    assert(typs.push(alone(Op::EmptyRow)) =~= typs + seq![alone(Op::EmptyRow)]);
}

/// A function of no arguments is what it gives; it takes as many arguments,
/// and those that its result needs.
pub proof fn law_type_of_functions_of_no<
    R: VmType,
>(vm: &Thread)
    ensures
        <Signature<(), R> as VmType>::typ(vm) == R::typ(vm),
        <Signature<(), R> as FunctionType>::arity() == 0 + R::extra(),
{
    reveal_with_fuel(type_cache::function_type, 1);
    let args = <() as ArgumentTypes>::typs(vm);
}

/// A function of one argument takes it, and then gives its result; it takes as many arguments,
/// and those that its result needs.
pub proof fn law_type_of_functions_of_one<
    A1: VmType,
    R: VmType,
>(vm: &Thread)
    ensures
        <Signature<(A1,), R> as VmType>::typ(vm) == type_laws::arrow(A1::typ(vm), R::typ(vm)),
        <Signature<(A1,), R> as FunctionType>::arity() == 1 + R::extra(),
{
    reveal_with_fuel(type_cache::function_type, 2);
    let args = <(A1,) as ArgumentTypes>::typs(vm);
    let rest0 = args.drop_first();
    assert(rest0 =~= Seq::empty());
}

/// A function of two arguments takes them one by one, from the first to the last, and then gives its result; it takes as many arguments,
/// and those that its result needs.
pub proof fn law_type_of_functions_of_two<
    A1: VmType,
    A2: VmType,
    R: VmType,
>(vm: &Thread)
    ensures
        <Signature<(A1, A2), R> as VmType>::typ(vm) == type_laws::arrow(A1::typ(vm), type_laws::arrow(A2::typ(vm), R::typ(vm))),
        <Signature<(A1, A2), R> as FunctionType>::arity() == 2 + R::extra(),
{
    reveal_with_fuel(type_cache::function_type, 3);
    let args = <(A1, A2) as ArgumentTypes>::typs(vm);
    let rest0 = args.drop_first();
    assert(rest0 =~= seq![A2::typ(vm)]);
    let rest1 = rest0.drop_first();
    assert(rest1 =~= Seq::empty());
}

/// A function of three arguments takes them one by one, from the first to the last, and then gives its result; it takes as many arguments,
/// and those that its result needs.
pub proof fn law_type_of_functions_of_three<
    A1: VmType,
    A2: VmType,
    A3: VmType,
    R: VmType,
>(vm: &Thread)
    ensures
        <Signature<(A1, A2, A3), R> as VmType>::typ(vm) == type_laws::arrow(A1::typ(vm), type_laws::arrow(A2::typ(vm), type_laws::arrow(A3::typ(vm), R::typ(vm)))),
        <Signature<(A1, A2, A3), R> as FunctionType>::arity() == 3 + R::extra(),
{
    reveal_with_fuel(type_cache::function_type, 4);
    let args = <(A1, A2, A3) as ArgumentTypes>::typs(vm);
    let rest0 = args.drop_first();
    assert(rest0 =~= seq![A2::typ(vm), A3::typ(vm)]);
    let rest1 = rest0.drop_first();
    assert(rest1 =~= seq![A3::typ(vm)]);
    let rest2 = rest1.drop_first();
    assert(rest2 =~= Seq::empty());
}

/// A function of four arguments takes them one by one, from the first to the last, and then gives its result; it takes as many arguments,
/// and those that its result needs.
pub proof fn law_type_of_functions_of_four<
    A1: VmType,
    A2: VmType,
    A3: VmType,
    A4: VmType,
    R: VmType,
>(vm: &Thread)
    ensures
        <Signature<(A1, A2, A3, A4), R> as VmType>::typ(vm) == type_laws::arrow(A1::typ(vm), type_laws::arrow(A2::typ(vm), type_laws::arrow(A3::typ(vm), type_laws::arrow(A4::typ(vm), R::typ(vm))))),
        <Signature<(A1, A2, A3, A4), R> as FunctionType>::arity() == 4 + R::extra(),
{
    reveal_with_fuel(type_cache::function_type, 5);
    let args = <(A1, A2, A3, A4) as ArgumentTypes>::typs(vm);
    let rest0 = args.drop_first();
    assert(rest0 =~= seq![A2::typ(vm), A3::typ(vm), A4::typ(vm)]);
    let rest1 = rest0.drop_first();
    assert(rest1 =~= seq![A3::typ(vm), A4::typ(vm)]);
    let rest2 = rest1.drop_first();
    assert(rest2 =~= seq![A4::typ(vm)]);
    let rest3 = rest2.drop_first();
    assert(rest3 =~= Seq::empty());
}

/// A function of five arguments takes them one by one, from the first to the last, and then gives its result; it takes as many arguments,
/// and those that its result needs.
pub proof fn law_type_of_functions_of_five<
    A1: VmType,
    A2: VmType,
    A3: VmType,
    A4: VmType,
    A5: VmType,
    R: VmType,
>(vm: &Thread)
    ensures
        <Signature<(A1, A2, A3, A4, A5), R> as VmType>::typ(vm) == type_laws::arrow(A1::typ(vm), type_laws::arrow(A2::typ(vm), type_laws::arrow(A3::typ(vm), type_laws::arrow(A4::typ(vm), type_laws::arrow(A5::typ(vm), R::typ(vm)))))),
        <Signature<(A1, A2, A3, A4, A5), R> as FunctionType>::arity() == 5 + R::extra(),
{
    reveal_with_fuel(type_cache::function_type, 6);
    let args = <(A1, A2, A3, A4, A5) as ArgumentTypes>::typs(vm);
    let rest0 = args.drop_first();
    assert(rest0 =~= seq![A2::typ(vm), A3::typ(vm), A4::typ(vm), A5::typ(vm)]);
    let rest1 = rest0.drop_first();
    assert(rest1 =~= seq![A3::typ(vm), A4::typ(vm), A5::typ(vm)]);
    let rest2 = rest1.drop_first();
    assert(rest2 =~= seq![A4::typ(vm), A5::typ(vm)]);
    let rest3 = rest2.drop_first();
    assert(rest3 =~= seq![A5::typ(vm)]);
    let rest4 = rest3.drop_first();
    assert(rest4 =~= Seq::empty());
}

/// A function of six arguments takes them one by one, from the first to the last, and then gives its result; it takes as many arguments,
/// and those that its result needs.
pub proof fn law_type_of_functions_of_six<
    A1: VmType,
    A2: VmType,
    A3: VmType,
    A4: VmType,
    A5: VmType,
    A6: VmType,
    R: VmType,
>(vm: &Thread)
    ensures
        <Signature<(A1, A2, A3, A4, A5, A6), R> as VmType>::typ(vm) == type_laws::arrow(A1::typ(vm), type_laws::arrow(A2::typ(vm), type_laws::arrow(A3::typ(vm), type_laws::arrow(A4::typ(vm), type_laws::arrow(A5::typ(vm), type_laws::arrow(A6::typ(vm), R::typ(vm))))))),
        <Signature<(A1, A2, A3, A4, A5, A6), R> as FunctionType>::arity() == 6 + R::extra(),
{
    reveal_with_fuel(type_cache::function_type, 7);
    let args = <(A1, A2, A3, A4, A5, A6) as ArgumentTypes>::typs(vm);
    let rest0 = args.drop_first();
    assert(rest0 =~= seq![A2::typ(vm), A3::typ(vm), A4::typ(vm), A5::typ(vm), A6::typ(vm)]);
    let rest1 = rest0.drop_first();
    assert(rest1 =~= seq![A3::typ(vm), A4::typ(vm), A5::typ(vm), A6::typ(vm)]);
    let rest2 = rest1.drop_first();
    assert(rest2 =~= seq![A4::typ(vm), A5::typ(vm), A6::typ(vm)]);
    let rest3 = rest2.drop_first();
    assert(rest3 =~= seq![A5::typ(vm), A6::typ(vm)]);
    let rest4 = rest3.drop_first();
    assert(rest4 =~= seq![A6::typ(vm)]);
    let rest5 = rest4.drop_first();
    assert(rest5 =~= Seq::empty());
}

/// A function of seven arguments takes them one by one, from the first to the last, and then gives its result; it takes as many arguments,
/// and those that its result needs.
pub proof fn law_type_of_functions_of_seven<
    A1: VmType,
    A2: VmType,
    A3: VmType,
    A4: VmType,
    A5: VmType,
    A6: VmType,
    A7: VmType,
    R: VmType,
>(vm: &Thread)
    ensures
        <Signature<(A1, A2, A3, A4, A5, A6, A7), R> as VmType>::typ(vm) == type_laws::arrow(A1::typ(vm), type_laws::arrow(A2::typ(vm), type_laws::arrow(A3::typ(vm), type_laws::arrow(A4::typ(vm), type_laws::arrow(A5::typ(vm), type_laws::arrow(A6::typ(vm), type_laws::arrow(A7::typ(vm), R::typ(vm)))))))),
        <Signature<(A1, A2, A3, A4, A5, A6, A7), R> as FunctionType>::arity() == 7 + R::extra(),
{
    reveal_with_fuel(type_cache::function_type, 8);
    let args = <(A1, A2, A3, A4, A5, A6, A7) as ArgumentTypes>::typs(vm);
    let rest0 = args.drop_first();
    assert(rest0 =~= seq![A2::typ(vm), A3::typ(vm), A4::typ(vm), A5::typ(vm), A6::typ(vm), A7::typ(vm)]);
    let rest1 = rest0.drop_first();
    assert(rest1 =~= seq![A3::typ(vm), A4::typ(vm), A5::typ(vm), A6::typ(vm), A7::typ(vm)]);
    let rest2 = rest1.drop_first();
    assert(rest2 =~= seq![A4::typ(vm), A5::typ(vm), A6::typ(vm), A7::typ(vm)]);
    let rest3 = rest2.drop_first();
    assert(rest3 =~= seq![A5::typ(vm), A6::typ(vm), A7::typ(vm)]);
    let rest4 = rest3.drop_first();
    assert(rest4 =~= seq![A6::typ(vm), A7::typ(vm)]);
    let rest5 = rest4.drop_first();
    assert(rest5 =~= seq![A7::typ(vm)]);
    let rest6 = rest5.drop_first();
    assert(rest6 =~= Seq::empty());
}

/// A function of the host has the type and the number of arguments of its signature, however it is
/// held.
pub proof fn law_type_of_host_functions<'a, F, Args: ArgumentTypes, R: VmType>(vm: &Thread)
    ensures
        <HostFunction<F, Args, R> as VmType>::typ(vm) == <Signature<Args, R> as VmType>::typ(vm),
        <HostFunction<F, Args, R> as FunctionType>::arity() == <Signature<
            Args,
            R,
        > as FunctionType>::arity(),
        <&'a Signature<Args, R> as FunctionType>::arity() == <Signature<
            Args,
            R,
        > as FunctionType>::arity(),
        <Box<Signature<Args, R>> as FunctionType>::arity() == <Signature<
            Args,
            R,
        > as FunctionType>::arity(),
{
}

/// The fields of a record have their labels and their types, quantified, from the first to the last.
pub proof fn law_fields_of_records<N: Field, V: VmType, Rest: FieldTypes>(vm: &Thread)
    ensures
        <HNil as FieldTypes>::names() == Seq::<Seq<char>>::empty(),
        <HNil as FieldTypes>::typs(vm) == Seq::<Term<Op>>::empty(),
        <HCons<(N, V), Rest> as FieldTypes>::names() == seq![N::label()] + Rest::names(),
        <HCons<(N, V), Rest> as FieldTypes>::typs(vm) == seq![type_cache::forall_type(V::typ(vm))]
            + Rest::typs(vm),
{
}

/// A record of two fields is a record of them, in order.
pub proof fn law_type_of_records<M: Field, V: VmType, N: Field, W: VmType>(vm: &Thread)
    ensures
        <Record<HCons<(M, V), HCons<(N, W), HNil>>> as VmType>::typ(vm) == record_of(
            seq![M::label(), N::label()],
            seq![type_cache::forall_type(V::typ(vm)), type_cache::forall_type(W::typ(vm))],
        ),
        <Record<HNil> as VmType>::typ(vm) == Term::Node(Op::Record, seq![alone(Op::EmptyRow)]),
{
    let names = <HCons<(M, V), HCons<(N, W), HNil>> as FieldTypes>::names();
    let typs = <HCons<(M, V), HCons<(N, W), HNil>> as FieldTypes>::typs(vm);
    assert(names =~= seq![M::label(), N::label()]);
    assert(typs =~= seq![
        type_cache::forall_type(V::typ(vm)),
        type_cache::forall_type(W::typ(vm)),
    ]);
    assert(typs.push(alone(Op::EmptyRow)) =~= typs + seq![alone(Op::EmptyRow)]);
}

/// A plain type needs the one name that it stands for.
pub proof fn law_plain_types_need_their_names(vm: &Thread)
    ensures
        vm.known_type("VmInt"@) is Some ==> {
            &&& <i16 as VmType>::typable(vm)
            &&& <i32 as VmType>::typable(vm)
            &&& <i64 as VmType>::typable(vm)
            &&& <u16 as VmType>::typable(vm)
            &&& <u32 as VmType>::typable(vm)
            &&& <u64 as VmType>::typable(vm)
            &&& <usize as VmType>::typable(vm)
            &&& <isize as VmType>::typable(vm)
        },
        vm.known_type("String"@) is Some ==> {
            &&& <str as VmType>::typable(vm)
            &&& <String as VmType>::typable(vm)
            &&& <RootStr as VmType>::typable(vm)
        },
        vm.known_type("u8"@) is Some ==> <u8 as VmType>::typable(vm),
        vm.known_type("f64"@) is Some ==> <Float as VmType>::typable(vm),
        vm.known_type("char"@) is Some ==> <char as VmType>::typable(vm),
        vm.known_type("()"@) is Some ==> <() as VmType>::typable(vm),
        vm.known_type("Thread"@) is Some ==> <Thread as VmType>::typable(vm)
            && <RootedThread as VmType>::typable(vm),
        vm.type_info("std.types.Bool"@) is Some ==> <bool as VmType>::typable(vm),
        <Hole as VmType>::typable(vm),
        <generic::A as VmType>::typable(vm),
        <generic::B as VmType>::typable(vm),
        <generic::C as VmType>::typable(vm),
        <generic::D as VmType>::typable(vm),
        <generic::E as VmType>::typable(vm),
        <generic::F as VmType>::typable(vm),
        <generic::G as VmType>::typable(vm),
        <generic::H as VmType>::typable(vm),
        <generic::I as VmType>::typable(vm),
        <generic::J as VmType>::typable(vm),
        <generic::K as VmType>::typable(vm),
        <generic::L as VmType>::typable(vm),
        <generic::M as VmType>::typable(vm),
        <generic::N as VmType>::typable(vm),
        <generic::O as VmType>::typable(vm),
        <generic::P as VmType>::typable(vm),
        <generic::Q as VmType>::typable(vm),
        <generic::R as VmType>::typable(vm),
        <generic::X as VmType>::typable(vm),
        <generic::Y as VmType>::typable(vm),
        <generic::Z as VmType>::typable(vm),
{
}

/// What is made of other types needs those, and the names of its own.
pub proof fn law_compound_types_need_their_parts<
    'a,
    T: VmType + ArrayRepr,
    E: VmType,
    R: VmType,
    U: ThreadRef,
>(vm: &Thread)
    requires
        T::typable(vm),
        E::typable(vm),
        R::typable(vm),
    ensures
        vm.type_info("std.types.Option"@) is Some ==> <Option<T> as VmType>::typable(vm),
        vm.type_info("std.types.Result"@) is Some ==> <Result<T, E> as VmType>::typable(vm),
        vm.type_info("IO"@) is Some ==> <IO<T> as VmType>::typable(vm),
        vm.type_info("Sender"@) is Some ==> <Sender<T> as VmType>::typable(vm),
        vm.type_info("Receiver"@) is Some ==> <Receiver<T> as VmType>::typable(vm),
        <Vec<T> as VmType>::typable(vm),
        <&'a [T] as VmType>::typable(vm),
        <Array<'a, T> as VmType>::typable(vm),
        <&'a T as VmType>::typable(vm),
        <WithVM<'a, T> as VmType>::typable(vm),
        <FutureResult<FutureHandle<T>> as VmType>::typable(vm),
        <RuntimeResult<T, E> as VmType>::typable(vm),
        <PushAsRef<E, T> as VmType>::typable(vm),
        <UserdataRef<T> as VmType>::typable(vm),
        <OpaqueValue<U, T> as VmType>::typable(vm),
        <Generic<T> as VmType>::typable(vm),
        <Primitive<T> as VmType>::typable(vm),
        <RefPrimitive<'a, T> as VmType>::typable(vm),
        <Function<U, T> as VmType>::typable(vm),
        <Signature<(), R> as VmType>::typable(vm),
        <Signature<(T,), R> as VmType>::typable(vm),
        <Signature<(T, E), R> as VmType>::typable(vm),
        <Signature<(T, E, T), R> as VmType>::typable(vm),
        <Signature<(T, E, T, E), R> as VmType>::typable(vm),
        <Signature<(T, E, T, E, T), R> as VmType>::typable(vm),
        <Signature<(T, E, T, E, T, E), R> as VmType>::typable(vm),
        <Signature<(T, E, T, E, T, E, T), R> as VmType>::typable(vm),
        <HostFunction<U, (T, E), R> as VmType>::typable(vm),
        <(T, E) as VmType>::typable(vm),
        <(T, E, R) as VmType>::typable(vm),
        <(T, E, R, T) as VmType>::typable(vm),
        <(T, E, R, T, E) as VmType>::typable(vm),
        <(T, E, R, T, E, R) as VmType>::typable(vm),
        <(T, E, R, T, E, R, T) as VmType>::typable(vm),
{
}

} // verus!
