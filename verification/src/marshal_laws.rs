//! What values of the host are in the virtual machine.
use vstd::prelude::*;
use crate::api::{Getable, Pushable};
use crate::compound;
use crate::machine;
use crate::machine::{Failure, Heap};
use crate::opaque::Generic;
use crate::roles;
use crate::roles::{PushAsRef, Root, RuntimeResult, Userdata, UserdataRef, WithVM, IO};
use crate::scalar;
use crate::scalar::Float;
use crate::text::Show;
use crate::thread::Thread;
use crate::value::{UserdataPtr, Val, Value};
use crate::value_ref;
use crate::value_ref::{ArrayRepr, Shown};
use std::cmp::Ordering;

verus! {

/// What comes of storing a value that takes `size` units of memory: they are taken within the
/// limit, or the value is refused and nothing is taken.
pub open spec fn stored(heap: Heap, size: nat, value: Val) -> (Heap, Result<Val, Failure>) {
    if heap.allocated + size <= heap.limit {
        (Heap { allocated: heap.allocated + size, limit: heap.limit }, Ok(value))
    } else {
        (heap, Err(Failure::OutOfMemory(heap.limit as usize, size as usize)))
    }
}

/// A text takes as much memory as it has characters, data and arrays as they have parts, and
/// functions and values of the host take one unit.
pub proof fn law_values_take_memory(
    heap: Heap,
    text: Seq<char>,
    tag: u32,
    parts: Seq<Val>,
    args: u32,
    handle: u64,
    userdata: UserdataPtr,
)
    ensures
        machine::text_placed(heap, text) == stored(heap, text.len(), Val::Text(text)),
        machine::data_placed(heap, tag, parts) == stored(heap, parts.len(), Val::Data(tag, parts)),
        machine::array_placed(heap, parts) == stored(heap, parts.len(), Val::Array(parts)),
        machine::function_placed(heap, text, args, handle) == stored(
            heap,
            1,
            Val::Function(text, args, handle),
        ),
        machine::userdata_placed(heap, userdata) == stored(heap, 1, Val::Userdata(userdata)),
{
}

/// Memory that is taken regardless of the limit is counted as far as the count goes.
pub proof fn law_forced_memory_is_counted(heap: Heap, size: nat)
    ensures
        heap.forced(size).limit == heap.limit,
        heap.allocated + size <= usize::MAX ==> heap.forced(size).allocated == heap.allocated + size,
        heap.allocated + size > usize::MAX ==> heap.forced(size).allocated == usize::MAX,
{
}

/// A `i16` is an integer of the same value, and takes no memory. An integer in its range is read
/// with the same value; what is no integer is not read.
pub proof fn law_i16_keeps_its_value(x: i16, value: Val, vm: &Thread, heap: Heap)
    ensures
        x.pushed(vm, heap).0 == heap,
        x.pushed(vm, heap).1 matches Ok(Val::Int(i)) && i == x,
        <i16 as Getable>::got(value) is Some <==> value is Int,
        value matches Val::Int(i) ==> (-0x8000 <= i <= 0x7fff ==> (<i16 as Getable>::got(
            value,
        ) matches Some(y) && y == i)),
        <i16 as Getable>::got_rooted(value) == <i16 as Getable>::got(value),
{
}

/// A `i32` is an integer of the same value, and takes no memory. An integer in its range is read
/// with the same value; what is no integer is not read.
pub proof fn law_i32_keeps_its_value(x: i32, value: Val, vm: &Thread, heap: Heap)
    ensures
        x.pushed(vm, heap).0 == heap,
        x.pushed(vm, heap).1 matches Ok(Val::Int(i)) && i == x,
        <i32 as Getable>::got(value) is Some <==> value is Int,
        value matches Val::Int(i) ==> (-0x8000_0000 <= i <= 0x7fff_ffff ==> (<i32 as Getable>::got(
            value,
        ) matches Some(y) && y == i)),
        <i32 as Getable>::got_rooted(value) == <i32 as Getable>::got(value),
{
}

/// A `u16` is an integer of the same value, and takes no memory. An integer in its range is read
/// with the same value; what is no integer is not read.
pub proof fn law_u16_keeps_its_value(x: u16, value: Val, vm: &Thread, heap: Heap)
    ensures
        x.pushed(vm, heap).0 == heap,
        x.pushed(vm, heap).1 matches Ok(Val::Int(i)) && i == x,
        <u16 as Getable>::got(value) is Some <==> value is Int,
        value matches Val::Int(i) ==> (0 <= i <= 0xffff ==> (<u16 as Getable>::got(
            value,
        ) matches Some(y) && y == i)),
        <u16 as Getable>::got_rooted(value) == <u16 as Getable>::got(value),
{
}

/// A `u32` is an integer of the same value, and takes no memory. An integer in its range is read
/// with the same value; what is no integer is not read.
pub proof fn law_u32_keeps_its_value(x: u32, value: Val, vm: &Thread, heap: Heap)
    ensures
        x.pushed(vm, heap).0 == heap,
        x.pushed(vm, heap).1 matches Ok(Val::Int(i)) && i == x,
        <u32 as Getable>::got(value) is Some <==> value is Int,
        value matches Val::Int(i) ==> (0 <= i <= 0xffff_ffff ==> (<u32 as Getable>::got(
            value,
        ) matches Some(y) && y == i)),
        <u32 as Getable>::got_rooted(value) == <u32 as Getable>::got(value),
{
}

/// An `i64` is the integer, and is read as it.
pub proof fn law_i64_keeps_its_value(x: i64, value: Val, vm: &Thread, heap: Heap)
    ensures
        x.pushed(vm, heap) == (heap, Ok::<Val, Failure>(Val::Int(x))),
        match value {
            Val::Int(i) => <i64 as Getable>::got(value) == Some(i),
            _ => <i64 as Getable>::got(value) is None,
        },
        <i64 as Getable>::got_rooted(value) == <i64 as Getable>::got(value),
{
}

/// A `u64` is an integer of the same value where there is one, and else the one with the same bits;
/// it is read back in the same way.
pub proof fn law_u64_keeps_its_bits(x: u64, value: Val, vm: &Thread, heap: Heap)
    ensures
        x.pushed(vm, heap).0 == heap,
        x.pushed(vm, heap).1 matches Ok(Val::Int(i)) && i == if x <= i64::MAX {
            x as int
        } else {
            x - 0x1_0000_0000_0000_0000
        },
        match value {
            Val::Int(i) => <u64 as Getable>::got(value) matches Some(y) && y == if i >= 0 {
                i as int
            } else {
                i + 0x1_0000_0000_0000_0000
            },
            _ => <u64 as Getable>::got(value) is None,
        },
        <u64 as Getable>::got_rooted(value) == <u64 as Getable>::got(value),
{
    assert((x as i64) == if x <= 0x7fff_ffff_ffff_ffff {
        x as int
    } else {
        x - 0x1_0000_0000_0000_0000
    }) by (bit_vector);
    if let Val::Int(i) = value {
        assert((i as u64) == if i >= 0 {
            i as int
        } else {
            i + 0x1_0000_0000_0000_0000
        }) by (bit_vector);
    }
}

/// A `usize` or an `isize` that an integer can hold is an integer of the same value, and is read
/// with the same value where it can be.
pub proof fn law_sizes_keep_their_value(
    x: usize,
    y: isize,
    value: Val,
    vm: &Thread,
    heap: Heap,
)
    ensures
        x.pushed(vm, heap).0 == heap,
        x <= i64::MAX ==> (x.pushed(vm, heap).1 matches Ok(Val::Int(i)) && i == x),
        x.pushed(vm, heap).1 matches Ok(Val::Int(_)),
        y.pushed(vm, heap).0 == heap,
        y.pushed(vm, heap).1 matches Ok(Val::Int(i)) && i == y,
        <usize as Getable>::got(value) is Some <==> value is Int,
        <isize as Getable>::got(value) is Some <==> value is Int,
        value matches Val::Int(i) ==> (0 <= i <= usize::MAX ==> (<usize as Getable>::got(
            value,
        ) matches Some(z) && z == i)),
        value matches Val::Int(i) ==> (isize::MIN <= i <= isize::MAX ==> (<isize as Getable>::got(
            value,
        ) matches Some(z) && z == i)),
        <usize as Getable>::got_rooted(value) == <usize as Getable>::got(value),
        <isize as Getable>::got_rooted(value) == <isize as Getable>::got(value),
{
}

/// A byte is a byte, a floating point number has its own bits, and the unit value is the integer 0,
/// though any value is read as the unit value.
pub proof fn law_bytes_floats_and_units(b: u8, float: Float, value: Val, vm: &Thread, heap: Heap)
    ensures
        b.pushed(vm, heap) == (heap, Ok::<Val, Failure>(Val::Byte(b))),
        float.pushed(vm, heap) == (heap, Ok::<Val, Failure>(Val::Float(float.0))),
        ().pushed(vm, heap) == (heap, Ok::<Val, Failure>(Val::Int(0))),
        match value {
            Val::Byte(x) => <u8 as Getable>::got(value) == Some(x),
            _ => <u8 as Getable>::got(value) is None,
        },
        match value {
            Val::Float(bits) => <Float as Getable>::got(value) == Some(bits),
            _ => <Float as Getable>::got(value) is None,
        },
        <() as Getable>::got(value) == Some(()),
        <u8 as Getable>::got_rooted(value) == <u8 as Getable>::got(value),
        <Float as Getable>::got_rooted(value) == <Float as Getable>::got(value),
        float.image() == float.0,
{
}

/// Truth values are variants: the first one is false and the second one is true. A variant is read
/// as true if and only if it is the second one.
pub proof fn law_truth_values_are_variants(
    truth: bool,
    tag: u32,
    fields: Seq<Val>,
    other: Val,
    vm: &Thread,
    heap: Heap,
)
    requires
        !(other is Data),
        !(other is Tag),
    ensures
        truth ==> truth.pushed(vm, heap) == (heap, Ok::<Val, Failure>(Val::Tag(1))),
        !truth ==> truth.pushed(vm, heap) == (heap, Ok::<Val, Failure>(Val::Tag(0))),
        <bool as Getable>::got(Val::Tag(tag)) == Some(tag == 1),
        <bool as Getable>::got(Val::Data(tag, fields)) == Some(tag == 1),
        <bool as Getable>::got(other) is None,
        <bool as Getable>::got_rooted(Val::Tag(tag)) == Some(tag == 1),
{
}

/// Orderings are variants: the first one is less, the second one equal and the third one greater.
/// Nothing else is read as one.
pub proof fn law_orderings_are_variants(tag: u32, fields: Seq<Val>)
    ensures
        scalar::ordering_tag(Ordering::Less) == 0,
        scalar::ordering_tag(Ordering::Equal) == 1,
        scalar::ordering_tag(Ordering::Greater) == 2,
        scalar::ordering_got(Val::Tag(0)) == Some(Ordering::Less),
        scalar::ordering_got(Val::Tag(1)) == Some(Ordering::Equal),
        scalar::ordering_got(Val::Tag(2)) == Some(Ordering::Greater),
        tag > 2 ==> scalar::ordering_got(Val::Tag(tag)) is None,
        scalar::ordering_got(Val::Data(tag, fields)) == scalar::ordering_got(Val::Tag(tag)),
{
}

/// A character is the integer of its code point. An integer that is the code point of a character
/// is read as that character, and one in the range of code points that is not is refused.
pub proof fn law_characters_are_code_points(c: char, i: i64, other: Val, vm: &Thread, heap: Heap)
    requires
        !(other is Int),
    ensures
        c.pushed(vm, heap).0 == heap,
        c.pushed(vm, heap).1 matches Ok(Val::Int(code)) && code == c as int,
        0 <= i < 0xD800 || 0xE000 <= i <= 0x10FFFF ==> (<char as Getable>::got(
            Val::Int(i),
        ) matches Some(d) && d as int == i),
        0xD800 <= i < 0xE000 || 0x10FFFF < i <= 0xFFFF_FFFF ==> <char as Getable>::got(
            Val::Int(i),
        ) is None,
        <char as Getable>::got(other) is None,
        <char as Getable>::got_rooted(Val::Int(i)) == <char as Getable>::got(Val::Int(i)),
{
}

/// Texts are stored as they are, however the host holds them, and only texts are read as texts.
pub proof fn law_texts_are_stored(
    text: String,
    part: &str,
    value: Val,
    vm: &Thread,
    heap: Heap,
)
    ensures
        text.pushed(vm, heap) == stored(heap, text@.len(), Val::Text(text@)),
        (&text).pushed(vm, heap) == stored(heap, text@.len(), Val::Text(text@)),
        part.pushed(vm, heap) == stored(heap, part@.len(), Val::Text(part@)),
        match value {
            Val::Text(found) => <String as Getable>::got(value) == Some(found),
            _ => <String as Getable>::got(value) is None,
        },
        <&str as Getable>::got(value) == <String as Getable>::got(value),
        <&str as Getable>::got_rooted(value) == <String as Getable>::got(value),
        <String as Getable>::got_rooted(value) == <String as Getable>::got(value),
        <scalar::RootStr as Getable>::got(value) == <String as Getable>::got(value),
        <scalar::RootStr as Getable>::got_rooted(value) == <String as Getable>::got(value),
        text.image() == text@,
        part.image() == part@,
{
}

/// A slice is an array of the elements, in order.
pub proof fn law_slices_are_arrays<T: ArrayRepr + Copy>(slice: &[T], vm: &Thread, heap: Heap)
    ensures
        slice.pushed(vm, heap) == stored(
            heap,
            slice@.len(),
            Val::Array(Seq::new(slice@.len(), |i: int| slice@[i].element())),
        ),
{
}

/// An array is read as a slice if and only if each element is of the right kind; then the slice has
/// the elements in order.
pub proof fn law_arrays_are_read_as_slices<T: ArrayRepr>(values: Seq<Val>, other: Val)
    requires
        !(other is Array),
    ensures
        match scalar::slice_got::<T>(Val::Array(values)) {
            Some(found) => found.len() == values.len() && forall|i: int|
                0 <= i < values.len() ==> T::taken(#[trigger] values[i]) == Some(found[i]),
            None => exists|i: int| 0 <= i < values.len() && T::taken(#[trigger] values[i]) is None,
        },
        scalar::slice_got::<T>(other) is None,
{
}

/// The elements of slices are bytes, integers and floating point numbers, each as it is.
pub proof fn law_elements_of_slices(b: u8, i: i64, float: Float, value: Val)
    ensures
        b.element() == Val::Byte(b),
        i.element() == Val::Int(i),
        float.element() == Val::Float(float.0),
        <u8 as ArrayRepr>::taken(value) == (match value {
            Val::Byte(x) => Some(x),
            _ => None,
        }),
        <i64 as ArrayRepr>::taken(value) == (match value {
            Val::Int(x) => Some(x),
            _ => None,
        }),
        <Float as ArrayRepr>::taken(value) == (match value {
            Val::Float(bits) => Some(Float(bits)),
            _ => None,
        }),
{
}

/// What the host sees of a value: data in both forms is data, and functions and threads are
/// internal.
pub proof fn law_values_are_shown(value: Val)
    ensures
        match value_ref::shown(value) {
            Shown::Byte(b) => value == Val::Byte(b),
            Shown::Int(i) => value == Val::Int(i),
            Shown::Float(bits) => value == Val::Float(bits),
            Shown::Text(text) => value == Val::Text(text),
            Shown::Data(data) => value == data && (value is Data || value is Tag),
            Shown::Array(values) => value == Val::Array(values),
            Shown::Userdata(userdata) => value == Val::Userdata(userdata),
            Shown::Internal => value is Function || value is Closure || value is PartialApplication
                || value is Thread,
        },
        !(value_ref::shown(value) is Internal) <==> !(value is Function) && !(value is Closure)
            && !(value is PartialApplication) && !(value is Thread),
{
}

/// Data has the tag and the fields that it was made with; a variant without fields has none.
pub proof fn law_data_has_its_parts(tag: u32, fields: Seq<Val>)
    ensures
        value_ref::tag_of(Val::Tag(tag)) == tag,
        value_ref::tag_of(Val::Data(tag, fields)) == tag,
        value_ref::fields_of(Val::Tag(tag)) == Seq::<Val>::empty(),
        value_ref::fields_of(Val::Data(tag, fields)) == fields,
{
}

/// `None` is the first variant, without fields.
pub proof fn law_nothing_is_the_first_variant<'vm, T: Pushable<'vm>>(
    nothing: Option<T>,
    vm: &Thread,
    heap: Heap,
)
    requires
        nothing is None,
    ensures
        nothing.pushed(vm, heap) == (heap, Ok::<Val, Failure>(Val::Tag(0))),
{
}

/// A variant with a single field.
pub open spec fn wrapped(outcome: (Heap, Result<Val, Failure>), tag: u32) -> (
    Heap,
    Result<Val, Failure>,
) {
    match outcome.1 {
        Ok(value) => stored(outcome.0, 1, Val::Data(tag, seq![value])),
        Err(failure) => outcome,
    }
}

/// `Some` is the second variant, around the value; where the value fails, so does all.
pub proof fn law_something_is_the_second_variant<'vm, T: Pushable<'vm>>(
    value: T,
    vm: &Thread,
    heap: Heap,
)
    ensures
        Some(value).pushed(vm, heap) == wrapped(value.pushed(vm, heap), 1),
{
    lemma_one_part(value, vm, heap);
}

/// `Err` is the first variant around its value, and `Ok` the second.
pub proof fn law_results_are_variants<'vm, T: Pushable<'vm>, E: Pushable<'vm>>(
    ok: T,
    err: E,
    vm: &Thread,
    heap: Heap,
)
    ensures
        Ok::<T, E>(ok).pushed(vm, heap) == wrapped(ok.pushed(vm, heap), 1),
        Err::<T, E>(err).pushed(vm, heap) == wrapped(err.pushed(vm, heap), 0),
{
    lemma_one_part(ok, vm, heap);
    lemma_one_part(err, vm, heap);
}

proof fn lemma_one_part<'vm, T: Pushable<'vm>>(value: T, vm: &Thread, heap: Heap)
    ensures
        forall|tag: u32|
            #[trigger] compound::packed(
                compound::joined(compound::no_parts(heap), vm, value),
                tag,
            ) == wrapped(value.pushed(vm, heap), tag),
{
    if let Ok(found) = value.pushed(vm, heap).1 {
        assert(Seq::<Val>::empty().push(found) =~= seq![found]);
    }
}

/// The first variant is read as `None`, and any other as `Some` of what its first field is; what
/// is no variant is not read.
pub proof fn law_options_are_read<'vm, T: Getable<'vm>>(
    tag: u32,
    fields: Seq<Val>,
    other: Val,
)
    requires
        !(other is Data),
        !(other is Tag),
    ensures
        <Option<T> as Getable>::got(Val::Tag(0)) == Some(None::<T::Image>),
        <Option<T> as Getable>::got(Val::Data(0, fields)) == Some(None::<T::Image>),
        tag != 0 ==> <Option<T> as Getable>::got(Val::Data(tag, fields)) == (match T::got(
            fields[0],
        ) {
            Some(image) => Some(Some(image)),
            None => None,
        }),
        <Option<T> as Getable>::got(other) is None,
        <Option<T> as Getable>::got_rooted(Val::Data(tag, fields)) == <Option<T> as Getable>::got(
            Val::Data(tag, fields),
        ),
{
}

/// The first variant is read as `Err` of what its first field is, the second one as `Ok`, and
/// nothing else is read.
pub proof fn law_results_are_read<'vm, T: Getable<'vm>, E: Getable<'vm>>(
    tag: u32,
    fields: Seq<Val>,
    other: Val,
)
    requires
        !(other is Data),
        !(other is Tag),
    ensures
        <Result<T, E> as Getable>::got(Val::Data(0, fields)) == (match E::got(fields[0]) {
            Some(image) => Some(Err::<T::Image, E::Image>(image)),
            None => None,
        }),
        <Result<T, E> as Getable>::got(Val::Data(1, fields)) == (match T::got(fields[0]) {
            Some(image) => Some(Ok::<T::Image, E::Image>(image)),
            None => None,
        }),
        tag > 1 ==> <Result<T, E> as Getable>::got(Val::Data(tag, fields)) is None,
        <Result<T, E> as Getable>::got(other) is None,
        <Result<T, E> as Getable>::got_rooted(Val::Data(tag, fields)) == <Result<
            T,
            E,
        > as Getable>::got(Val::Data(tag, fields)),
{
}

/// The parts of a sequence are pushed from the first to the last, each on the memory that the
/// others have left; the first failure is that of all.
pub proof fn law_parts_are_pushed_in_order<'vm, T: Pushable<'vm>>(
    items: Seq<T>,
    last: T,
    vm: &Thread,
    heap: Heap,
)
    ensures
        compound::all_joined(Seq::<T>::empty(), vm, heap) == (
            heap,
            Ok::<Seq<Val>, Failure>(Seq::empty()),
        ),
        compound::all_joined(items.push(last), vm, heap) == ({
            let before = compound::all_joined(items, vm, heap);
            match before.1 {
                Ok(values) => {
                    let (after, outcome) = last.pushed(vm, before.0);
                    match outcome {
                        Ok(value) => (after, Ok::<Seq<Val>, Failure>(values + seq![value])),
                        Err(failure) => (after, Err(failure)),
                    }
                },
                Err(failure) => (before.0, Err(failure)),
            }
        }),
{
    assert(items.push(last).drop_last() =~= items);
    let before = compound::all_joined(items, vm, heap);
    if let Ok(values) = before.1 {
        if let Ok(value) = last.pushed(vm, before.0).1 {
            assert(values.push(value) =~= values + seq![value]);
        }
    }
}

/// A vector is an array of what its elements are.
pub proof fn law_vectors_are_arrays<'vm, T: Pushable<'vm>>(items: Vec<T>, vm: &Thread, heap: Heap)
    ensures
        items.pushed(vm, heap) == ({
            let parts = compound::all_joined(items@, vm, heap);
            match parts.1 {
                Ok(values) => stored(parts.0, values.len(), Val::Array(values)),
                Err(failure) => (parts.0, Err::<Val, Failure>(failure)),
            }
        }),
{
}

/// A vector of integers is the array of those integers, in order.
pub proof fn law_integers_stay_in_order(items: Seq<i64>, vm: &Thread, heap: Heap)
    ensures
        compound::all_joined(items, vm, heap) == (
            heap,
            Ok::<Seq<Val>, Failure>(Seq::new(items.len(), |i: int| Val::Int(items[i]))),
        ),
    decreases items.len(),
{
    let found = Seq::new(items.len(), |i: int| Val::Int(items[i]));
    if items.len() == 0 {
        assert(found =~= Seq::empty());
    } else {
        let rest = items.drop_last();
        law_integers_stay_in_order(rest, vm, heap);
        let before = Seq::new(rest.len(), |i: int| Val::Int(rest[i]));
        assert(before.push(Val::Int(items.last())) =~= found);
    }
}

/// An `IO` action is what it gives, or fails with its message; it is read as what it gives.
pub proof fn law_actions_are_their_values<'vm, T: Pushable<'vm> + Getable<'vm>>(
    value: T,
    message: String,
    val: Val,
    vm: &Thread,
    heap: Heap,
)
    ensures
        IO::Value(value).pushed(vm, heap) == value.pushed(vm, heap),
        IO::<T>::Exception(message).pushed(vm, heap) == (
            heap,
            Err::<Val, Failure>(Failure::Message(message@)),
        ),
        <IO<T> as Getable>::got(val) == (match T::got(val) {
            Some(image) => Some(Some(image)),
            None => None,
        }),
{
}

/// What a function of the host returns is that value; a panic fails with the text of its cause.
pub proof fn law_panics_are_failures<'vm, T: Pushable<'vm>, E: Show>(
    value: T,
    cause: E,
    vm: &Thread,
    heap: Heap,
)
    ensures
        RuntimeResult::<T, E>::Return(value).pushed(vm, heap) == value.pushed(vm, heap),
        RuntimeResult::<T, E>::Panic(cause).pushed(vm, heap) == (
            heap,
            Err::<Val, Failure>(Failure::Message(cause.text())),
        ),
{
}

/// A value with its thread is the value, and is read as the value.
pub proof fn law_threads_do_not_change_values<'vm, T: Pushable<'vm> + Getable<'vm>>(
    pair: WithVM<'vm, T>,
    val: Val,
    vm: &Thread,
    heap: Heap,
)
    ensures
        Pushable::pushed(pair, vm, heap) == pair.value.pushed(vm, heap),
        <WithVM<'vm, T> as Getable>::got(val) == T::got(val),
        <WithVM<'vm, T> as Getable>::got_rooted(val) == T::got_rooted(val),
        pair.image() == pair.value.image(),
        pair.of_thread(vm) ==> *pair.vm == *vm,
{
}

/// A value of the host is stored as its kind and its handle, and is found again under its own kind
/// only.
pub proof fn law_userdata_is_told_apart<'vm, T: Userdata>(
    item: T,
    userdata: UserdataPtr,
    other: Val,
    vm: &Thread,
    heap: Heap,
)
    requires
        !(other is Userdata),
    ensures
        Pushable::pushed(item, vm, heap) == stored(
            heap,
            1,
            Val::Userdata(UserdataPtr { kind: T::kind(), handle: item.handle() }),
        ),
        userdata.kind == T::kind() ==> roles::downcast::<T>(Val::Userdata(userdata)) == Some(
            userdata.handle,
        ),
        userdata.kind != T::kind() ==> roles::downcast::<T>(Val::Userdata(userdata)) is None,
        roles::downcast::<T>(other) is None,
{
}

/// A generic value is handed through as it is.
pub proof fn law_generic_values_are_handed_through<'vm, T: crate::api::VmType>(
    item: Generic<T>,
    val: Val,
    vm: &Thread,
    heap: Heap,
)
    ensures
        Pushable::pushed(item, vm, heap) == (heap, Ok::<Val, Failure>(item.0.model())),
        <Generic<T> as Getable>::got(val) == Some(val),
        <Generic<T> as Getable>::got_rooted(val) == Some(val),
        item.image() == item.0.model(),
{
}

/// What is pushed in the place of a reference is what the reference would be.
pub proof fn law_references_are_pushed_as_what_they_name<T: ArrayRepr + Copy>(
    text: PushAsRef<String, str>,
    slice: PushAsRef<Vec<T>, [T]>,
    vm: &Thread,
    heap: Heap,
)
    ensures
        text.pushed(vm, heap) == stored(heap, text.inner()@.len(), Val::Text(text.inner()@)),
        slice.pushed(vm, heap) == stored(
            heap,
            slice.inner()@.len(),
            Val::Array(Seq::new(slice.inner()@.len(), |i: int| slice.inner()@[i].element())),
        ),
{
}

/// Values of the host are found by their kind; a borrowed one is only given out while it is kept
/// alive.
pub proof fn law_userdata_is_found<'vm, T: Userdata>(value: Val, root: Root<T>, item: UserdataRef<T>)
    ensures
        <Root<T> as Getable>::got(value) == roles::downcast::<T>(value),
        <Root<T> as Getable>::got_rooted(value) == roles::downcast::<T>(value),
        <UserdataRef<T> as Getable>::got(value) is None,
        <UserdataRef<T> as Getable>::got_rooted(value) == roles::downcast::<T>(value),
        root.image() == root.0.handle(),
        item.image() == item.0.handle(),
{
}

/// What the host sees of a value is the value itself.
pub proof fn law_images_are_the_values<'vm>(
    truth: bool,
    byte: u8,
    a: i16,
    b: i32,
    c: i64,
    d: u16,
    e: u32,
    f: u64,
    g: usize,
    h: isize,
    letter: char,
    text: scalar::RootStr,
    value: Value,
)
    ensures
        truth.image() == truth,
        byte.image() == byte,
        a.image() == a,
        b.image() == b,
        c.image() == c,
        d.image() == d,
        e.image() == e,
        f.image() == f,
        g.image() == g,
        h.image() == h,
        letter.image() == letter,
        text.image() == text.0@,
        value.image() == value.model(),
{
}

/// What the host sees of a compound value is made of what it sees of the parts.
pub proof fn law_images_of_compounds<'vm, T: Getable<'vm>, E: Getable<'vm>>(
    ok: T,
    err: E,
    message: String,
)
    ensures
        Some(ok).image() == Some(ok.image()),
        None::<T>.image() == None::<T::Image>,
        Ok::<T, E>(ok).image() == Ok::<T::Image, E::Image>(ok.image()),
        Err::<T, E>(err).image() == Err::<T::Image, E::Image>(err.image()),
        IO::Value(ok).image() == Some(ok.image()),
        IO::<T>::Exception(message).image() == None::<T::Image>,
        (ok, err).image() == (ok.image(), err.image()),
        (ok, err, ok).image() == (ok.image(), err.image(), ok.image()),
        (ok, err, ok, err).image() == (ok.image(), err.image(), ok.image(), err.image()),
        (ok, err, ok, err, ok).image() == (
            ok.image(),
            err.image(),
            ok.image(),
            err.image(),
            ok.image(),
        ),
        (ok, err, ok, err, ok, err).image() == (
            ok.image(),
            err.image(),
            ok.image(),
            err.image(),
            ok.image(),
            err.image(),
        ),
        (ok, err, ok, err, ok, err, ok).image() == (
            ok.image(),
            err.image(),
            ok.image(),
            err.image(),
            ok.image(),
            err.image(),
            ok.image(),
        ),
{
}

/// What a compound value holds of a thread is that of its parts.
pub proof fn law_parts_belong_to_the_thread<'vm, T: Getable<'vm>, E: Getable<'vm>>(
    ok: T,
    err: E,
    vm: &Thread,
)
    ensures
        Some(ok).of_thread(vm) ==> ok.of_thread(vm),
        Ok::<T, E>(ok).of_thread(vm) ==> ok.of_thread(vm),
        Err::<T, E>(err).of_thread(vm) ==> err.of_thread(vm),
        IO::Value(ok).of_thread(vm) ==> ok.of_thread(vm),
        Getable::of_thread((ok, err), vm) ==> ok.of_thread(vm) && err.of_thread(vm),
        Getable::of_thread((ok, err, ok), vm) ==> ok.of_thread(vm) && err.of_thread(vm),
        Getable::of_thread((ok, err, ok, err), vm) ==> ok.of_thread(vm) && err.of_thread(vm),
        Getable::of_thread((ok, err, ok, err, ok), vm) ==> ok.of_thread(vm) && err.of_thread(vm),
{
}

/// A tuple of two is data of what its parts are, in order; each is pushed on the memory that the
/// others have left, and the first failure is that of all.
pub proof fn law_tuples_of_two_are_data<
    'vm,
    A: Pushable<'vm>,
    B: Pushable<'vm>,
>(
    a: A,
    b: B,
    vm: &Thread,
    heap: Heap,
)
    ensures
        (a, b).pushed(vm, heap) == ({
            let p0 = a.pushed(vm, heap);
            let p1 = b.pushed(vm, p0.0);
            match (p0.1, p1.1) {
                (Err(failure), _) => (p0.0, Err::<Val, Failure>(failure)),
                (Ok(_), Err(failure)) => (p1.0, Err::<Val, Failure>(failure)),
                (Ok(v0), Ok(v1)) => stored(
                    p1.0,
                    2,
                    Val::Data(0, seq![v0, v1]),
                ),
            }
        }),
{
    let p0 = a.pushed(vm, heap);
    let p1 = b.pushed(vm, p0.0);
    if let (Ok(v0), Ok(v1)) = (p0.1, p1.1) {
        assert(Seq::<Val>::empty().push(v0).push(v1) =~= seq![v0, v1]);
    }
}

/// Data with two fields is read as a tuple of what the fields are, in order, if each can be read.
pub proof fn law_tuples_of_two_are_read<
    'vm,
    A: Getable<'vm>,
    B: Getable<'vm>,
>(tag: u32, fields: Seq<Val>, other: Val)
    requires
        !(other is Data),
        !(other is Tag),
    ensures
        <(A, B) as Getable>::got(Val::Data(tag, fields)) is Some <==> A::got(fields[0]) is Some && B::got(fields[1]) is Some,
        <(A, B) as Getable>::got(Val::Data(tag, fields)) matches Some(image) ==> A::got(fields[0]) == Some(image.0) && B::got(fields[1]) == Some(image.1),
        <(A, B) as Getable>::got(other) is None,
        <(A, B) as Getable>::got_rooted(Val::Data(tag, fields)) == <(A, B) as Getable>::got(
            Val::Data(tag, fields),
        ),
{
}

/// A tuple of three is data of what its parts are, in order; each is pushed on the memory that the
/// others have left, and the first failure is that of all.
pub proof fn law_tuples_of_three_are_data<
    'vm,
    A: Pushable<'vm>,
    B: Pushable<'vm>,
    C: Pushable<'vm>,
>(
    a: A,
    b: B,
    c: C,
    vm: &Thread,
    heap: Heap,
)
    ensures
        (a, b, c).pushed(vm, heap) == ({
            let p0 = a.pushed(vm, heap);
            let p1 = b.pushed(vm, p0.0);
            let p2 = c.pushed(vm, p1.0);
            match (p0.1, p1.1, p2.1) {
                (Err(failure), _, _) => (p0.0, Err::<Val, Failure>(failure)),
                (Ok(_), Err(failure), _) => (p1.0, Err::<Val, Failure>(failure)),
                (Ok(_), Ok(_), Err(failure)) => (p2.0, Err::<Val, Failure>(failure)),
                (Ok(v0), Ok(v1), Ok(v2)) => stored(
                    p2.0,
                    3,
                    Val::Data(0, seq![v0, v1, v2]),
                ),
            }
        }),
{
    let p0 = a.pushed(vm, heap);
    let p1 = b.pushed(vm, p0.0);
    let p2 = c.pushed(vm, p1.0);
    if let (Ok(v0), Ok(v1), Ok(v2)) = (p0.1, p1.1, p2.1) {
        assert(Seq::<Val>::empty().push(v0).push(v1).push(v2) =~= seq![v0, v1, v2]);
    }
}

/// Data with three fields is read as a tuple of what the fields are, in order, if each can be read.
pub proof fn law_tuples_of_three_are_read<
    'vm,
    A: Getable<'vm>,
    B: Getable<'vm>,
    C: Getable<'vm>,
>(tag: u32, fields: Seq<Val>, other: Val)
    requires
        !(other is Data),
        !(other is Tag),
    ensures
        <(A, B, C) as Getable>::got(Val::Data(tag, fields)) is Some <==> A::got(fields[0]) is Some && B::got(fields[1]) is Some && C::got(fields[2]) is Some,
        <(A, B, C) as Getable>::got(Val::Data(tag, fields)) matches Some(image) ==> A::got(fields[0]) == Some(image.0) && B::got(fields[1]) == Some(image.1) && C::got(fields[2]) == Some(image.2),
        <(A, B, C) as Getable>::got(other) is None,
        <(A, B, C) as Getable>::got_rooted(Val::Data(tag, fields)) == <(A, B, C) as Getable>::got(
            Val::Data(tag, fields),
        ),
{
}

/// A tuple of four is data of what its parts are, in order; each is pushed on the memory that the
/// others have left, and the first failure is that of all.
pub proof fn law_tuples_of_four_are_data<
    'vm,
    A: Pushable<'vm>,
    B: Pushable<'vm>,
    C: Pushable<'vm>,
    D: Pushable<'vm>,
>(
    a: A,
    b: B,
    c: C,
    d: D,
    vm: &Thread,
    heap: Heap,
)
    ensures
        (a, b, c, d).pushed(vm, heap) == ({
            let p0 = a.pushed(vm, heap);
            let p1 = b.pushed(vm, p0.0);
            let p2 = c.pushed(vm, p1.0);
            let p3 = d.pushed(vm, p2.0);
            match (p0.1, p1.1, p2.1, p3.1) {
                (Err(failure), _, _, _) => (p0.0, Err::<Val, Failure>(failure)),
                (Ok(_), Err(failure), _, _) => (p1.0, Err::<Val, Failure>(failure)),
                (Ok(_), Ok(_), Err(failure), _) => (p2.0, Err::<Val, Failure>(failure)),
                (Ok(_), Ok(_), Ok(_), Err(failure)) => (p3.0, Err::<Val, Failure>(failure)),
                (Ok(v0), Ok(v1), Ok(v2), Ok(v3)) => stored(
                    p3.0,
                    4,
                    Val::Data(0, seq![v0, v1, v2, v3]),
                ),
            }
        }),
{
    let p0 = a.pushed(vm, heap);
    let p1 = b.pushed(vm, p0.0);
    let p2 = c.pushed(vm, p1.0);
    let p3 = d.pushed(vm, p2.0);
    if let (Ok(v0), Ok(v1), Ok(v2), Ok(v3)) = (p0.1, p1.1, p2.1, p3.1) {
        assert(Seq::<Val>::empty().push(v0).push(v1).push(v2).push(v3) =~= seq![v0, v1, v2, v3]);
    }
}

/// Data with four fields is read as a tuple of what the fields are, in order, if each can be read.
pub proof fn law_tuples_of_four_are_read<
    'vm,
    A: Getable<'vm>,
    B: Getable<'vm>,
    C: Getable<'vm>,
    D: Getable<'vm>,
>(tag: u32, fields: Seq<Val>, other: Val)
    requires
        !(other is Data),
        !(other is Tag),
    ensures
        <(A, B, C, D) as Getable>::got(Val::Data(tag, fields)) is Some <==> A::got(fields[0]) is Some && B::got(fields[1]) is Some && C::got(fields[2]) is Some && D::got(fields[3]) is Some,
        <(A, B, C, D) as Getable>::got(Val::Data(tag, fields)) matches Some(image) ==> A::got(fields[0]) == Some(image.0) && B::got(fields[1]) == Some(image.1) && C::got(fields[2]) == Some(image.2) && D::got(fields[3]) == Some(image.3),
        <(A, B, C, D) as Getable>::got(other) is None,
        <(A, B, C, D) as Getable>::got_rooted(Val::Data(tag, fields)) == <(A, B, C, D) as Getable>::got(
            Val::Data(tag, fields),
        ),
{
}

/// A tuple of five is data of what its parts are, in order; each is pushed on the memory that the
/// others have left, and the first failure is that of all.
pub proof fn law_tuples_of_five_are_data<
    'vm,
    A: Pushable<'vm>,
    B: Pushable<'vm>,
    C: Pushable<'vm>,
    D: Pushable<'vm>,
    E: Pushable<'vm>,
>(
    a: A,
    b: B,
    c: C,
    d: D,
    e: E,
    vm: &Thread,
    heap: Heap,
)
    ensures
        (a, b, c, d, e).pushed(vm, heap) == ({
            let p0 = a.pushed(vm, heap);
            let p1 = b.pushed(vm, p0.0);
            let p2 = c.pushed(vm, p1.0);
            let p3 = d.pushed(vm, p2.0);
            let p4 = e.pushed(vm, p3.0);
            match (p0.1, p1.1, p2.1, p3.1, p4.1) {
                (Err(failure), _, _, _, _) => (p0.0, Err::<Val, Failure>(failure)),
                (Ok(_), Err(failure), _, _, _) => (p1.0, Err::<Val, Failure>(failure)),
                (Ok(_), Ok(_), Err(failure), _, _) => (p2.0, Err::<Val, Failure>(failure)),
                (Ok(_), Ok(_), Ok(_), Err(failure), _) => (p3.0, Err::<Val, Failure>(failure)),
                (Ok(_), Ok(_), Ok(_), Ok(_), Err(failure)) => (p4.0, Err::<Val, Failure>(failure)),
                (Ok(v0), Ok(v1), Ok(v2), Ok(v3), Ok(v4)) => stored(
                    p4.0,
                    5,
                    Val::Data(0, seq![v0, v1, v2, v3, v4]),
                ),
            }
        }),
{
    let p0 = a.pushed(vm, heap);
    let p1 = b.pushed(vm, p0.0);
    let p2 = c.pushed(vm, p1.0);
    let p3 = d.pushed(vm, p2.0);
    let p4 = e.pushed(vm, p3.0);
    if let (Ok(v0), Ok(v1), Ok(v2), Ok(v3), Ok(v4)) = (p0.1, p1.1, p2.1, p3.1, p4.1) {
        assert(Seq::<Val>::empty().push(v0).push(v1).push(v2).push(v3).push(v4) =~= seq![v0, v1, v2, v3, v4]);
    }
}

/// Data with five fields is read as a tuple of what the fields are, in order, if each can be read.
pub proof fn law_tuples_of_five_are_read<
    'vm,
    A: Getable<'vm>,
    B: Getable<'vm>,
    C: Getable<'vm>,
    D: Getable<'vm>,
    E: Getable<'vm>,
>(tag: u32, fields: Seq<Val>, other: Val)
    requires
        !(other is Data),
        !(other is Tag),
    ensures
        <(A, B, C, D, E) as Getable>::got(Val::Data(tag, fields)) is Some <==> A::got(fields[0]) is Some && B::got(fields[1]) is Some && C::got(fields[2]) is Some && D::got(fields[3]) is Some && E::got(fields[4]) is Some,
        <(A, B, C, D, E) as Getable>::got(Val::Data(tag, fields)) matches Some(image) ==> A::got(fields[0]) == Some(image.0) && B::got(fields[1]) == Some(image.1) && C::got(fields[2]) == Some(image.2) && D::got(fields[3]) == Some(image.3) && E::got(fields[4]) == Some(image.4),
        <(A, B, C, D, E) as Getable>::got(other) is None,
        <(A, B, C, D, E) as Getable>::got_rooted(Val::Data(tag, fields)) == <(A, B, C, D, E) as Getable>::got(
            Val::Data(tag, fields),
        ),
{
}

/// A tuple of six is data of what its parts are, in order; each is pushed on the memory that the
/// others have left, and the first failure is that of all.
pub proof fn law_tuples_of_six_are_data<
    'vm,
    A: Pushable<'vm>,
    B: Pushable<'vm>,
    C: Pushable<'vm>,
    D: Pushable<'vm>,
    E: Pushable<'vm>,
    F: Pushable<'vm>,
>(
    a: A,
    b: B,
    c: C,
    d: D,
    e: E,
    f: F,
    vm: &Thread,
    heap: Heap,
)
    ensures
        (a, b, c, d, e, f).pushed(vm, heap) == ({
            let p0 = a.pushed(vm, heap);
            let p1 = b.pushed(vm, p0.0);
            let p2 = c.pushed(vm, p1.0);
            let p3 = d.pushed(vm, p2.0);
            let p4 = e.pushed(vm, p3.0);
            let p5 = f.pushed(vm, p4.0);
            match (p0.1, p1.1, p2.1, p3.1, p4.1, p5.1) {
                (Err(failure), _, _, _, _, _) => (p0.0, Err::<Val, Failure>(failure)),
                (Ok(_), Err(failure), _, _, _, _) => (p1.0, Err::<Val, Failure>(failure)),
                (Ok(_), Ok(_), Err(failure), _, _, _) => (p2.0, Err::<Val, Failure>(failure)),
                (Ok(_), Ok(_), Ok(_), Err(failure), _, _) => (p3.0, Err::<Val, Failure>(failure)),
                (Ok(_), Ok(_), Ok(_), Ok(_), Err(failure), _) => (p4.0, Err::<Val, Failure>(failure)),
                (Ok(_), Ok(_), Ok(_), Ok(_), Ok(_), Err(failure)) => (p5.0, Err::<Val, Failure>(failure)),
                (Ok(v0), Ok(v1), Ok(v2), Ok(v3), Ok(v4), Ok(v5)) => stored(
                    p5.0,
                    6,
                    Val::Data(0, seq![v0, v1, v2, v3, v4, v5]),
                ),
            }
        }),
{
    let p0 = a.pushed(vm, heap);
    let p1 = b.pushed(vm, p0.0);
    let p2 = c.pushed(vm, p1.0);
    let p3 = d.pushed(vm, p2.0);
    let p4 = e.pushed(vm, p3.0);
    let p5 = f.pushed(vm, p4.0);
    if let (Ok(v0), Ok(v1), Ok(v2), Ok(v3), Ok(v4), Ok(v5)) = (p0.1, p1.1, p2.1, p3.1, p4.1, p5.1) {
        assert(Seq::<Val>::empty().push(v0).push(v1).push(v2).push(v3).push(v4).push(v5) =~= seq![v0, v1, v2, v3, v4, v5]);
    }
}

/// Data with six fields is read as a tuple of what the fields are, in order, if each can be read.
pub proof fn law_tuples_of_six_are_read<
    'vm,
    A: Getable<'vm>,
    B: Getable<'vm>,
    C: Getable<'vm>,
    D: Getable<'vm>,
    E: Getable<'vm>,
    F: Getable<'vm>,
>(tag: u32, fields: Seq<Val>, other: Val)
    requires
        !(other is Data),
        !(other is Tag),
    ensures
        <(A, B, C, D, E, F) as Getable>::got(Val::Data(tag, fields)) is Some <==> A::got(fields[0]) is Some && B::got(fields[1]) is Some && C::got(fields[2]) is Some && D::got(fields[3]) is Some && E::got(fields[4]) is Some && F::got(fields[5]) is Some,
        <(A, B, C, D, E, F) as Getable>::got(Val::Data(tag, fields)) matches Some(image) ==> A::got(fields[0]) == Some(image.0) && B::got(fields[1]) == Some(image.1) && C::got(fields[2]) == Some(image.2) && D::got(fields[3]) == Some(image.3) && E::got(fields[4]) == Some(image.4) && F::got(fields[5]) == Some(image.5),
        <(A, B, C, D, E, F) as Getable>::got(other) is None,
        <(A, B, C, D, E, F) as Getable>::got_rooted(Val::Data(tag, fields)) == <(A, B, C, D, E, F) as Getable>::got(
            Val::Data(tag, fields),
        ),
{
}

/// A tuple of seven is data of what its parts are, in order; each is pushed on the memory that the
/// others have left, and the first failure is that of all.
pub proof fn law_tuples_of_seven_are_data<
    'vm,
    A: Pushable<'vm>,
    B: Pushable<'vm>,
    C: Pushable<'vm>,
    D: Pushable<'vm>,
    E: Pushable<'vm>,
    F: Pushable<'vm>,
    G: Pushable<'vm>,
>(
    a: A,
    b: B,
    c: C,
    d: D,
    e: E,
    f: F,
    g: G,
    vm: &Thread,
    heap: Heap,
)
    ensures
        (a, b, c, d, e, f, g).pushed(vm, heap) == ({
            let p0 = a.pushed(vm, heap);
            let p1 = b.pushed(vm, p0.0);
            let p2 = c.pushed(vm, p1.0);
            let p3 = d.pushed(vm, p2.0);
            let p4 = e.pushed(vm, p3.0);
            let p5 = f.pushed(vm, p4.0);
            let p6 = g.pushed(vm, p5.0);
            match (p0.1, p1.1, p2.1, p3.1, p4.1, p5.1, p6.1) {
                (Err(failure), _, _, _, _, _, _) => (p0.0, Err::<Val, Failure>(failure)),
                (Ok(_), Err(failure), _, _, _, _, _) => (p1.0, Err::<Val, Failure>(failure)),
                (Ok(_), Ok(_), Err(failure), _, _, _, _) => (p2.0, Err::<Val, Failure>(failure)),
                (Ok(_), Ok(_), Ok(_), Err(failure), _, _, _) => (p3.0, Err::<Val, Failure>(failure)),
                (Ok(_), Ok(_), Ok(_), Ok(_), Err(failure), _, _) => (p4.0, Err::<Val, Failure>(failure)),
                (Ok(_), Ok(_), Ok(_), Ok(_), Ok(_), Err(failure), _) => (p5.0, Err::<Val, Failure>(failure)),
                (Ok(_), Ok(_), Ok(_), Ok(_), Ok(_), Ok(_), Err(failure)) => (p6.0, Err::<Val, Failure>(failure)),
                (Ok(v0), Ok(v1), Ok(v2), Ok(v3), Ok(v4), Ok(v5), Ok(v6)) => stored(
                    p6.0,
                    7,
                    Val::Data(0, seq![v0, v1, v2, v3, v4, v5, v6]),
                ),
            }
        }),
{
    let p0 = a.pushed(vm, heap);
    let p1 = b.pushed(vm, p0.0);
    let p2 = c.pushed(vm, p1.0);
    let p3 = d.pushed(vm, p2.0);
    let p4 = e.pushed(vm, p3.0);
    let p5 = f.pushed(vm, p4.0);
    let p6 = g.pushed(vm, p5.0);
    if let (Ok(v0), Ok(v1), Ok(v2), Ok(v3), Ok(v4), Ok(v5), Ok(v6)) = (p0.1, p1.1, p2.1, p3.1, p4.1, p5.1, p6.1) {
        assert(Seq::<Val>::empty().push(v0).push(v1).push(v2).push(v3).push(v4).push(v5).push(v6) =~= seq![v0, v1, v2, v3, v4, v5, v6]);
    }
}

/// Data with seven fields is read as a tuple of what the fields are, in order, if each can be read.
pub proof fn law_tuples_of_seven_are_read<
    'vm,
    A: Getable<'vm>,
    B: Getable<'vm>,
    C: Getable<'vm>,
    D: Getable<'vm>,
    E: Getable<'vm>,
    F: Getable<'vm>,
    G: Getable<'vm>,
>(tag: u32, fields: Seq<Val>, other: Val)
    requires
        !(other is Data),
        !(other is Tag),
    ensures
        <(A, B, C, D, E, F, G) as Getable>::got(Val::Data(tag, fields)) is Some <==> A::got(fields[0]) is Some && B::got(fields[1]) is Some && C::got(fields[2]) is Some && D::got(fields[3]) is Some && E::got(fields[4]) is Some && F::got(fields[5]) is Some && G::got(fields[6]) is Some,
        <(A, B, C, D, E, F, G) as Getable>::got(Val::Data(tag, fields)) matches Some(image) ==> A::got(fields[0]) == Some(image.0) && B::got(fields[1]) == Some(image.1) && C::got(fields[2]) == Some(image.2) && D::got(fields[3]) == Some(image.3) && E::got(fields[4]) == Some(image.4) && F::got(fields[5]) == Some(image.5) && G::got(fields[6]) == Some(image.6),
        <(A, B, C, D, E, F, G) as Getable>::got(other) is None,
        <(A, B, C, D, E, F, G) as Getable>::got_rooted(Val::Data(tag, fields)) == <(A, B, C, D, E, F, G) as Getable>::got(
            Val::Data(tag, fields),
        ),
{
}

} // verus!
