//! When values are equal, and what copies of them take.
use vstd::prelude::*;
use crate::deep_clone;
use crate::machine::{Failure, Heap};
use crate::value;
use crate::value::{Val, Value};
use crate::value_ref;

verus! {

/// There is a floating point number in the value.
pub open spec fn has_float(val: Val) -> bool
    decreases val,
{
    match val {
        Val::Float(_) => true,
        Val::Data(_, fields) => exists|i: int| 0 <= i < fields.len() && has_float(#[trigger] fields[i]),
        Val::Array(values) => exists|i: int|
            0 <= i < values.len() && has_float(#[trigger] values[i]),
        _ => false,
    }
}

/// Values without floating point numbers are equal if and only if they are the same.
pub proof fn law_equal_values_are_the_same(a: Val, b: Val)
    requires
        !has_float(a),
    ensures
        value::same_val(a, b) <==> a == b,
    decreases a,
{
    match (a, b) {
        (Val::Data(_, xs), Val::Data(_, ys)) => {
            lemma_equal_lists_are_the_same(xs, ys);
        },
        (Val::Array(xs), Val::Array(ys)) => {
            lemma_equal_lists_are_the_same(xs, ys);
        },
        _ => {},
    }
}

proof fn lemma_equal_lists_are_the_same(xs: Seq<Val>, ys: Seq<Val>)
    requires
        forall|i: int| 0 <= i < xs.len() ==> !has_float(#[trigger] xs[i]),
    ensures
        xs.len() == ys.len() && (forall|i: int|
            0 <= i < xs.len() ==> value::same_val(#[trigger] xs[i], ys[i])) <==> xs == ys,
    decreases xs,
{
    if xs.len() == ys.len() {
        assert forall|i: int| 0 <= i < xs.len() implies value::same_val(#[trigger] xs[i], ys[i])
            == (xs[i] == ys[i]) by {
            law_equal_values_are_the_same(xs[i], ys[i]);
        }
        if forall|i: int| 0 <= i < xs.len() ==> value::same_val(#[trigger] xs[i], ys[i]) {
            assert(xs =~= ys);
        }
    }
}

/// Data and arrays are equal part by part.
pub proof fn law_compounds_are_equal_by_parts(s: u32, t: u32, xs: Seq<Val>, ys: Seq<Val>)
    ensures
        value::same_val(Val::Array(xs), Val::Array(ys)) <==> xs.len() == ys.len() && forall|i: int|
            0 <= i < xs.len() ==> value::same_val(#[trigger] xs[i], ys[i]),
        value::same_val(Val::Data(s, xs), Val::Data(t, ys)) <==> s == t && value::same_val(
            Val::Array(xs),
            Val::Array(ys),
        ),
        !value::same_val(Val::Data(s, xs), Val::Array(ys)),
{
}

/// Two numbers are equal if their bits are the same or if both are a zero, of either sign; one that
/// is not a number is equal to nothing.
pub proof fn law_floats_are_equal_as_numbers(a: u64, b: u64)
    ensures
        ({
            let zero = |bits: u64| bits == 0 || bits == 0x8000_0000_0000_0000;
            let nan = |bits: u64|
                0x7ff0_0000_0000_0000 < bits < 0x8000_0000_0000_0000 || 0xfff0_0000_0000_0000 < bits;
            value::same_val(Val::Float(a), Val::Float(b)) <==> !nan(a) && !nan(b) && (a == b || (
            zero(a) && zero(b)))
        }),
{
}

/// What a host sees of two values is equal if the values are, except that arrays, values of the
/// host and internal values are never seen as equal.
pub proof fn law_shown_values_are_equal(a: Val, b: Val)
    ensures
        value_ref::same_shown(value_ref::shown(a), value_ref::shown(b)) <==> value::same_val(a, b)
            && (a is Byte || a is Int || a is Float || a is Text || a is Data || a is Tag),
{
}

/// How much memory a copy of a value takes.
pub open spec fn cost(val: Val) -> nat
    decreases val,
{
    match val {
        Val::Text(text) => text.len(),
        Val::Data(_, fields) => fields.len() + costs(fields),
        Val::Array(values) => values.len() + costs(values),
        Val::Function(..) => 1,
        Val::Closure(_) => 1,
        Val::PartialApplication(_) => 1,
        _ => 0,
    }
}

/// How much memory copies of several values take together.
pub open spec fn costs(vals: Seq<Val>) -> nat
    decreases vals,
{
    if vals.len() == 0 {
        0
    } else {
        costs(vals.drop_last()) + cost(vals.last())
    }
}

/// There is a value of the host or a thread in the value.
pub open spec fn is_bound(val: Val) -> bool
    decreases val,
{
    match val {
        Val::Userdata(_) => true,
        Val::Thread(_) => true,
        Val::Data(_, fields) => exists|i: int| 0 <= i < fields.len() && is_bound(#[trigger] fields[i]),
        Val::Array(values) => exists|i: int|
            0 <= i < values.len() && is_bound(#[trigger] values[i]),
        _ => false,
    }
}

/// A value can be copied if and only if there is neither a value of the host nor a thread in it and
/// there is memory for all of it, which the copy then takes.
pub proof fn law_copies_take_their_memory(heap: Heap, val: Val)
    requires
        heap.allocated <= heap.limit,
    ensures
        deep_clone::cloned(heap, val).1 is Ok <==> !is_bound(val) && heap.allocated + cost(val)
            <= heap.limit,
        deep_clone::cloned(heap, val).1 is Ok ==> deep_clone::cloned(heap, val) == (
            Heap { allocated: heap.allocated + cost(val), limit: heap.limit },
            Ok::<Val, Failure>(val),
        ),
    decreases val,
{
    deep_clone::law_clones_are_equal(heap, val);
    match val {
        Val::Data(_, fields) => {
            lemma_copies_of_lists(heap, fields);
        },
        Val::Array(values) => {
            lemma_copies_of_lists(heap, values);
        },
        _ => {},
    }
}

proof fn lemma_copies_of_lists(heap: Heap, vals: Seq<Val>)
    requires
        heap.allocated <= heap.limit,
    ensures
        deep_clone::cloned_list(heap, vals).1 is Ok <==> (forall|i: int|
            0 <= i < vals.len() ==> !is_bound(#[trigger] vals[i])) && heap.allocated + costs(vals)
            <= heap.limit,
        deep_clone::cloned_list(heap, vals).1 is Ok ==> deep_clone::cloned_list(heap, vals) == (
            Heap { allocated: heap.allocated + costs(vals), limit: heap.limit },
            Ok::<Seq<Val>, Failure>(vals),
        ),
    decreases vals,
{
    if vals.len() > 0 {
        let first = vals.drop_last();
        let last = vals.last();
        lemma_copies_of_lists(heap, first);
        let parts = deep_clone::cloned_list(heap, first);
        assert forall|i: int| 0 <= i < first.len() implies first[i] == #[trigger] vals[i] by {}
        assert(vals[vals.len() - 1] == last);
        if forall|i: int| 0 <= i < vals.len() ==> !is_bound(#[trigger] vals[i]) {
            assert forall|i: int| 0 <= i < first.len() implies !is_bound(#[trigger] first[i]) by {
                assert(!is_bound(vals[i]));
            }
        }
        if parts.1 is Ok {
            law_copies_take_their_memory(parts.0, last);
            assert(first.push(last) =~= vals);
            if !is_bound(last) {
                assert forall|i: int| 0 <= i < vals.len() implies !is_bound(#[trigger] vals[i]) by {
                    if i < first.len() {
                        assert(!is_bound(first[i]));
                    }
                }
            }
        }
    } else {
        assert(vals =~= Seq::empty());
    }
}

/// What cannot be copied is refused with the reason.
pub proof fn law_bound_values_are_refused(heap: Heap, val: Val)
    ensures
        val is Userdata ==> deep_clone::cloned(heap, val) == (
            heap,
            Err::<Val, Failure>(Failure::Message("Userdata cannot be cloned"@)),
        ),
        val is Thread ==> deep_clone::cloned(heap, val) == (
            heap,
            Err::<Val, Failure>(Failure::Message("Threads cannot be deep cloned yet"@)),
        ),
{
}

/// Values are the same in models only if they are of the same kind and have the same parts, in
/// order.
pub proof fn law_models_tell_values_apart(a: Value, b: Value)
    requires
        a.model() == b.model(),
    ensures
        match (a, b) {
            (Value::Byte(x), Value::Byte(y)) => x == y,
            (Value::Int(x), Value::Int(y)) => x == y,
            (Value::Float(x), Value::Float(y)) => x == y,
            (Value::String(x), Value::String(y)) => x@ == y@,
            (Value::Data(x), Value::Data(y)) => x.tag == y.tag && x.fields@.len() == y.fields@.len()
                && forall|i: int|
                0 <= i < x.fields@.len() ==> (#[trigger] x.fields@[i]).model()
                    == y.fields@[i].model(),
            (Value::Tag(x), Value::Tag(y)) => x == y,
            (Value::Array(x), Value::Array(y)) => x.values@.len() == y.values@.len() && forall|i: int|
                0 <= i < x.values@.len() ==> (#[trigger] x.values@[i]).model()
                    == y.values@[i].model(),
            (Value::Function(x), Value::Function(y)) => x.id@ == y.id@ && x.args == y.args
                && x.function == y.function,
            (Value::Closure(x), Value::Closure(y)) => x == y,
            (Value::PartialApplication(x), Value::PartialApplication(y)) => x == y,
            (Value::Userdata(x), Value::Userdata(y)) => x == y,
            (Value::Thread(x), Value::Thread(y)) => x == y,
            _ => false,
        },
{
    match (a, b) {
        (Value::Data(x), Value::Data(y)) => {
            let m = a.model()->Data_1;
            let n = b.model()->Data_1;
            assert(m.len() == x.fields@.len() && n.len() == y.fields@.len());
            assert forall|i: int| 0 <= i < x.fields@.len() implies (#[trigger] x.fields@[i]).model()
                == y.fields@[i].model() by {
                assert(m[i] == x.fields@[i].model());
                assert(n[i] == y.fields@[i].model());
            }
        },
        (Value::Array(x), Value::Array(y)) => {
            let m = a.model()->Array_0;
            let n = b.model()->Array_0;
            assert(m.len() == x.values@.len() && n.len() == y.values@.len());
            assert forall|i: int| 0 <= i < x.values@.len() implies (#[trigger] x.values@[i]).model()
                == y.values@[i].model() by {
                assert(m[i] == x.values@[i].model());
                assert(n[i] == y.values@[i].model());
            }
        },
        _ => {},
    }
}

} // verus!
