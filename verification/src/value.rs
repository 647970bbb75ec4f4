//! The values of the virtual machine.
use vstd::prelude::*;
use crate::substitution::share;
use std::sync::Arc;
use vstd::std_specs::cmp::PartialEqSpecImpl;

verus! {

/// A position on the stack, or a number of values.
pub type VmIndex = u32;

/// Tells the variants of a data type apart.
pub type VmTag = u32;

/// An integer of the language.
pub type VmInt = i64;

/// A value of the virtual machine.
#[derive(Debug)]
pub enum Value {
    Byte(u8),
    Int(VmInt),
    /// A floating point number, by its bits in the IEEE 754 binary64 format.
    Float(u64),
    String(Arc<String>),
    /// A variant of a data type with fields, or a record.
    Data(Arc<DataStruct>),
    /// A variant of a data type without fields.
    Tag(VmTag),
    Array(Arc<ValueArray>),
    /// A function of the host.
    Function(Arc<ExternFunction>),
    /// A function of the language.
    Closure(u64),
    /// A function to which some of its arguments were given.
    PartialApplication(u64),
    /// A value of the host.
    Userdata(UserdataPtr),
    Thread(u64),
}

/// The fields of a variant or a record.
#[derive(Debug)]
pub struct DataStruct {
    pub tag: VmTag,
    pub fields: Vec<Value>,
}

/// The elements of an array.
#[derive(Debug)]
pub struct ValueArray {
    pub values: Vec<Value>,
}

/// A function of the host: its name, how many arguments it takes, and the number by which the host
/// knows it.
#[derive(Debug)]
pub struct ExternFunction {
    pub id: String,
    pub args: VmIndex,
    pub function: u64,
}

/// A value of the host: the number of its type, and the number by which the host knows it.
#[derive(Clone, Copy, Debug, PartialEq, Eq, Structural)]
pub struct UserdataPtr {
    pub kind: u64,
    pub handle: u64,
}

/// The model of a [`Value`].
pub enum Val {
    Byte(u8),
    Int(VmInt),
    Float(u64),
    Text(Seq<char>),
    Data(VmTag, Seq<Val>),
    Tag(VmTag),
    Array(Seq<Val>),
    Function(Seq<char>, VmIndex, u64),
    Closure(u64),
    PartialApplication(u64),
    Userdata(UserdataPtr),
    Thread(u64),
}

impl Value {
    pub open spec fn model(self) -> Val
        decreases self,
    {
        match self {
            Value::Byte(b) => Val::Byte(b),
            Value::Int(i) => Val::Int(i),
            Value::Float(bits) => Val::Float(bits),
            Value::String(s) => Val::Text(s@),
            Value::Data(data) => Val::Data(
                data.tag,
                Seq::new(
                    data.fields@.len(),
                    |i: int|
                        if 0 <= i < data.fields@.len() {
                            data.fields@[i].model()
                        } else {
                            arbitrary()
                        },
                ),
            ),
            Value::Tag(tag) => Val::Tag(tag),
            Value::Array(array) => Val::Array(
                Seq::new(
                    array.values@.len(),
                    |i: int|
                        if 0 <= i < array.values@.len() {
                            array.values@[i].model()
                        } else {
                            arbitrary()
                        },
                ),
            ),
            Value::Function(function) => Val::Function(
                function.id@,
                function.args,
                function.function,
            ),
            Value::Closure(handle) => Val::Closure(handle),
            Value::PartialApplication(handle) => Val::PartialApplication(handle),
            Value::Userdata(userdata) => Val::Userdata(userdata),
            Value::Thread(thread) => Val::Thread(thread),
        }
    }
}

/// The models of several values.
pub open spec fn models_of(values: Seq<Value>) -> Seq<Val> {
    Seq::new(values.len(), |i: int| values[i].model())
}

/// The model of data holds the models of the fields.
pub proof fn lemma_data_model(value: Value)
    requires
        value is Data,
    ensures
        value.model() == Val::Data(value->Data_0.tag, models_of(value->Data_0.fields@)),
{
    assert(value.model()->Data_1 =~= models_of(value->Data_0.fields@));
}

/// The model of an array holds the models of the elements.
pub proof fn lemma_array_model(value: Value)
    requires
        value is Array,
    ensures
        value.model() == Val::Array(models_of(value->Array_0.values@)),
{
    assert(value.model()->Array_0 =~= models_of(value->Array_0.values@));
}

impl Clone for Value {
    fn clone(&self) -> (copy: Value)
        ensures
            copy == *self,
    {
        match self {
            Value::Byte(b) => Value::Byte(*b),
            Value::Int(i) => Value::Int(*i),
            Value::Float(bits) => Value::Float(*bits),
            Value::String(s) => Value::String(share(s)),
            Value::Data(data) => Value::Data(share(data)),
            Value::Tag(tag) => Value::Tag(*tag),
            Value::Array(array) => Value::Array(share(array)),
            Value::Function(function) => Value::Function(share(function)),
            Value::Closure(handle) => Value::Closure(*handle),
            Value::PartialApplication(handle) => Value::PartialApplication(*handle),
            Value::Userdata(userdata) => Value::Userdata(*userdata),
            Value::Thread(thread) => Value::Thread(*thread),
        }
    }
}

/// The bits of a floating point number without its sign.
pub open spec fn magnitude(bits: u64) -> u64 {
    bits % 0x8000_0000_0000_0000
}

/// Whether two floating point numbers are equal: a number that is not one (NaN) is equal to none,
/// and the two zeros are equal.
pub open spec fn same_float(a: u64, b: u64) -> bool {
    &&& magnitude(a) <= 0x7ff0_0000_0000_0000
    &&& magnitude(b) <= 0x7ff0_0000_0000_0000
    &&& a == b || (magnitude(a) == 0 && magnitude(b) == 0)
}

/// Whether two values are equal: their parts are, one by one.
pub open spec fn same_val(a: Val, b: Val) -> bool
    decreases a,
{
    match (a, b) {
        (Val::Float(x), Val::Float(y)) => same_float(x, y),
        (Val::Data(s, xs), Val::Data(t, ys)) => {
            &&& s == t
            &&& xs.len() == ys.len()
            &&& forall|i: int| 0 <= i < xs.len() ==> same_val(#[trigger] xs[i], ys[i])
        },
        (Val::Array(xs), Val::Array(ys)) => {
            &&& xs.len() == ys.len()
            &&& forall|i: int| 0 <= i < xs.len() ==> same_val(#[trigger] xs[i], ys[i])
        },
        _ => a == b,
    }
}

/// Whether two floating point numbers are equal.
pub fn same_float_bits(a: u64, b: u64) -> (same: bool)
    ensures
        same == same_float(a, b),
{
    let x: u64 = a % 0x8000_0000_0000_0000;
    let y: u64 = b % 0x8000_0000_0000_0000;
    x <= 0x7ff0_0000_0000_0000 && y <= 0x7ff0_0000_0000_0000 && (a == b || (x == 0 && y == 0))
}

/// Whether values are equal, one by one.
fn same_values(a: &Vec<Value>, b: &Vec<Value>) -> (same: bool)
    ensures
        same == (a@.len() == b@.len() && forall|i: int|
            0 <= i < a@.len() ==> same_val((#[trigger] a@[i]).model(), b@[i].model())),
    decreases a,
{
    if a.len() != b.len() {
        return false;
    }
    let mut i: usize = 0;
    while i < a.len()
        invariant
            i <= a.len(),
            a@.len() == b@.len(),
            forall|k: int| 0 <= k < i ==> same_val((#[trigger] a@[k]).model(), b@[k].model()),
            forall|k: int| 0 <= k < a@.len() ==> decreases_to!(a => #[trigger] a@[k]),
        decreases a.len() - i,
    {
        if !a[i].same(&b[i]) {
            return false;
        }
        i = i + 1;
    }
    true
}

impl DataStruct {
    /// Whether the tags and the fields are equal.
    pub fn same(&self, other: &DataStruct) -> (same: bool)
        ensures
            same == (self.tag == other.tag && self.fields@.len() == other.fields@.len() && forall|
                i: int,
            |
                0 <= i < self.fields@.len() ==> same_val(
                    (#[trigger] self.fields@[i]).model(),
                    other.fields@[i].model(),
                )),
        decreases self,
    {
        self.tag == other.tag && same_values(&self.fields, &other.fields)
    }
}

impl Value {
    /// Whether the two values are equal.
    pub fn same(&self, other: &Value) -> (same: bool)
        ensures
            same == same_val(self.model(), other.model()),
        decreases self,
    {
        let ghost a = self.model();
        let ghost b = other.model();
        match (self, other) {
            (Value::Byte(x), Value::Byte(y)) => *x == *y,
            (Value::Int(x), Value::Int(y)) => *x == *y,
            (Value::Float(x), Value::Float(y)) => same_float_bits(*x, *y),
            (Value::String(x), Value::String(y)) => **x == **y,
            (Value::Data(x), Value::Data(y)) => {
                let same = x.same(y);
                proof {
                    lemma_data_model(*self);
                    lemma_data_model(*other);
                    lemma_same_lists(x.fields@, y.fields@, a->Data_1, b->Data_1);
                }
                same
            },
            (Value::Tag(x), Value::Tag(y)) => *x == *y,
            (Value::Array(x), Value::Array(y)) => {
                let same = same_values(&x.values, &y.values);
                proof {
                    lemma_array_model(*self);
                    lemma_array_model(*other);
                    lemma_same_lists(x.values@, y.values@, a->Array_0, b->Array_0);
                }
                same
            },
            (Value::Function(x), Value::Function(y)) => x.id == y.id && x.args == y.args
                && x.function == y.function,
            (Value::Closure(x), Value::Closure(y)) => *x == *y,
            (Value::PartialApplication(x), Value::PartialApplication(y)) => *x == *y,
            (Value::Userdata(x), Value::Userdata(y)) => *x == *y,
            (Value::Thread(x), Value::Thread(y)) => *x == *y,
            _ => false,
        }
    }
}

impl PartialEq for Value {
    fn eq(&self, other: &Value) -> (same: bool) {
        self.same(other)
    }
}

impl PartialEqSpecImpl for Value {
    open spec fn obeys_eq_spec() -> bool {
        true
    }

    open spec fn eq_spec(&self, other: &Value) -> bool {
        same_val(self.model(), other.model())
    }
}

/// Comparing values one by one is comparing their models one by one.
pub proof fn lemma_same_lists(a: Seq<Value>, b: Seq<Value>, xs: Seq<Val>, ys: Seq<Val>)
    requires
        xs == models_of(a),
        ys == models_of(b),
    ensures
        (a.len() == b.len() && forall|i: int|
            0 <= i < a.len() ==> same_val((#[trigger] a[i]).model(), b[i].model())) == (xs.len()
            == ys.len() && forall|i: int| 0 <= i < xs.len() ==> same_val(#[trigger] xs[i], ys[i])),
{
    if a.len() == b.len() {
        if forall|i: int| 0 <= i < a.len() ==> same_val((#[trigger] a[i]).model(), b[i].model()) {
            assert forall|i: int| 0 <= i < xs.len() implies same_val(#[trigger] xs[i], ys[i]) by {
                assert(xs[i] == a[i].model());
            }
        }
        if forall|i: int| 0 <= i < xs.len() ==> same_val(#[trigger] xs[i], ys[i]) {
            assert forall|i: int| 0 <= i < a.len() implies same_val(
                (#[trigger] a[i]).model(),
                b[i].model(),
            ) by {
                assert(xs[i] == a[i].model());
            }
        }
    }
}

/// If one value is equal to another, that one is equal to it.
pub proof fn law_equality_is_symmetric(a: Val, b: Val)
    ensures
        same_val(a, b) == same_val(b, a),
    decreases a,
{
    match (a, b) {
        (Val::Data(_, xs), Val::Data(_, ys)) => {
            lemma_lists_are_symmetric(xs, ys);
        },
        (Val::Array(xs), Val::Array(ys)) => {
            lemma_lists_are_symmetric(xs, ys);
        },
        _ => {},
    }
}

proof fn lemma_lists_are_symmetric(xs: Seq<Val>, ys: Seq<Val>)
    ensures
        xs.len() == ys.len() ==> ((forall|i: int|
            0 <= i < xs.len() ==> same_val(#[trigger] xs[i], ys[i])) <==> (forall|i: int|
            0 <= i < ys.len() ==> same_val(#[trigger] ys[i], xs[i]))),
    decreases xs,
{
    if xs.len() == ys.len() {
        assert forall|i: int| 0 <= i < xs.len() implies same_val(#[trigger] xs[i], ys[i])
            == same_val(ys[i], xs[i]) by {
            law_equality_is_symmetric(xs[i], ys[i]);
        }
        if forall|i: int| 0 <= i < xs.len() ==> same_val(#[trigger] xs[i], ys[i]) {
            assert forall|i: int| 0 <= i < ys.len() implies same_val(#[trigger] ys[i], xs[i]) by {
                assert(same_val(xs[i], ys[i]));
            }
        }
        if forall|i: int| 0 <= i < ys.len() ==> same_val(#[trigger] ys[i], xs[i]) {
            assert forall|i: int| 0 <= i < xs.len() implies same_val(#[trigger] xs[i], ys[i]) by {
                assert(same_val(ys[i], xs[i]));
            }
        }
    }
}

/// There is a number in the value that is not one (NaN).
pub open spec fn has_nan(value: Val) -> bool
    decreases value,
{
    match value {
        Val::Float(bits) => magnitude(bits) > 0x7ff0_0000_0000_0000,
        Val::Data(_, fields) => exists|i: int| 0 <= i < fields.len() && has_nan(#[trigger] fields[i]),
        Val::Array(values) => exists|i: int| 0 <= i < values.len() && has_nan(#[trigger] values[i]),
        _ => false,
    }
}

/// Every value is equal to itself, unless there is a number in it that is not one.
pub proof fn law_equality_is_reflexive(a: Val)
    ensures
        same_val(a, a) == !has_nan(a),
    decreases a,
{
    match a {
        Val::Data(_, fields) => {
            assert forall|i: int| 0 <= i < fields.len() implies same_val(
                #[trigger] fields[i],
                fields[i],
            ) == !has_nan(fields[i]) by {
                law_equality_is_reflexive(fields[i]);
            }
        },
        Val::Array(values) => {
            assert forall|i: int| 0 <= i < values.len() implies same_val(
                #[trigger] values[i],
                values[i],
            ) == !has_nan(values[i]) by {
                law_equality_is_reflexive(values[i]);
            }
        },
        _ => {},
    }
}

} // verus!
