//! Looking into values.
use vstd::prelude::*;
use crate::text::same_text;
use crate::thread::Thread;
use crate::value;
use crate::value::{same_float_bits, DataStruct, UserdataPtr, Val, Value, ValueArray, VmInt, VmTag};
use vstd::std_specs::cmp::PartialEqSpecImpl;

verus! {

/// A value that is kept alive by what it was taken from.
#[derive(Clone, Copy, Debug)]
pub struct Variants<'a>(pub &'a Value);

/// What can be seen of a value.
#[derive(Clone, Copy, Debug)]
pub enum ValueRef<'a> {
    Byte(u8),
    Int(VmInt),
    /// The bits of a floating point number.
    Float(u64),
    String(&'a str),
    Data(Data<'a>),
    Array(ArrayRef<'a>),
    Userdata(UserdataPtr),
    /// A function or a thread.
    Internal,
}

#[derive(Clone, Copy, Debug)]
enum DataInner<'a> {
    Tag(VmTag),
    Data(&'a DataStruct),
}

/// A variant of a data type, or a record.
#[derive(Clone, Copy, Debug)]
pub struct Data<'a>(DataInner<'a>);

/// An array.
#[derive(Clone, Copy, Debug)]
pub struct ArrayRef<'vm>(&'vm ValueArray);

/// The model of a [`ValueRef`].
pub enum Shown {
    Byte(u8),
    Int(VmInt),
    Float(u64),
    Text(Seq<char>),
    /// Data, with or without fields.
    Data(Val),
    Array(Seq<Val>),
    Userdata(UserdataPtr),
    Internal,
}

/// What can be seen of a value.
pub open spec fn shown(value: Val) -> Shown {
    match value {
        Val::Byte(b) => Shown::Byte(b),
        Val::Int(i) => Shown::Int(i),
        Val::Float(bits) => Shown::Float(bits),
        Val::Text(text) => Shown::Text(text),
        Val::Data(..) => Shown::Data(value),
        Val::Tag(_) => Shown::Data(value),
        Val::Array(values) => Shown::Array(values),
        Val::Userdata(userdata) => Shown::Userdata(userdata),
        Val::Function(..) => Shown::Internal,
        Val::Closure(_) => Shown::Internal,
        Val::PartialApplication(_) => Shown::Internal,
        Val::Thread(_) => Shown::Internal,
    }
}

/// Whether what can be seen of two values is equal. Arrays, values of the host, functions and
/// threads are equal to nothing.
pub open spec fn same_shown(a: Shown, b: Shown) -> bool {
    match (a, b) {
        (Shown::Byte(x), Shown::Byte(y)) => x == y,
        (Shown::Int(x), Shown::Int(y)) => x == y,
        (Shown::Float(x), Shown::Float(y)) => value::same_float(x, y),
        (Shown::Text(x), Shown::Text(y)) => x == y,
        (Shown::Data(x), Shown::Data(y)) => value::same_val(x, y),
        _ => false,
    }
}

/// The tag of data.
pub open spec fn tag_of(data: Val) -> VmTag {
    match data {
        Val::Tag(tag) => tag,
        Val::Data(tag, _) => tag,
        _ => arbitrary(),
    }
}

/// The fields of data.
pub open spec fn fields_of(data: Val) -> Seq<Val> {
    match data {
        Val::Data(_, fields) => fields,
        _ => Seq::empty(),
    }
}

impl<'a> Variants<'a> {
    pub fn new(value: &'a Value) -> (variants: Variants<'a>)
        ensures
            *variants.0 == *value,
    {
        Variants(value)
    }

    /// What can be seen of the value.
    pub fn as_ref(&self) -> (found: ValueRef<'a>)
        ensures
            found.model() == shown(self.0.model()),
    {
        ValueRef::new(self.0)
    }
}

impl<'a> ValueRef<'a> {
    pub open spec fn model(self) -> Shown {
        match self {
            ValueRef::Byte(b) => Shown::Byte(b),
            ValueRef::Int(i) => Shown::Int(i),
            ValueRef::Float(bits) => Shown::Float(bits),
            ValueRef::String(s) => Shown::Text(s@),
            ValueRef::Data(data) => Shown::Data(data.model()),
            ValueRef::Array(array) => Shown::Array(array.model()),
            ValueRef::Userdata(userdata) => Shown::Userdata(userdata),
            ValueRef::Internal => Shown::Internal,
        }
    }

    pub fn new(value: &'a Value) -> (found: ValueRef<'a>)
        ensures
            found.model() == shown(value.model()),
    {
        ValueRef::rooted_new(value)
    }

    /// What can be seen of a value that is kept alive for as long as it is looked at.
    pub fn rooted_new(value: &'a Value) -> (found: ValueRef<'a>)
        ensures
            found.model() == shown(value.model()),
    {
        match value {
            Value::Byte(b) => ValueRef::Byte(*b),
            Value::Int(i) => ValueRef::Int(*i),
            Value::Float(bits) => ValueRef::Float(*bits),
            Value::String(s) => ValueRef::String(s.as_str()),
            Value::Data(data) => {
                proof {
                    value::lemma_data_model(*value);
                }
                ValueRef::Data(Data(DataInner::Data(data)))
            },
            Value::Tag(tag) => ValueRef::Data(Data(DataInner::Tag(*tag))),
            Value::Array(array) => {
                proof {
                    value::lemma_array_model(*value);
                }
                ValueRef::Array(ArrayRef(array))
            },
            Value::Userdata(userdata) => ValueRef::Userdata(*userdata),
            Value::Thread(_) => ValueRef::Internal,
            Value::Function(_) => ValueRef::Internal,
            Value::Closure(_) => ValueRef::Internal,
            Value::PartialApplication(_) => ValueRef::Internal,
        }
    }
}

impl<'a, 'b> PartialEq<ValueRef<'b>> for ValueRef<'a> {
    fn eq(&self, other: &ValueRef<'b>) -> (same: bool) {
        match (self, other) {
            (ValueRef::Byte(l), ValueRef::Byte(r)) => *l == *r,
            (ValueRef::Int(l), ValueRef::Int(r)) => *l == *r,
            (ValueRef::Float(l), ValueRef::Float(r)) => same_float_bits(*l, *r),
            (ValueRef::String(l), ValueRef::String(r)) => same_text(l, r),
            (ValueRef::Data(l), ValueRef::Data(r)) => l.same(r),
            _ => false,
        }
    }
}

impl<'a, 'b> PartialEqSpecImpl<ValueRef<'b>> for ValueRef<'a> {
    open spec fn obeys_eq_spec() -> bool {
        true
    }

    open spec fn eq_spec(&self, other: &ValueRef<'b>) -> bool {
        same_shown(self.model(), other.model())
    }
}

impl<'a> PartialEq<Value> for ValueRef<'a> {
    fn eq(&self, other: &Value) -> (same: bool) {
        *self == ValueRef::new(other)
    }
}

impl<'a> PartialEqSpecImpl<Value> for ValueRef<'a> {
    open spec fn obeys_eq_spec() -> bool {
        true
    }

    open spec fn eq_spec(&self, other: &Value) -> bool {
        same_shown(self.model(), shown(other.model()))
    }
}

impl<'a> Data<'a> {
    pub closed spec fn model(self) -> Val {
        match self.0 {
            DataInner::Tag(tag) => Val::Tag(tag),
            DataInner::Data(data) => Val::Data(data.tag, value::models_of(data.fields@)),
        }
    }

    /// Whether the tags and the fields are equal.
    pub fn same(&self, other: &Data) -> (same: bool)
        ensures
            same == value::same_val(self.model(), other.model()),
    {
        match (&self.0, &other.0) {
            (DataInner::Tag(l), DataInner::Tag(r)) => *l == *r,
            (DataInner::Data(l), DataInner::Data(r)) => {
                proof {
                    value::lemma_same_lists(
                        l.fields@,
                        r.fields@,
                        value::models_of(l.fields@),
                        value::models_of(r.fields@),
                    );
                }
                l.same(r)
            },
            _ => false,
        }
    }

    pub fn tag(&self) -> (tag: VmTag)
        ensures
            self.model() is Data || self.model() is Tag,
            tag == tag_of(self.model()),
    {
        match &self.0 {
            DataInner::Tag(tag) => *tag,
            DataInner::Data(data) => data.tag,
        }
    }

    pub fn len(&self) -> (len: usize)
        ensures
            len == fields_of(self.model()).len(),
    {
        match &self.0 {
            DataInner::Tag(_) => 0,
            DataInner::Data(data) => data.fields.len(),
        }
    }

    pub fn get(&self, index: usize) -> (found: Option<ValueRef<'a>>)
        ensures
            match found {
                Some(value) => index < fields_of(self.model()).len() && value.model() == shown(
                    fields_of(self.model())[index as int],
                ),
                None => index >= fields_of(self.model()).len(),
            },
    {
        match self.get_variants(index) {
            Some(value) => Some(value.as_ref()),
            None => None,
        }
    }

    pub fn get_variants(&self, index: usize) -> (found: Option<Variants<'a>>)
        ensures
            match found {
                Some(value) => index < fields_of(self.model()).len() && value.0.model()
                    == fields_of(self.model())[index as int],
                None => index >= fields_of(self.model()).len(),
            },
    {
        match self.0 {
            DataInner::Tag(_) => None,
            DataInner::Data(data) => {
                if index < data.fields.len() {
                    Some(Variants::new(&data.fields[index]))
                } else {
                    None
                }
            },
        }
    }

    /// Retrieves the field `name` from this record.
    pub fn lookup_field(&self, thread: &Thread, name: &str) -> (found: Option<Variants<'a>>)
        ensures
            match found {
                Some(value) => thread.field(self.model(), name@) == Some(value.0.model()),
                None => thread.field(self.model(), name@) is None,
            },
    {
        match self.0 {
            DataInner::Tag(_) => None,
            DataInner::Data(data) => match thread.lookup_field(data, name) {
                Some(value) => Some(Variants::new(value)),
                None => None,
            },
        }
    }
}

impl<'a, 'b> PartialEq<Data<'b>> for Data<'a> {
    fn eq(&self, other: &Data<'b>) -> (same: bool) {
        self.same(other)
    }
}

impl<'a, 'b> PartialEqSpecImpl<Data<'b>> for Data<'a> {
    open spec fn obeys_eq_spec() -> bool {
        true
    }

    open spec fn eq_spec(&self, other: &Data<'b>) -> bool {
        value::same_val(self.model(), other.model())
    }
}

/// Trait for the types of which there are arrays that hold nothing else.
pub trait ArrayRepr: Sized {
    /// The value as an element of an array.
    spec fn element(self) -> Val;

    /// What the element of an array is a value for.
    spec fn taken(element: Val) -> Option<Self>;

    fn to_element(self) -> (value: Value)
        ensures
            value.model() == self.element(),
    ;

    fn from_element(value: &Value) -> (found: Option<Self>)
        ensures
            found == Self::taken(value.model()),
    ;

    /// An element holds what it was made of.
    proof fn lemma_taken(self)
        ensures
            Self::taken(self.element()) == Some(self),
    ;
}

/// The elements as values of one type, if they all are.
pub open spec fn slice_of<T: ArrayRepr>(values: Seq<Val>) -> Option<Seq<T>> {
    if forall|i: int| 0 <= i < values.len() ==> T::taken(#[trigger] values[i]) is Some {
        Some(Seq::new(values.len(), |i: int| T::taken(values[i]).unwrap()))
    } else {
        None
    }
}

/// Values of one type as elements.
pub open spec fn elements_of<T: ArrayRepr>(values: Seq<T>) -> Seq<Val> {
    Seq::new(values.len(), |i: int| values[i].element())
}

impl ArrayRepr for u8 {
    open spec fn element(self) -> Val {
        Val::Byte(self)
    }

    open spec fn taken(element: Val) -> Option<u8> {
        match element {
            Val::Byte(b) => Some(b),
            _ => None,
        }
    }

    fn to_element(self) -> (value: Value) {
        Value::Byte(self)
    }

    fn from_element(value: &Value) -> (found: Option<u8>) {
        match value {
            Value::Byte(b) => Some(*b),
            _ => None,
        }
    }

    proof fn lemma_taken(self) {
    }
}

impl ArrayRepr for i64 {
    open spec fn element(self) -> Val {
        Val::Int(self)
    }

    open spec fn taken(element: Val) -> Option<i64> {
        match element {
            Val::Int(i) => Some(i),
            _ => None,
        }
    }

    fn to_element(self) -> (value: Value) {
        Value::Int(self)
    }

    fn from_element(value: &Value) -> (found: Option<i64>) {
        match value {
            Value::Int(i) => Some(*i),
            _ => None,
        }
    }

    proof fn lemma_taken(self) {
    }
}

impl<'vm> ArrayRef<'vm> {
    pub closed spec fn model(self) -> Seq<Val> {
        value::models_of(self.0.values@)
    }

    /// The array that holds these elements.
    pub fn new(array: &'vm ValueArray) -> (found: ArrayRef<'vm>)
        ensures
            found.model() == value::models_of(array.values@),
    {
        ArrayRef(array)
    }

    /// How many elements the array has.
    pub fn len(&self) -> (len: usize)
        ensures
            len == self.model().len(),
    {
        self.0.values.len()
    }

    pub fn get(&self, index: usize) -> (found: Option<Variants<'vm>>)
        ensures
            match found {
                Some(value) => index < self.model().len() && value.0.model()
                    == self.model()[index as int],
                None => index >= self.model().len(),
            },
    {
        if index < self.0.values.len() {
            Some(Variants::new(&self.0.values[index]))
        } else {
            None
        }
    }

    /// The elements as values of one type, if they all are.
    pub fn as_slice<T: ArrayRepr>(&self) -> (found: Option<Vec<T>>)
        ensures
            match found {
                Some(values) => slice_of::<T>(self.model()) == Some(values@),
                None => slice_of::<T>(self.model()) is None,
            },
    {
        let mut values: Vec<T> = Vec::new();
        let mut i: usize = 0;
        while i < self.0.values.len()
            invariant
                i <= self.0.values@.len(),
                values@.len() == i,
                forall|k: int|
                    0 <= k < i ==> T::taken(#[trigger] self.model()[k]) == Some(values@[k]),
            decreases self.0.values@.len() - i,
        {
            assert(self.model()[i as int] == self.0.values@[i as int].model());
            match T::from_element(&self.0.values[i]) {
                Some(value) => {
                    values.push(value);
                },
                None => {
                    return None;
                },
            }
            i = i + 1;
        }
        assert(slice_of::<T>(self.model()).unwrap() =~= values@);
        Some(values)
    }

    /// The elements, from the first to the last.
    pub fn iter(&self) -> (values: Vec<Variants<'vm>>)
        ensures
            values@.len() == self.model().len(),
            forall|i: int|
                0 <= i < values@.len() ==> (#[trigger] values@[i]).0.model() == self.model()[i],
    {
        let mut values: Vec<Variants<'vm>> = Vec::new();
        let mut i: usize = 0;
        while i < self.0.values.len()
            invariant
                i <= self.0.values@.len(),
                values@.len() == i,
                forall|k: int| 0 <= k < i ==> (#[trigger] values@[k]).0.model() == self.model()[k],
            decreases self.0.values@.len() - i,
        {
            values.push(Variants::new(&self.0.values[i]));
            i = i + 1;
        }
        values
    }
}

} // verus!
