//! Values of the virtual machine that the host holds without taking them apart.
use vstd::prelude::*;
use crate::api::{Getable, Marshalled, Pushable, VmType};
use crate::deep_clone;
use crate::machine;
use crate::machine::{Context, Error, Failure, Heap};
use crate::term::Term;
use crate::thread::{RootedThread, Thread, ThreadRef};
use crate::type_cache;
use crate::types::{Op, Type};
use crate::value;
use crate::value::{Val, Value, ValueArray, VmIndex, VmInt};
use crate::value_ref::{ArrayRef, ValueRef, Variants};
use std::marker::PhantomData;
use vstd::pervasive::unreached;
use vstd::std_specs::cmp::PartialEqSpecImpl;
use vstd::std_specs::convert::FromSpecImpl;

verus! {

/// A value that is kept alive, with the thread that it belongs to.
#[derive(Debug)]
pub struct RootedValue<T: ThreadRef> {
    pub vm: T,
    pub value: Value,
}

impl<T: ThreadRef> RootedValue<T> {
    /// The same value once more.
    pub fn duplicate(&self) -> (copy: RootedValue<T>)
        ensures
            copy.value == self.value,
            copy.vm.thread() == self.vm.thread(),
    {
        RootedValue { vm: self.vm.duplicate(), value: self.value.clone() }
    }
}

/// Type implementing both `Pushable` and `Getable` of values of `V`.
/// The actual value, `V` is not accessible directly but is only intended to be transferred between
/// two different threads.
#[derive(Debug)]
pub struct OpaqueValue<T: ThreadRef, V>(RootedValue<T>, PhantomData<V>);

impl<T: ThreadRef, V> OpaqueValue<T, V> {
    pub closed spec fn inner(&self) -> RootedValue<T> {
        self.0
    }

    /// Holds a value of a thread.
    pub fn root(vm: T, value: Value) -> (opaque: OpaqueValue<T, V>)
        ensures
            opaque.inner() == (RootedValue { vm, value }),
    {
        OpaqueValue(RootedValue { vm, value }, PhantomData)
    }

    pub fn vm(&self) -> (vm: &Thread)
        ensures
            *vm == self.inner().vm.thread(),
    {
        self.0.vm.vm()
    }

    pub fn into_inner(self) -> (inner: RootedValue<T>)
        ensures
            inner == self.inner(),
    {
        self.0
    }

    pub fn get_value(&self) -> (value: Value)
        ensures
            value == self.inner().value,
    {
        self.0.value.clone()
    }

    pub fn get_variants(&self) -> (variants: Variants)
        ensures
            *variants.0 == self.inner().value,
    {
        Variants::new(&self.0.value)
    }

    pub fn get_ref(&self) -> (found: ValueRef)
        ensures
            found.model() == crate::value_ref::shown(self.inner().value.model()),
    {
        ValueRef::new(&self.0.value)
    }
}

impl<T: ThreadRef, V> Clone for OpaqueValue<T, V> {
    fn clone(&self) -> (copy: OpaqueValue<T, V>)
        ensures
            copy.inner().value == self.inner().value,
            copy.inner().vm.thread() == self.inner().vm.thread(),
    {
        OpaqueValue(self.0.duplicate(), PhantomData)
    }
}

impl<T: ThreadRef, V: VmType> VmType for OpaqueValue<T, V> {
    open spec fn typable(vm: &Thread) -> bool {
        V::typable(vm)
    }

    open spec fn typ(vm: &Thread) -> Term<Op> {
        V::typ(vm)
    }

    open spec fn extra() -> u8 {
        0
    }

    fn make_type(vm: &Thread) -> (typ: Type) {
        V::make_type(vm)
    }

    fn extra_args() -> (count: VmIndex) {
        0
    }
}

/// Moving a value from one heap to another: as it is where they are the same, else as a copy.
pub open spec fn moved(from: u64, to: u64, heap: Heap, val: Val) -> (Heap, Result<Val, Failure>) {
    if from == to {
        (heap, Ok(val))
    } else {
        deep_clone::cloned(heap, val)
    }
}

/// A value that was moved is equal to what it was.
pub proof fn law_moved_values_are_equal(from: u64, to: u64, heap: Heap, val: Val)
    ensures
        moved(from, to, heap, val).1 matches Ok(copy) ==> copy == val,
{
    deep_clone::law_clones_are_equal(heap, val);
}

/// Moves a value to the heap of the context.
pub fn move_value(from: u64, to: u64, value: Value, context: &mut Context) -> (result: Result<
    Value,
    Error,
>)
    ensures
        final(context)@ == old(context)@.with_heap(
            moved(from, to, old(context)@.heap, value.model()).0,
        ),
        machine::yields(moved(from, to, old(context)@.heap, value.model()).1, result),
{
    if from == to {
        Ok(value)
    } else {
        context.deep_clone(&value)
    }
}

impl<'vm, T: ThreadRef, V: VmType> Pushable<'vm> for OpaqueValue<T, V> {
    open spec fn pushed(self, vm: &Thread, heap: Heap) -> (Heap, Result<Val, Failure>) {
        moved(self.inner().vm.thread().heap, vm.heap, heap, self.inner().value.model())
    }

    proof fn law_memory_is_bounded(self, vm: &Thread, heap: Heap) {
        deep_clone::lemma_cloned_memory(heap, self.inner().value.model());
    }

    fn push(self, vm: &'vm Thread, context: &mut Context) -> (result: Result<(), Error>) {
        let from: u64 = self.vm().heap;
        match move_value(from, vm.heap, self.0.value, context) {
            Ok(value) => {
                context.push_value(value);
                Ok(())
            },
            Err(error) => Err(error),
        }
    }
}

impl<'vm, V> Getable<'vm> for OpaqueValue<&'vm Thread, V> {
    type Image = Val;

    open spec fn image(self) -> Val {
        self.inner().value.model()
    }

    open spec fn of_thread(self, vm: &Thread) -> bool {
        *self.inner().vm == *vm
    }

    open spec fn gettable(value: Val) -> bool {
        true
    }

    open spec fn got(value: Val) -> Option<Val> {
        Some(value)
    }

    open spec fn got_rooted(value: Val) -> Option<Val> {
        Some(value)
    }

    fn from_value_unsafe(vm: &'vm Thread, value: Variants<'vm>) -> (found: Option<Self>)
        ensures
            found matches Some(opaque) && opaque.inner() == (RootedValue { vm, value: *value.0 }),
    {
        Self::from_value(vm, value)
    }

    fn from_value(vm: &'vm Thread, value: Variants<'vm>) -> (found: Option<Self>)
        ensures
            found matches Some(opaque) && opaque.inner() == (RootedValue { vm, value: *value.0 }),
    {
        Some(OpaqueValue::root(vm, value.0.clone()))
    }
}

impl<'vm, V: VmType> Marshalled<'vm> for OpaqueValue<&'vm Thread, V> {
    proof fn law_read_back(self, vm: &Thread, heap: Heap) {
        law_moved_values_are_equal(
            self.inner().vm.thread().heap,
            vm.heap,
            heap,
            self.inner().value.model(),
        );
    }
}

impl<'vm, V> Getable<'vm> for OpaqueValue<RootedThread, V> {
    type Image = Val;

    open spec fn image(self) -> Val {
        self.inner().value.model()
    }

    open spec fn of_thread(self, vm: &Thread) -> bool {
        vm.knows_the_same(&self.inner().vm.thread())
    }

    open spec fn gettable(value: Val) -> bool {
        true
    }

    open spec fn got(value: Val) -> Option<Val> {
        Some(value)
    }

    open spec fn got_rooted(value: Val) -> Option<Val> {
        Some(value)
    }

    fn from_value_unsafe(vm: &'vm Thread, value: Variants<'vm>) -> (found: Option<Self>)
        ensures
            found matches Some(opaque) && opaque.inner().value == *value.0 && vm.knows_the_same(
                &opaque.inner().vm.thread(),
            ),
    {
        Self::from_value(vm, value)
    }

    fn from_value(vm: &'vm Thread, value: Variants<'vm>) -> (found: Option<Self>)
        ensures
            found matches Some(opaque) && opaque.inner().value == *value.0 && vm.knows_the_same(
                &opaque.inner().vm.thread(),
            ),
    {
        Some(OpaqueValue::root(vm.root_thread(), value.0.clone()))
    }
}

impl<'vm, V: VmType> Marshalled<'vm> for OpaqueValue<RootedThread, V> {
    proof fn law_read_back(self, vm: &Thread, heap: Heap) {
        law_moved_values_are_equal(
            self.inner().vm.thread().heap,
            vm.heap,
            heap,
            self.inner().value.model(),
        );
    }
}

/// Type which represents an array
#[derive(Debug)]
pub struct Array<'vm, T>(RootedValue<&'vm Thread>, PhantomData<T>);

impl<'vm, T> Array<'vm, T> {
    pub closed spec fn inner(&self) -> RootedValue<&'vm Thread> {
        self.0
    }

    /// The array itself, which has to be one.
    pub open spec fn elements(&self) -> Seq<Val> {
        self.inner().value.model()->Array_0
    }

    pub fn vm(&self) -> (vm: &'vm Thread)
        ensures
            *vm == *self.inner().vm,
    {
        self.0.vm
    }

    pub fn len(&self) -> (len: usize)
        requires
            self.inner().value is Array,
        ensures
            len == self.elements().len(),
    {
        self.get_value_array().values.len()
    }

    pub fn get_value_array(&self) -> (array: &ValueArray)
        requires
            self.inner().value is Array,
        ensures
            value::models_of(array.values@) == self.elements(),
            *array == self.inner().value->Array_0,
    {
        proof {
            value::lemma_array_model(self.0.value);
        }
        match &self.0.value {
            Value::Array(array) => array,
            _ => unreached(),
        }
    }

    /// The element at an index, which has to be one of the array.
    pub fn get<'a>(&'a self, index: VmInt) -> (found: Option<T>) where T: Getable<'a>
        requires
            self.inner().value is Array ==> ((index as usize) < self.elements().len()
                && T::gettable(self.elements()[(index as usize) as int])),
        ensures
            match found {
                Some(x) => self.inner().value is Array && T::got(
                    self.elements()[(index as usize) as int],
                ) == Some(x.image()) && x.of_thread(self.inner().vm),
                None => self.inner().value is Array ==> T::got(
                    self.elements()[(index as usize) as int],
                ) is None,
            },
    {
        match &self.0.value {
            Value::Array(array) => {
                proof {
                    value::lemma_array_model(self.0.value);
                }
                let found = ArrayRef::new(array).get(index as usize).unwrap();
                T::from_value(self.0.vm, found)
            },
            _ => None,
        }
    }
}

impl<'vm, T: VmType> VmType for Array<'vm, T> {
    open spec fn typable(vm: &Thread) -> bool {
        T::typable(vm)
    }

    open spec fn typ(vm: &Thread) -> Term<Op> {
        type_cache::array_type(T::typ(vm))
    }

    open spec fn extra() -> u8 {
        0
    }

    fn make_type(vm: &Thread) -> (typ: Type) {
        Type::array(T::make_type(vm))
    }

    fn extra_args() -> (count: VmIndex) {
        0
    }
}

impl<'vm, 'a, T: VmType> Pushable<'vm> for Array<'a, T> {
    open spec fn pushed(self, vm: &Thread, heap: Heap) -> (Heap, Result<Val, Failure>) {
        (heap, Ok(self.inner().value.model()))
    }

    proof fn law_memory_is_bounded(self, vm: &Thread, heap: Heap) {
    }

    fn push(self, vm: &'vm Thread, context: &mut Context) -> (result: Result<(), Error>) {
        context.push_value(self.0.value);
        Ok(())
    }
}

impl<'vm, T> Getable<'vm> for Array<'vm, T> {
    type Image = Val;

    open spec fn image(self) -> Val {
        self.inner().value.model()
    }

    open spec fn of_thread(self, vm: &Thread) -> bool {
        *self.inner().vm == *vm
    }

    open spec fn gettable(value: Val) -> bool {
        true
    }

    open spec fn got(value: Val) -> Option<Val> {
        Some(value)
    }

    open spec fn got_rooted(value: Val) -> Option<Val> {
        Some(value)
    }

    fn from_value_unsafe(vm: &'vm Thread, value: Variants<'vm>) -> (found: Option<Self>)
        ensures
            found matches Some(array) && array.inner() == (RootedValue { vm, value: *value.0 }),
    {
        Self::from_value(vm, value)
    }

    fn from_value(vm: &'vm Thread, value: Variants<'vm>) -> (found: Option<Self>)
        ensures
            found matches Some(array) && array.inner() == (RootedValue { vm, value: *value.0 }),
    {
        Some(Array(RootedValue { vm, value: value.0.clone() }, PhantomData))
    }
}

impl<'vm, T: VmType> Marshalled<'vm> for Array<'vm, T> {
    proof fn law_read_back(self, vm: &Thread, heap: Heap) {
    }
}

/// A value whose type is a type variable.
#[derive(Debug)]
pub struct Generic<T>(pub Value, pub PhantomData<T>);

impl<T> From<Value> for Generic<T> {
    fn from(v: Value) -> (generic: Generic<T>) {
        Generic(v, PhantomData)
    }
}

impl<T> FromSpecImpl<Value> for Generic<T> {
    open spec fn obeys_from_spec() -> bool {
        true
    }

    open spec fn from_spec(v: Value) -> Generic<T> {
        Generic(v, PhantomData)
    }
}

impl<T> Generic<T> {
    /// The value as a generic one.
    pub fn of(value: Value) -> (generic: Generic<T>)
        ensures
            generic.0 == value,
    {
        Generic::from(value)
    }
}

impl<T> Generic<T> {
    /// Adds the values that this one keeps alive to `reached`: itself.
    pub fn traverse(&self, reached: &mut Vec<Value>)
        ensures
            final(reached)@ == old(reached)@.push(self.0),
    {
        reached.push(self.0.clone());
    }
}

impl<T> PartialEq for Generic<T> {
    fn eq(&self, other: &Generic<T>) -> (same: bool) {
        self.0.same(&other.0)
    }
}

impl<T> PartialEqSpecImpl for Generic<T> {
    open spec fn obeys_eq_spec() -> bool {
        true
    }

    open spec fn eq_spec(&self, other: &Generic<T>) -> bool {
        value::same_val(self.0.model(), other.0.model())
    }
}

impl<T> Clone for Generic<T> {
    fn clone(&self) -> (copy: Generic<T>)
        ensures
            copy.0 == self.0,
    {
        Generic(self.0.clone(), PhantomData)
    }
}

impl<T: VmType> VmType for Generic<T> {
    open spec fn typable(vm: &Thread) -> bool {
        T::typable(vm)
    }

    open spec fn typ(vm: &Thread) -> Term<Op> {
        T::typ(vm)
    }

    open spec fn extra() -> u8 {
        T::extra()
    }

    fn make_type(vm: &Thread) -> (typ: Type) {
        T::make_type(vm)
    }

    fn extra_args() -> (count: VmIndex) {
        T::extra_args()
    }
}

impl<'vm, T: VmType> Pushable<'vm> for Generic<T> {
    open spec fn pushed(self, vm: &Thread, heap: Heap) -> (Heap, Result<Val, Failure>) {
        (heap, Ok(self.0.model()))
    }

    proof fn law_memory_is_bounded(self, vm: &Thread, heap: Heap) {
    }

    fn push(self, vm: &'vm Thread, context: &mut Context) -> (result: Result<(), Error>) {
        context.push_value(self.0);
        Ok(())
    }
}

impl<'vm, T> Getable<'vm> for Generic<T> {
    type Image = Val;

    open spec fn image(self) -> Val {
        self.0.model()
    }

    open spec fn gettable(value: Val) -> bool {
        true
    }

    open spec fn got(value: Val) -> Option<Val> {
        Some(value)
    }

    open spec fn got_rooted(value: Val) -> Option<Val> {
        Some(value)
    }

    fn from_value_unsafe(vm: &'vm Thread, value: Variants<'vm>) -> (found: Option<Self>)
        ensures
            found matches Some(generic) && generic.0 == *value.0,
    {
        Self::from_value(vm, value)
    }

    fn from_value(vm: &'vm Thread, value: Variants<'vm>) -> (found: Option<Self>)
        ensures
            found matches Some(generic) && generic.0 == *value.0,
    {
        Some(Generic::of(value.0.clone()))
    }
}

impl<'vm, T: VmType> Marshalled<'vm> for Generic<T> {
    proof fn law_read_back(self, vm: &Thread, heap: Heap) {
    }
}

impl<'vm> Getable<'vm> for Value {
    type Image = Val;

    open spec fn image(self) -> Val {
        self.model()
    }

    open spec fn gettable(value: Val) -> bool {
        true
    }

    open spec fn got(value: Val) -> Option<Val> {
        Some(value)
    }

    open spec fn got_rooted(value: Val) -> Option<Val> {
        Some(value)
    }

    fn from_value_unsafe(vm: &'vm Thread, value: Variants<'vm>) -> (found: Option<Value>) {
        Self::from_value(vm, value)
    }

    fn from_value(vm: &'vm Thread, value: Variants<'vm>) -> (found: Option<Value>) {
        Some(value.0.clone())
    }
}

} // verus!
