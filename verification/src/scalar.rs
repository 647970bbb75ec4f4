//! Numbers, characters, truth values and strings of the host in the virtual machine.
use vstd::prelude::*;
use crate::alias;
use crate::api::{Getable, Marshalled, Pushable, VmType};
use crate::machine;
use crate::machine::{Context, Error, Failure, Heap};
use crate::substitution::share;
use crate::term::Term;
use crate::thread::Thread;
use crate::type_cache;
use crate::types::{Op, Type};
use crate::value::{Val, Value, VmIndex, VmInt};
use crate::value_ref;
use crate::value_ref::{ArrayRepr, ValueRef, Variants};
use std::cmp::Ordering;
use std::sync::Arc;
use vstd::pervasive::unreached;

verus! {

impl VmType for () {
    open spec fn typable(vm: &Thread) -> bool {
        vm.known_type("()"@) is Some
    }

    open spec fn typ(vm: &Thread) -> Term<Op> {
        vm.known_type("()"@).unwrap()
    }

    open spec fn extra() -> u8 {
        0
    }

    fn make_type(vm: &Thread) -> (typ: Type) {
        vm.get_type("()")
    }

    fn extra_args() -> (count: VmIndex) {
        0
    }
}

impl<'vm> Pushable<'vm> for () {
    open spec fn pushed(self, vm: &Thread, heap: Heap) -> (Heap, Result<Val, Failure>) {
        (heap, Ok(Val::Int(0)))
    }

    proof fn law_memory_is_bounded(self, vm: &Thread, heap: Heap) {
    }

    fn push(self, vm: &'vm Thread, context: &mut Context) -> (result: Result<(), Error>) {
        context.push_value(Value::Int(0));
        Ok(())
    }
}

impl<'vm> Getable<'vm> for () {
    type Image = ();

    open spec fn image(self) -> () {
        ()
    }

    open spec fn gettable(value: Val) -> bool {
        true
    }

    open spec fn got(value: Val) -> Option<()> {
        Some(())
    }

    open spec fn got_rooted(value: Val) -> Option<()> {
        Self::got(value)
    }

    fn from_value_unsafe(vm: &'vm Thread, value: Variants<'vm>) -> (found: Option<()>) {
        Self::from_value(vm, value)
    }

    fn from_value(vm: &'vm Thread, value: Variants<'vm>) -> (found: Option<()>) {
        Some(())
    }
}

impl<'vm> Marshalled<'vm> for () {
    proof fn law_read_back(self, vm: &Thread, heap: Heap) {
    }
}

impl VmType for u8 {
    open spec fn typable(vm: &Thread) -> bool {
        vm.known_type("u8"@) is Some
    }

    open spec fn typ(vm: &Thread) -> Term<Op> {
        vm.known_type("u8"@).unwrap()
    }

    open spec fn extra() -> u8 {
        0
    }

    fn make_type(vm: &Thread) -> (typ: Type) {
        vm.get_type("u8")
    }

    fn extra_args() -> (count: VmIndex) {
        0
    }
}

impl<'vm> Pushable<'vm> for u8 {
    open spec fn pushed(self, vm: &Thread, heap: Heap) -> (Heap, Result<Val, Failure>) {
        (heap, Ok(Val::Byte(self)))
    }

    proof fn law_memory_is_bounded(self, vm: &Thread, heap: Heap) {
    }

    fn push(self, vm: &'vm Thread, context: &mut Context) -> (result: Result<(), Error>) {
        context.push_value(Value::Byte(self));
        Ok(())
    }
}

impl<'vm> Getable<'vm> for u8 {
    type Image = u8;

    open spec fn image(self) -> u8 {
        self
    }

    open spec fn gettable(value: Val) -> bool {
        true
    }

    open spec fn got(value: Val) -> Option<u8> {
        match value {
            Val::Byte(b) => Some(b),
            _ => None,
        }
    }

    open spec fn got_rooted(value: Val) -> Option<u8> {
        Self::got(value)
    }

    fn from_value_unsafe(vm: &'vm Thread, value: Variants<'vm>) -> (found: Option<u8>) {
        Self::from_value(vm, value)
    }

    fn from_value(vm: &'vm Thread, value: Variants<'vm>) -> (found: Option<u8>) {
        match value.as_ref() {
            ValueRef::Byte(b) => Some(b),
            _ => None,
        }
    }
}

impl<'vm> Marshalled<'vm> for u8 {
    proof fn law_read_back(self, vm: &Thread, heap: Heap) {
    }
}

impl VmType for i16 {
    open spec fn typable(vm: &Thread) -> bool {
        vm.known_type("VmInt"@) is Some
    }

    open spec fn typ(vm: &Thread) -> Term<Op> {
        vm.known_type("VmInt"@).unwrap()
    }

    open spec fn extra() -> u8 {
        0
    }

    fn make_type(vm: &Thread) -> (typ: Type) {
        vm.get_type("VmInt")
    }

    fn extra_args() -> (count: VmIndex) {
        0
    }
}

impl<'vm> Pushable<'vm> for i16 {
    open spec fn pushed(self, vm: &Thread, heap: Heap) -> (Heap, Result<Val, Failure>) {
        (heap, Ok(Val::Int(self as VmInt)))
    }

    proof fn law_memory_is_bounded(self, vm: &Thread, heap: Heap) {
    }

    fn push(self, vm: &'vm Thread, context: &mut Context) -> (result: Result<(), Error>) {
        context.push_value(Value::Int(self as VmInt));
        Ok(())
    }
}

impl<'vm> Getable<'vm> for i16 {
    type Image = i16;

    open spec fn image(self) -> i16 {
        self
    }

    open spec fn gettable(value: Val) -> bool {
        true
    }

    open spec fn got(value: Val) -> Option<i16> {
        match value {
            Val::Int(i) => Some(i as i16),
            _ => None,
        }
    }

    open spec fn got_rooted(value: Val) -> Option<i16> {
        Self::got(value)
    }

    fn from_value_unsafe(vm: &'vm Thread, value: Variants<'vm>) -> (found: Option<i16>) {
        Self::from_value(vm, value)
    }

    fn from_value(vm: &'vm Thread, value: Variants<'vm>) -> (found: Option<i16>) {
        match value.as_ref() {
            ValueRef::Int(i) => Some(i as i16),
            _ => None,
        }
    }
}

impl<'vm> Marshalled<'vm> for i16 {
    proof fn law_read_back(self, vm: &Thread, heap: Heap) {
    }
}

impl VmType for i32 {
    open spec fn typable(vm: &Thread) -> bool {
        vm.known_type("VmInt"@) is Some
    }

    open spec fn typ(vm: &Thread) -> Term<Op> {
        vm.known_type("VmInt"@).unwrap()
    }

    open spec fn extra() -> u8 {
        0
    }

    fn make_type(vm: &Thread) -> (typ: Type) {
        vm.get_type("VmInt")
    }

    fn extra_args() -> (count: VmIndex) {
        0
    }
}

impl<'vm> Pushable<'vm> for i32 {
    open spec fn pushed(self, vm: &Thread, heap: Heap) -> (Heap, Result<Val, Failure>) {
        (heap, Ok(Val::Int(self as VmInt)))
    }

    proof fn law_memory_is_bounded(self, vm: &Thread, heap: Heap) {
    }

    fn push(self, vm: &'vm Thread, context: &mut Context) -> (result: Result<(), Error>) {
        context.push_value(Value::Int(self as VmInt));
        Ok(())
    }
}

impl<'vm> Getable<'vm> for i32 {
    type Image = i32;

    open spec fn image(self) -> i32 {
        self
    }

    open spec fn gettable(value: Val) -> bool {
        true
    }

    open spec fn got(value: Val) -> Option<i32> {
        match value {
            Val::Int(i) => Some(i as i32),
            _ => None,
        }
    }

    open spec fn got_rooted(value: Val) -> Option<i32> {
        Self::got(value)
    }

    fn from_value_unsafe(vm: &'vm Thread, value: Variants<'vm>) -> (found: Option<i32>) {
        Self::from_value(vm, value)
    }

    fn from_value(vm: &'vm Thread, value: Variants<'vm>) -> (found: Option<i32>) {
        match value.as_ref() {
            ValueRef::Int(i) => Some(i as i32),
            _ => None,
        }
    }
}

impl<'vm> Marshalled<'vm> for i32 {
    proof fn law_read_back(self, vm: &Thread, heap: Heap) {
    }
}

impl VmType for i64 {
    open spec fn typable(vm: &Thread) -> bool {
        vm.known_type("VmInt"@) is Some
    }

    open spec fn typ(vm: &Thread) -> Term<Op> {
        vm.known_type("VmInt"@).unwrap()
    }

    open spec fn extra() -> u8 {
        0
    }

    fn make_type(vm: &Thread) -> (typ: Type) {
        vm.get_type("VmInt")
    }

    fn extra_args() -> (count: VmIndex) {
        0
    }
}

impl<'vm> Pushable<'vm> for i64 {
    open spec fn pushed(self, vm: &Thread, heap: Heap) -> (Heap, Result<Val, Failure>) {
        (heap, Ok(Val::Int(self)))
    }

    proof fn law_memory_is_bounded(self, vm: &Thread, heap: Heap) {
    }

    fn push(self, vm: &'vm Thread, context: &mut Context) -> (result: Result<(), Error>) {
        context.push_value(Value::Int(self));
        Ok(())
    }
}

impl<'vm> Getable<'vm> for i64 {
    type Image = i64;

    open spec fn image(self) -> i64 {
        self
    }

    open spec fn gettable(value: Val) -> bool {
        true
    }

    open spec fn got(value: Val) -> Option<i64> {
        match value {
            Val::Int(i) => Some(i),
            _ => None,
        }
    }

    open spec fn got_rooted(value: Val) -> Option<i64> {
        Self::got(value)
    }

    fn from_value_unsafe(vm: &'vm Thread, value: Variants<'vm>) -> (found: Option<i64>) {
        Self::from_value(vm, value)
    }

    fn from_value(vm: &'vm Thread, value: Variants<'vm>) -> (found: Option<i64>) {
        match value.as_ref() {
            ValueRef::Int(i) => Some(i),
            _ => None,
        }
    }
}

impl<'vm> Marshalled<'vm> for i64 {
    proof fn law_read_back(self, vm: &Thread, heap: Heap) {
    }
}

impl VmType for u16 {
    open spec fn typable(vm: &Thread) -> bool {
        vm.known_type("VmInt"@) is Some
    }

    open spec fn typ(vm: &Thread) -> Term<Op> {
        vm.known_type("VmInt"@).unwrap()
    }

    open spec fn extra() -> u8 {
        0
    }

    fn make_type(vm: &Thread) -> (typ: Type) {
        vm.get_type("VmInt")
    }

    fn extra_args() -> (count: VmIndex) {
        0
    }
}

impl<'vm> Pushable<'vm> for u16 {
    open spec fn pushed(self, vm: &Thread, heap: Heap) -> (Heap, Result<Val, Failure>) {
        (heap, Ok(Val::Int(self as VmInt)))
    }

    proof fn law_memory_is_bounded(self, vm: &Thread, heap: Heap) {
    }

    fn push(self, vm: &'vm Thread, context: &mut Context) -> (result: Result<(), Error>) {
        context.push_value(Value::Int(self as VmInt));
        Ok(())
    }
}

impl<'vm> Getable<'vm> for u16 {
    type Image = u16;

    open spec fn image(self) -> u16 {
        self
    }

    open spec fn gettable(value: Val) -> bool {
        true
    }

    open spec fn got(value: Val) -> Option<u16> {
        match value {
            Val::Int(i) => Some(i as u16),
            _ => None,
        }
    }

    open spec fn got_rooted(value: Val) -> Option<u16> {
        Self::got(value)
    }

    fn from_value_unsafe(vm: &'vm Thread, value: Variants<'vm>) -> (found: Option<u16>) {
        Self::from_value(vm, value)
    }

    fn from_value(vm: &'vm Thread, value: Variants<'vm>) -> (found: Option<u16>) {
        match value.as_ref() {
            ValueRef::Int(i) => Some(i as u16),
            _ => None,
        }
    }
}

impl<'vm> Marshalled<'vm> for u16 {
    proof fn law_read_back(self, vm: &Thread, heap: Heap) {
    }
}

impl VmType for u32 {
    open spec fn typable(vm: &Thread) -> bool {
        vm.known_type("VmInt"@) is Some
    }

    open spec fn typ(vm: &Thread) -> Term<Op> {
        vm.known_type("VmInt"@).unwrap()
    }

    open spec fn extra() -> u8 {
        0
    }

    fn make_type(vm: &Thread) -> (typ: Type) {
        vm.get_type("VmInt")
    }

    fn extra_args() -> (count: VmIndex) {
        0
    }
}

impl<'vm> Pushable<'vm> for u32 {
    open spec fn pushed(self, vm: &Thread, heap: Heap) -> (Heap, Result<Val, Failure>) {
        (heap, Ok(Val::Int(self as VmInt)))
    }

    proof fn law_memory_is_bounded(self, vm: &Thread, heap: Heap) {
    }

    fn push(self, vm: &'vm Thread, context: &mut Context) -> (result: Result<(), Error>) {
        context.push_value(Value::Int(self as VmInt));
        Ok(())
    }
}

impl<'vm> Getable<'vm> for u32 {
    type Image = u32;

    open spec fn image(self) -> u32 {
        self
    }

    open spec fn gettable(value: Val) -> bool {
        true
    }

    open spec fn got(value: Val) -> Option<u32> {
        match value {
            Val::Int(i) => Some(i as u32),
            _ => None,
        }
    }

    open spec fn got_rooted(value: Val) -> Option<u32> {
        Self::got(value)
    }

    fn from_value_unsafe(vm: &'vm Thread, value: Variants<'vm>) -> (found: Option<u32>) {
        Self::from_value(vm, value)
    }

    fn from_value(vm: &'vm Thread, value: Variants<'vm>) -> (found: Option<u32>) {
        match value.as_ref() {
            ValueRef::Int(i) => Some(i as u32),
            _ => None,
        }
    }
}

impl<'vm> Marshalled<'vm> for u32 {
    proof fn law_read_back(self, vm: &Thread, heap: Heap) {
    }
}

impl VmType for u64 {
    open spec fn typable(vm: &Thread) -> bool {
        vm.known_type("VmInt"@) is Some
    }

    open spec fn typ(vm: &Thread) -> Term<Op> {
        vm.known_type("VmInt"@).unwrap()
    }

    open spec fn extra() -> u8 {
        0
    }

    fn make_type(vm: &Thread) -> (typ: Type) {
        vm.get_type("VmInt")
    }

    fn extra_args() -> (count: VmIndex) {
        0
    }
}

impl<'vm> Pushable<'vm> for u64 {
    open spec fn pushed(self, vm: &Thread, heap: Heap) -> (Heap, Result<Val, Failure>) {
        (heap, Ok(Val::Int(self as VmInt)))
    }

    proof fn law_memory_is_bounded(self, vm: &Thread, heap: Heap) {
    }

    fn push(self, vm: &'vm Thread, context: &mut Context) -> (result: Result<(), Error>) {
        context.push_value(Value::Int(self as VmInt));
        Ok(())
    }
}

impl<'vm> Getable<'vm> for u64 {
    type Image = u64;

    open spec fn image(self) -> u64 {
        self
    }

    open spec fn gettable(value: Val) -> bool {
        true
    }

    open spec fn got(value: Val) -> Option<u64> {
        match value {
            Val::Int(i) => Some(i as u64),
            _ => None,
        }
    }

    open spec fn got_rooted(value: Val) -> Option<u64> {
        Self::got(value)
    }

    fn from_value_unsafe(vm: &'vm Thread, value: Variants<'vm>) -> (found: Option<u64>) {
        Self::from_value(vm, value)
    }

    fn from_value(vm: &'vm Thread, value: Variants<'vm>) -> (found: Option<u64>) {
        match value.as_ref() {
            ValueRef::Int(i) => Some(i as u64),
            _ => None,
        }
    }
}

impl<'vm> Marshalled<'vm> for u64 {
    proof fn law_read_back(self, vm: &Thread, heap: Heap) {
        assert(self as VmInt as u64 == self) by (bit_vector);
    }
}

impl VmType for usize {
    open spec fn typable(vm: &Thread) -> bool {
        vm.known_type("VmInt"@) is Some
    }

    open spec fn typ(vm: &Thread) -> Term<Op> {
        vm.known_type("VmInt"@).unwrap()
    }

    open spec fn extra() -> u8 {
        0
    }

    fn make_type(vm: &Thread) -> (typ: Type) {
        vm.get_type("VmInt")
    }

    fn extra_args() -> (count: VmIndex) {
        0
    }
}

impl<'vm> Pushable<'vm> for usize {
    open spec fn pushed(self, vm: &Thread, heap: Heap) -> (Heap, Result<Val, Failure>) {
        (heap, Ok(Val::Int(self as VmInt)))
    }

    proof fn law_memory_is_bounded(self, vm: &Thread, heap: Heap) {
    }

    fn push(self, vm: &'vm Thread, context: &mut Context) -> (result: Result<(), Error>) {
        context.push_value(Value::Int(self as VmInt));
        Ok(())
    }
}

impl<'vm> Getable<'vm> for usize {
    type Image = usize;

    open spec fn image(self) -> usize {
        self
    }

    open spec fn gettable(value: Val) -> bool {
        true
    }

    open spec fn got(value: Val) -> Option<usize> {
        match value {
            Val::Int(i) => Some(i as usize),
            _ => None,
        }
    }

    open spec fn got_rooted(value: Val) -> Option<usize> {
        Self::got(value)
    }

    fn from_value_unsafe(vm: &'vm Thread, value: Variants<'vm>) -> (found: Option<usize>) {
        Self::from_value(vm, value)
    }

    fn from_value(vm: &'vm Thread, value: Variants<'vm>) -> (found: Option<usize>) {
        match value.as_ref() {
            ValueRef::Int(i) => Some(i as usize),
            _ => None,
        }
    }
}

impl<'vm> Marshalled<'vm> for usize {
    proof fn law_read_back(self, vm: &Thread, heap: Heap) {
        assert(self as VmInt as usize == self) by (bit_vector);
    }
}

impl VmType for isize {
    open spec fn typable(vm: &Thread) -> bool {
        vm.known_type("VmInt"@) is Some
    }

    open spec fn typ(vm: &Thread) -> Term<Op> {
        vm.known_type("VmInt"@).unwrap()
    }

    open spec fn extra() -> u8 {
        0
    }

    fn make_type(vm: &Thread) -> (typ: Type) {
        vm.get_type("VmInt")
    }

    fn extra_args() -> (count: VmIndex) {
        0
    }
}

impl<'vm> Pushable<'vm> for isize {
    open spec fn pushed(self, vm: &Thread, heap: Heap) -> (Heap, Result<Val, Failure>) {
        (heap, Ok(Val::Int(self as VmInt)))
    }

    proof fn law_memory_is_bounded(self, vm: &Thread, heap: Heap) {
    }

    fn push(self, vm: &'vm Thread, context: &mut Context) -> (result: Result<(), Error>) {
        context.push_value(Value::Int(self as VmInt));
        Ok(())
    }
}

impl<'vm> Getable<'vm> for isize {
    type Image = isize;

    open spec fn image(self) -> isize {
        self
    }

    open spec fn gettable(value: Val) -> bool {
        true
    }

    open spec fn got(value: Val) -> Option<isize> {
        match value {
            Val::Int(i) => Some(i as isize),
            _ => None,
        }
    }

    open spec fn got_rooted(value: Val) -> Option<isize> {
        Self::got(value)
    }

    fn from_value_unsafe(vm: &'vm Thread, value: Variants<'vm>) -> (found: Option<isize>) {
        Self::from_value(vm, value)
    }

    fn from_value(vm: &'vm Thread, value: Variants<'vm>) -> (found: Option<isize>) {
        match value.as_ref() {
            ValueRef::Int(i) => Some(i as isize),
            _ => None,
        }
    }
}

impl<'vm> Marshalled<'vm> for isize {
    proof fn law_read_back(self, vm: &Thread, heap: Heap) {
        assert(self as VmInt as isize == self) by (bit_vector);
    }
}

/// A floating point number, by its bits in the IEEE 754 binary64 format.
#[derive(Clone, Copy, Debug)]
pub struct Float(pub u64);

impl VmType for Float {
    open spec fn typable(vm: &Thread) -> bool {
        vm.known_type("f64"@) is Some
    }

    open spec fn typ(vm: &Thread) -> Term<Op> {
        vm.known_type("f64"@).unwrap()
    }

    open spec fn extra() -> u8 {
        0
    }

    fn make_type(vm: &Thread) -> (typ: Type) {
        vm.get_type("f64")
    }

    fn extra_args() -> (count: VmIndex) {
        0
    }
}

impl<'vm> Pushable<'vm> for Float {
    open spec fn pushed(self, vm: &Thread, heap: Heap) -> (Heap, Result<Val, Failure>) {
        (heap, Ok(Val::Float(self.0)))
    }

    proof fn law_memory_is_bounded(self, vm: &Thread, heap: Heap) {
    }

    fn push(self, vm: &'vm Thread, context: &mut Context) -> (result: Result<(), Error>) {
        context.push_value(Value::Float(self.0));
        Ok(())
    }
}

impl<'vm> Getable<'vm> for Float {
    type Image = u64;

    open spec fn image(self) -> u64 {
        self.0
    }

    open spec fn gettable(value: Val) -> bool {
        true
    }

    open spec fn got(value: Val) -> Option<u64> {
        match value {
            Val::Float(bits) => Some(bits),
            _ => None,
        }
    }

    open spec fn got_rooted(value: Val) -> Option<u64> {
        Self::got(value)
    }

    fn from_value_unsafe(vm: &'vm Thread, value: Variants<'vm>) -> (found: Option<Float>) {
        Self::from_value(vm, value)
    }

    fn from_value(vm: &'vm Thread, value: Variants<'vm>) -> (found: Option<Float>) {
        match value.as_ref() {
            ValueRef::Float(bits) => Some(Float(bits)),
            _ => None,
        }
    }
}

impl<'vm> Marshalled<'vm> for Float {
    proof fn law_read_back(self, vm: &Thread, heap: Heap) {
    }
}

impl ArrayRepr for Float {
    open spec fn element(self) -> Val {
        Val::Float(self.0)
    }

    open spec fn taken(element: Val) -> Option<Float> {
        match element {
            Val::Float(bits) => Some(Float(bits)),
            _ => None,
        }
    }

    fn to_element(self) -> (value: Value) {
        Value::Float(self.0)
    }

    fn from_element(value: &Value) -> (found: Option<Float>) {
        match value {
            Value::Float(bits) => Some(Float(*bits)),
            _ => None,
        }
    }

    proof fn lemma_taken(self) {
    }
}

/// The type that an alias stands for.
pub open spec fn alias_type(vm: &Thread, name: Seq<char>) -> Term<Op> {
    alias::leaf(Op::Alias(vm.type_info(name).unwrap().model()))
}

/// The type that the alias `name` stands for. There has to be one.
pub fn find_alias_type(vm: &Thread, name: &str) -> (typ: Type)
    requires
        vm.type_info(name@) is Some,
    ensures
        typ.model() == alias_type(vm, name@),
{
    match vm.find_type_info(name) {
        Some(alias) => Type::alias(alias.duplicate()),
        None => unreached(),
    }
}

impl VmType for bool {
    open spec fn typable(vm: &Thread) -> bool {
        vm.type_info("std.types.Bool"@) is Some
    }

    open spec fn typ(vm: &Thread) -> Term<Op> {
        alias_type(vm, "std.types.Bool"@)
    }

    open spec fn extra() -> u8 {
        0
    }

    fn make_type(vm: &Thread) -> (typ: Type) {
        find_alias_type(vm, "std.types.Bool")
    }

    fn extra_args() -> (count: VmIndex) {
        0
    }
}

impl<'vm> Pushable<'vm> for bool {
    open spec fn pushed(self, vm: &Thread, heap: Heap) -> (Heap, Result<Val, Failure>) {
        (heap, Ok(Val::Tag(if self { 1 } else { 0 })))
    }

    proof fn law_memory_is_bounded(self, vm: &Thread, heap: Heap) {
    }

    fn push(self, vm: &'vm Thread, context: &mut Context) -> (result: Result<(), Error>) {
        context.push_value(Value::Tag(if self { 1 } else { 0 }));
        Ok(())
    }
}

impl<'vm> Getable<'vm> for bool {
    type Image = bool;

    open spec fn image(self) -> bool {
        self
    }

    open spec fn gettable(value: Val) -> bool {
        true
    }

    open spec fn got(value: Val) -> Option<bool> {
        match value_ref::shown(value) {
            value_ref::Shown::Data(data) => Some(value_ref::tag_of(data) == 1),
            _ => None,
        }
    }

    open spec fn got_rooted(value: Val) -> Option<bool> {
        Self::got(value)
    }

    fn from_value_unsafe(vm: &'vm Thread, value: Variants<'vm>) -> (found: Option<bool>) {
        Self::from_value(vm, value)
    }

    fn from_value(vm: &'vm Thread, value: Variants<'vm>) -> (found: Option<bool>) {
        match value.as_ref() {
            ValueRef::Data(data) => Some(data.tag() == 1),
            _ => None,
        }
    }
}

impl<'vm> Marshalled<'vm> for bool {
    proof fn law_read_back(self, vm: &Thread, heap: Heap) {
    }
}

/// The type of orderings in gluon.
pub fn ordering_type(vm: &Thread) -> (typ: Type)
    requires
        vm.type_info("std.types.Ordering"@) is Some,
    ensures
        typ.model() == alias_type(vm, "std.types.Ordering"@),
{
    find_alias_type(vm, "std.types.Ordering")
}

/// The tag of an ordering.
pub open spec fn ordering_tag(ordering: Ordering) -> u32 {
    match ordering {
        Ordering::Less => 0,
        Ordering::Equal => 1,
        Ordering::Greater => 2,
    }
}

/// Pushes an ordering.
pub fn push_ordering(ordering: Ordering, context: &mut Context)
    ensures
        final(context)@ == old(context)@.with(Val::Tag(ordering_tag(ordering))),
{
    let tag: u32 = match ordering {
        Ordering::Less => 0,
        Ordering::Equal => 1,
        Ordering::Greater => 2,
    };
    context.push_value(Value::Tag(tag));
}

/// The ordering that a value stands for.
pub open spec fn ordering_got(value: Val) -> Option<Ordering> {
    match value_ref::shown(value) {
        value_ref::Shown::Data(data) => match value_ref::tag_of(data) {
            0 => Some(Ordering::Less),
            1 => Some(Ordering::Equal),
            2 => Some(Ordering::Greater),
            _ => None,
        },
        _ => None,
    }
}

/// Retrieves an ordering.
pub fn ordering_from_value(value: Variants) -> (found: Option<Ordering>)
    ensures
        found == ordering_got(value.0.model()),
{
    let tag: u32 = match value.as_ref() {
        ValueRef::Data(data) => data.tag(),
        _ => {
            return None;
        },
    };
    if tag == 0 {
        Some(Ordering::Less)
    } else if tag == 1 {
        Some(Ordering::Equal)
    } else if tag == 2 {
        Some(Ordering::Greater)
    } else {
        None
    }
}

/// An ordering that was pushed is read back as it was.
pub proof fn law_orderings_are_read_back(ordering: Ordering)
    ensures
        ordering_got(Val::Tag(ordering_tag(ordering))) == Some(ordering),
{
}

impl VmType for str {
    open spec fn typable(vm: &Thread) -> bool {
        vm.known_type("String"@) is Some
    }

    open spec fn typ(vm: &Thread) -> Term<Op> {
        vm.known_type("String"@).unwrap()
    }

    open spec fn extra() -> u8 {
        0
    }

    fn make_type(vm: &Thread) -> (typ: Type) {
        vm.get_type("String")
    }

    fn extra_args() -> (count: VmIndex) {
        0
    }
}

impl VmType for String {
    open spec fn typable(vm: &Thread) -> bool {
        vm.known_type("String"@) is Some
    }

    open spec fn typ(vm: &Thread) -> Term<Op> {
        vm.known_type("String"@).unwrap()
    }

    open spec fn extra() -> u8 {
        0
    }

    fn make_type(vm: &Thread) -> (typ: Type) {
        vm.get_type("String")
    }

    fn extra_args() -> (count: VmIndex) {
        0
    }
}

impl<'vm, 's> Pushable<'vm> for &'s str {
    open spec fn pushed(self, vm: &Thread, heap: Heap) -> (Heap, Result<Val, Failure>) {
        machine::text_placed(heap, self@)
    }

    proof fn law_memory_is_bounded(self, vm: &Thread, heap: Heap) {
    }

    fn push(self, vm: &'vm Thread, context: &mut Context) -> (result: Result<(), Error>) {
        match context.alloc_string(self.to_owned()) {
            Ok(value) => {
                context.push_value(value);
                Ok(())
            },
            Err(error) => Err(error),
        }
    }
}

impl<'vm, 's> Pushable<'vm> for &'s String {
    open spec fn pushed(self, vm: &Thread, heap: Heap) -> (Heap, Result<Val, Failure>) {
        machine::text_placed(heap, self@)
    }

    proof fn law_memory_is_bounded(self, vm: &Thread, heap: Heap) {
    }

    fn push(self, vm: &'vm Thread, context: &mut Context) -> (result: Result<(), Error>) {
        self.as_str().push(vm, context)
    }
}

impl<'vm> Pushable<'vm> for String {
    open spec fn pushed(self, vm: &Thread, heap: Heap) -> (Heap, Result<Val, Failure>) {
        machine::text_placed(heap, self@)
    }

    proof fn law_memory_is_bounded(self, vm: &Thread, heap: Heap) {
    }

    fn push(self, vm: &'vm Thread, context: &mut Context) -> (result: Result<(), Error>) {
        self.as_str().push(vm, context)
    }
}

/// The text of a string.
pub open spec fn text_got(value: Val) -> Option<Seq<char>> {
    match value {
        Val::Text(text) => Some(text),
        _ => None,
    }
}

impl<'vm> Getable<'vm> for String {
    type Image = Seq<char>;

    open spec fn image(self) -> Seq<char> {
        self@
    }

    open spec fn gettable(value: Val) -> bool {
        true
    }

    open spec fn got(value: Val) -> Option<Seq<char>> {
        text_got(value)
    }

    open spec fn got_rooted(value: Val) -> Option<Seq<char>> {
        text_got(value)
    }

    fn from_value_unsafe(vm: &'vm Thread, value: Variants<'vm>) -> (found: Option<String>) {
        Self::from_value(vm, value)
    }

    fn from_value(vm: &'vm Thread, value: Variants<'vm>) -> (found: Option<String>) {
        match value.as_ref() {
            ValueRef::String(s) => Some(s.to_owned()),
            _ => None,
        }
    }
}

impl<'vm> Marshalled<'vm> for String {
    proof fn law_read_back(self, vm: &Thread, heap: Heap) {
    }
}

impl<'vm> Getable<'vm> for &'vm str {
    type Image = Seq<char>;

    open spec fn image(self) -> Seq<char> {
        self@
    }

    open spec fn gettable(value: Val) -> bool {
        true
    }

    open spec fn got(value: Val) -> Option<Seq<char>> {
        text_got(value)
    }

    open spec fn got_rooted(value: Val) -> Option<Seq<char>> {
        text_got(value)
    }

    fn from_value_unsafe(vm: &'vm Thread, value: Variants<'vm>) -> (found: Option<&'vm str>) {
        Self::from_value(vm, value)
    }

    fn from_value(vm: &'vm Thread, value: Variants<'vm>) -> (found: Option<&'vm str>) {
        match value.as_ref() {
            ValueRef::String(s) => Some(s),
            _ => None,
        }
    }
}

impl<'vm> Marshalled<'vm> for &'vm str {
    proof fn law_read_back(self, vm: &Thread, heap: Heap) {
    }
}

/// A string of the virtual machine that is kept alive.
#[derive(Debug)]
pub struct RootStr(pub Arc<String>);

impl VmType for RootStr {
    open spec fn typable(vm: &Thread) -> bool {
        vm.known_type("String"@) is Some
    }

    open spec fn typ(vm: &Thread) -> Term<Op> {
        vm.known_type("String"@).unwrap()
    }

    open spec fn extra() -> u8 {
        0
    }

    fn make_type(vm: &Thread) -> (typ: Type) {
        vm.get_type("String")
    }

    fn extra_args() -> (count: VmIndex) {
        0
    }
}

impl<'vm> Getable<'vm> for RootStr {
    type Image = Seq<char>;

    open spec fn image(self) -> Seq<char> {
        self.0@
    }

    open spec fn gettable(value: Val) -> bool {
        true
    }

    open spec fn got(value: Val) -> Option<Seq<char>> {
        text_got(value)
    }

    open spec fn got_rooted(value: Val) -> Option<Seq<char>> {
        text_got(value)
    }

    fn from_value_unsafe(vm: &'vm Thread, value: Variants<'vm>) -> (found: Option<RootStr>) {
        Self::from_value(vm, value)
    }

    fn from_value(vm: &'vm Thread, value: Variants<'vm>) -> (found: Option<RootStr>) {
        match value.0 {
            Value::String(s) => Some(RootStr(share(s))),
            _ => None,
        }
    }
}

/// The number is that of a character.
pub open spec fn is_scalar(x: u32) -> bool {
    x < 0xD800 || 0xE000 <= x <= 0x10FFFF
}

/// The character of that number, if there is one.
pub open spec fn character(x: u32) -> Option<char> {
    if is_scalar(x) {
        Some(x as char)
    } else {
        None
    }
}

/// Every character has a number.
proof fn lemma_character(c: char)
    ensures
        character(c as u32) == Some(c),
        c as u32 as VmInt as u32 == c as u32,
{
    assert(0 <= c as int <= 0x10FFFF);
}

/// `char::from_u32`: the character of that number, where the number is a Unicode scalar value.
#[verifier::external_body]
fn char_from_u32(x: u32) -> (found: Option<char>)
    ensures
        found == character(x),
{
    char::from_u32(x)
}

impl VmType for char {
    open spec fn typable(vm: &Thread) -> bool {
        vm.known_type("char"@) is Some
    }

    open spec fn typ(vm: &Thread) -> Term<Op> {
        vm.known_type("char"@).unwrap()
    }

    open spec fn extra() -> u8 {
        0
    }

    fn make_type(vm: &Thread) -> (typ: Type) {
        vm.get_type("char")
    }

    fn extra_args() -> (count: VmIndex) {
        0
    }
}

impl<'vm> Pushable<'vm> for char {
    open spec fn pushed(self, vm: &Thread, heap: Heap) -> (Heap, Result<Val, Failure>) {
        (heap, Ok(Val::Int(self as u32 as VmInt)))
    }

    proof fn law_memory_is_bounded(self, vm: &Thread, heap: Heap) {
    }

    fn push(self, vm: &'vm Thread, context: &mut Context) -> (result: Result<(), Error>) {
        context.push_value(Value::Int(self as u32 as VmInt));
        Ok(())
    }
}

impl<'vm> Getable<'vm> for char {
    type Image = char;

    open spec fn image(self) -> char {
        self
    }

    open spec fn gettable(value: Val) -> bool {
        true
    }

    open spec fn got(value: Val) -> Option<char> {
        match value {
            Val::Int(i) => character(i as u32),
            _ => None,
        }
    }

    open spec fn got_rooted(value: Val) -> Option<char> {
        Self::got(value)
    }

    fn from_value_unsafe(vm: &'vm Thread, value: Variants<'vm>) -> (found: Option<char>) {
        Self::from_value(vm, value)
    }

    fn from_value(vm: &'vm Thread, value: Variants<'vm>) -> (found: Option<char>) {
        match value.as_ref() {
            ValueRef::Int(i) => char_from_u32(i as u32),
            _ => None,
        }
    }
}

impl<'vm> Marshalled<'vm> for char {
    proof fn law_read_back(self, vm: &Thread, heap: Heap) {
        lemma_character(self);
    }
}

impl<'a, T: VmType + ?Sized> VmType for &'a T {
    open spec fn typable(vm: &Thread) -> bool {
        T::typable(vm)
    }

    open spec fn typ(vm: &Thread) -> Term<Op> {
        T::typ(vm)
    }

    open spec fn extra() -> u8 {
        0
    }

    fn make_type(vm: &Thread) -> (typ: Type) {
        T::make_type(vm)
    }

    fn extra_args() -> (count: VmIndex) {
        0
    }
}

impl<'s, T: VmType + ArrayRepr> VmType for &'s [T] {
    open spec fn typable(vm: &Thread) -> bool {
        T::typable(vm)
    }

    open spec fn typ(vm: &Thread) -> Term<Op> {
        type_cache::array_type(T::typ(vm))
    }

    open spec fn extra() -> u8 {
        0
    }

    fn make_type(vm: &Thread) -> (typ: Type) {
        Type::array(T::make_type(vm))
    }

    fn extra_args() -> (count: VmIndex) {
        0
    }
}

impl<'vm, 's, T: ArrayRepr + Copy> Pushable<'vm> for &'s [T] {
    open spec fn pushed(self, vm: &Thread, heap: Heap) -> (Heap, Result<Val, Failure>) {
        machine::array_placed(heap, value_ref::elements_of(self@))
    }

    proof fn law_memory_is_bounded(self, vm: &Thread, heap: Heap) {
    }

    fn push(self, vm: &'vm Thread, context: &mut Context) -> (result: Result<(), Error>) {
        let mut values: Vec<Value> = Vec::new();
        let mut i: usize = 0;
        while i < self.len()
            invariant
                i <= self@.len(),
                values@.len() == i,
                forall|k: int| 0 <= k < i ==> (#[trigger] values@[k]).model() == self@[k].element(),
            decreases self@.len() - i,
        {
            values.push(self[i].to_element());
            i = i + 1;
        }
        assert(crate::value::models_of(values@) =~= value_ref::elements_of(self@));
        match context.alloc_array(values) {
            Ok(value) => {
                context.push_value(value);
                Ok(())
            },
            Err(error) => Err(error),
        }
    }
}

/// The elements of an array as values of one type, if they all are.
pub open spec fn slice_got<T: ArrayRepr>(value: Val) -> Option<Seq<T>> {
    match value {
        Val::Array(values) => value_ref::slice_of::<T>(values),
        _ => None,
    }
}

/// Retrieves the elements of an array that holds values of one type.
pub fn slice_from_value<T: ArrayRepr>(value: Variants) -> (found: Option<Vec<T>>)
    ensures
        match found {
            Some(values) => slice_got::<T>(value.0.model()) == Some(values@),
            None => slice_got::<T>(value.0.model()) is None,
        },
{
    match value.as_ref() {
        ValueRef::Array(array) => array.as_slice::<T>(),
        _ => None,
    }
}

/// A slice that was pushed is read back as it was.
pub proof fn law_slices_are_read_back<T: ArrayRepr>(values: Seq<T>)
    ensures
        slice_got::<T>(Val::Array(value_ref::elements_of(values))) == Some(values),
{
    let elements = value_ref::elements_of(values);
    assert forall|i: int| 0 <= i < elements.len() implies T::taken(#[trigger] elements[i]) == Some(
        values[i],
    ) by {
        values[i].lemma_taken();
    }
    assert(value_ref::slice_of::<T>(elements).unwrap() =~= values);
}

} // verus!
