//! Types which represent generic variables in gluon's type system.
use vstd::prelude::*;
use crate::api::VmType;
use crate::term::Term;
use crate::thread::Thread;
use crate::types::{Op, Type};
use crate::value::VmIndex;

verus! {

/// The type variable `a`.
#[derive(Clone, Copy, Debug, PartialEq)]
pub struct A;

impl VmType for A {
    open spec fn typable(vm: &Thread) -> bool {
        true
    }

    open spec fn typ(vm: &Thread) -> Term<Op> {
        vm.generic('a')
    }

    open spec fn extra() -> u8 {
        0
    }

    fn make_type(vm: &Thread) -> (typ: Type) {
        vm.get_generic('a')
    }

    fn extra_args() -> (count: VmIndex) {
        0
    }
}

/// The type variable `b`.
#[derive(Clone, Copy, Debug, PartialEq)]
pub struct B;

impl VmType for B {
    open spec fn typable(vm: &Thread) -> bool {
        true
    }

    open spec fn typ(vm: &Thread) -> Term<Op> {
        vm.generic('b')
    }

    open spec fn extra() -> u8 {
        0
    }

    fn make_type(vm: &Thread) -> (typ: Type) {
        vm.get_generic('b')
    }

    fn extra_args() -> (count: VmIndex) {
        0
    }
}

/// The type variable `c`.
#[derive(Clone, Copy, Debug, PartialEq)]
pub struct C;

impl VmType for C {
    open spec fn typable(vm: &Thread) -> bool {
        true
    }

    open spec fn typ(vm: &Thread) -> Term<Op> {
        vm.generic('c')
    }

    open spec fn extra() -> u8 {
        0
    }

    fn make_type(vm: &Thread) -> (typ: Type) {
        vm.get_generic('c')
    }

    fn extra_args() -> (count: VmIndex) {
        0
    }
}

/// The type variable `d`.
#[derive(Clone, Copy, Debug, PartialEq)]
pub struct D;

impl VmType for D {
    open spec fn typable(vm: &Thread) -> bool {
        true
    }

    open spec fn typ(vm: &Thread) -> Term<Op> {
        vm.generic('d')
    }

    open spec fn extra() -> u8 {
        0
    }

    fn make_type(vm: &Thread) -> (typ: Type) {
        vm.get_generic('d')
    }

    fn extra_args() -> (count: VmIndex) {
        0
    }
}

/// The type variable `e`.
#[derive(Clone, Copy, Debug, PartialEq)]
pub struct E;

impl VmType for E {
    open spec fn typable(vm: &Thread) -> bool {
        true
    }

    open spec fn typ(vm: &Thread) -> Term<Op> {
        vm.generic('e')
    }

    open spec fn extra() -> u8 {
        0
    }

    fn make_type(vm: &Thread) -> (typ: Type) {
        vm.get_generic('e')
    }

    fn extra_args() -> (count: VmIndex) {
        0
    }
}

/// The type variable `f`.
#[derive(Clone, Copy, Debug, PartialEq)]
pub struct F;

impl VmType for F {
    open spec fn typable(vm: &Thread) -> bool {
        true
    }

    open spec fn typ(vm: &Thread) -> Term<Op> {
        vm.generic('f')
    }

    open spec fn extra() -> u8 {
        0
    }

    fn make_type(vm: &Thread) -> (typ: Type) {
        vm.get_generic('f')
    }

    fn extra_args() -> (count: VmIndex) {
        0
    }
}

/// The type variable `g`.
#[derive(Clone, Copy, Debug, PartialEq)]
pub struct G;

impl VmType for G {
    open spec fn typable(vm: &Thread) -> bool {
        true
    }

    open spec fn typ(vm: &Thread) -> Term<Op> {
        vm.generic('g')
    }

    open spec fn extra() -> u8 {
        0
    }

    fn make_type(vm: &Thread) -> (typ: Type) {
        vm.get_generic('g')
    }

    fn extra_args() -> (count: VmIndex) {
        0
    }
}

/// The type variable `h`.
#[derive(Clone, Copy, Debug, PartialEq)]
pub struct H;

impl VmType for H {
    open spec fn typable(vm: &Thread) -> bool {
        true
    }

    open spec fn typ(vm: &Thread) -> Term<Op> {
        vm.generic('h')
    }

    open spec fn extra() -> u8 {
        0
    }

    fn make_type(vm: &Thread) -> (typ: Type) {
        vm.get_generic('h')
    }

    fn extra_args() -> (count: VmIndex) {
        0
    }
}

/// The type variable `i`.
#[derive(Clone, Copy, Debug, PartialEq)]
pub struct I;

impl VmType for I {
    open spec fn typable(vm: &Thread) -> bool {
        true
    }

    open spec fn typ(vm: &Thread) -> Term<Op> {
        vm.generic('i')
    }

    open spec fn extra() -> u8 {
        0
    }

    fn make_type(vm: &Thread) -> (typ: Type) {
        vm.get_generic('i')
    }

    fn extra_args() -> (count: VmIndex) {
        0
    }
}

/// The type variable `j`.
#[derive(Clone, Copy, Debug, PartialEq)]
pub struct J;

impl VmType for J {
    open spec fn typable(vm: &Thread) -> bool {
        true
    }

    open spec fn typ(vm: &Thread) -> Term<Op> {
        vm.generic('j')
    }

    open spec fn extra() -> u8 {
        0
    }

    fn make_type(vm: &Thread) -> (typ: Type) {
        vm.get_generic('j')
    }

    fn extra_args() -> (count: VmIndex) {
        0
    }
}

/// The type variable `k`.
#[derive(Clone, Copy, Debug, PartialEq)]
pub struct K;

impl VmType for K {
    open spec fn typable(vm: &Thread) -> bool {
        true
    }

    open spec fn typ(vm: &Thread) -> Term<Op> {
        vm.generic('k')
    }

    open spec fn extra() -> u8 {
        0
    }

    fn make_type(vm: &Thread) -> (typ: Type) {
        vm.get_generic('k')
    }

    fn extra_args() -> (count: VmIndex) {
        0
    }
}

/// The type variable `l`.
#[derive(Clone, Copy, Debug, PartialEq)]
pub struct L;

impl VmType for L {
    open spec fn typable(vm: &Thread) -> bool {
        true
    }

    open spec fn typ(vm: &Thread) -> Term<Op> {
        vm.generic('l')
    }

    open spec fn extra() -> u8 {
        0
    }

    fn make_type(vm: &Thread) -> (typ: Type) {
        vm.get_generic('l')
    }

    fn extra_args() -> (count: VmIndex) {
        0
    }
}

/// The type variable `m`.
#[derive(Clone, Copy, Debug, PartialEq)]
pub struct M;

impl VmType for M {
    open spec fn typable(vm: &Thread) -> bool {
        true
    }

    open spec fn typ(vm: &Thread) -> Term<Op> {
        vm.generic('m')
    }

    open spec fn extra() -> u8 {
        0
    }

    fn make_type(vm: &Thread) -> (typ: Type) {
        vm.get_generic('m')
    }

    fn extra_args() -> (count: VmIndex) {
        0
    }
}

/// The type variable `n`.
#[derive(Clone, Copy, Debug, PartialEq)]
pub struct N;

impl VmType for N {
    open spec fn typable(vm: &Thread) -> bool {
        true
    }

    open spec fn typ(vm: &Thread) -> Term<Op> {
        vm.generic('n')
    }

    open spec fn extra() -> u8 {
        0
    }

    fn make_type(vm: &Thread) -> (typ: Type) {
        vm.get_generic('n')
    }

    fn extra_args() -> (count: VmIndex) {
        0
    }
}

/// The type variable `o`.
#[derive(Clone, Copy, Debug, PartialEq)]
pub struct O;

impl VmType for O {
    open spec fn typable(vm: &Thread) -> bool {
        true
    }

    open spec fn typ(vm: &Thread) -> Term<Op> {
        vm.generic('o')
    }

    open spec fn extra() -> u8 {
        0
    }

    fn make_type(vm: &Thread) -> (typ: Type) {
        vm.get_generic('o')
    }

    fn extra_args() -> (count: VmIndex) {
        0
    }
}

/// The type variable `p`.
#[derive(Clone, Copy, Debug, PartialEq)]
pub struct P;

impl VmType for P {
    open spec fn typable(vm: &Thread) -> bool {
        true
    }

    open spec fn typ(vm: &Thread) -> Term<Op> {
        vm.generic('p')
    }

    open spec fn extra() -> u8 {
        0
    }

    fn make_type(vm: &Thread) -> (typ: Type) {
        vm.get_generic('p')
    }

    fn extra_args() -> (count: VmIndex) {
        0
    }
}

/// The type variable `q`.
#[derive(Clone, Copy, Debug, PartialEq)]
pub struct Q;

impl VmType for Q {
    open spec fn typable(vm: &Thread) -> bool {
        true
    }

    open spec fn typ(vm: &Thread) -> Term<Op> {
        vm.generic('q')
    }

    open spec fn extra() -> u8 {
        0
    }

    fn make_type(vm: &Thread) -> (typ: Type) {
        vm.get_generic('q')
    }

    fn extra_args() -> (count: VmIndex) {
        0
    }
}

/// The type variable `r`.
#[derive(Clone, Copy, Debug, PartialEq)]
pub struct R;

impl VmType for R {
    open spec fn typable(vm: &Thread) -> bool {
        true
    }

    open spec fn typ(vm: &Thread) -> Term<Op> {
        vm.generic('r')
    }

    open spec fn extra() -> u8 {
        0
    }

    fn make_type(vm: &Thread) -> (typ: Type) {
        vm.get_generic('r')
    }

    fn extra_args() -> (count: VmIndex) {
        0
    }
}

/// The type variable `x`.
#[derive(Clone, Copy, Debug, PartialEq)]
pub struct X;

impl VmType for X {
    open spec fn typable(vm: &Thread) -> bool {
        true
    }

    open spec fn typ(vm: &Thread) -> Term<Op> {
        vm.generic('x')
    }

    open spec fn extra() -> u8 {
        0
    }

    fn make_type(vm: &Thread) -> (typ: Type) {
        vm.get_generic('x')
    }

    fn extra_args() -> (count: VmIndex) {
        0
    }
}

/// The type variable `y`.
#[derive(Clone, Copy, Debug, PartialEq)]
pub struct Y;

impl VmType for Y {
    open spec fn typable(vm: &Thread) -> bool {
        true
    }

    open spec fn typ(vm: &Thread) -> Term<Op> {
        vm.generic('y')
    }

    open spec fn extra() -> u8 {
        0
    }

    fn make_type(vm: &Thread) -> (typ: Type) {
        vm.get_generic('y')
    }

    fn extra_args() -> (count: VmIndex) {
        0
    }
}

/// The type variable `z`.
#[derive(Clone, Copy, Debug, PartialEq)]
pub struct Z;

impl VmType for Z {
    open spec fn typable(vm: &Thread) -> bool {
        true
    }

    open spec fn typ(vm: &Thread) -> Term<Op> {
        vm.generic('z')
    }

    open spec fn extra() -> u8 {
        0
    }

    fn make_type(vm: &Thread) -> (typ: Type) {
        vm.get_generic('z')
    }

    fn extra_args() -> (count: VmIndex) {
        0
    }
}

} // verus!
