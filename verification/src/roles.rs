//! Types of the host that give values a special role in the virtual machine.
use vstd::prelude::*;
use crate::alias;
use crate::api::{AsyncPushable, Getable, Marshalled, Pushable, VmType};
use crate::compound;
use crate::compound::apply_alias;
use crate::machine;
use crate::machine::{Context, Error, Failure, Heap, Machine};
use crate::term::Term;
use crate::text::Show;
use crate::thread::Thread;
use crate::types;
use crate::types::{Op, Type};
use crate::value::{UserdataPtr, Val, VmIndex};
use crate::value_ref;
use crate::value_ref::{ArrayRepr, ValueRef, Variants};
use futures::Async;
use std::marker::PhantomData;
use vstd::std_specs::convert::FromSpecImpl;

verus! {

/// Marker type representing a hole
#[derive(Debug)]
pub struct Hole(());

impl VmType for Hole {
    open spec fn typable(vm: &Thread) -> bool {
        true
    }

    open spec fn typ(vm: &Thread) -> Term<Op> {
        alias::leaf(Op::Hole)
    }

    open spec fn extra() -> u8 {
        0
    }

    fn make_type(vm: &Thread) -> (typ: Type) {
        Type::hole()
    }

    fn extra_args() -> (count: VmIndex) {
        0
    }
}

/// Type representing gluon's IO type
#[derive(Debug, PartialEq)]
pub enum IO<T> {
    Value(T),
    Exception(String),
}

impl<T: VmType> VmType for IO<T> {
    open spec fn typable(vm: &Thread) -> bool {
        vm.type_info("IO"@) is Some && T::typable(vm)
    }

    open spec fn typ(vm: &Thread) -> Term<Op> {
        compound::applied_alias(vm, "IO"@, seq![T::typ(vm)])
    }

    open spec fn extra() -> u8 {
        1
    }

    fn make_type(vm: &Thread) -> (typ: Type) {
        let mut args: Vec<Type> = Vec::new();
        args.push(T::make_type(vm));
        assert(types::models_of(args@) =~= seq![T::typ(vm)]);
        apply_alias(vm, "IO", args)
    }

    fn extra_args() -> (count: VmIndex) {
        1
    }
}

impl<'vm, T: Pushable<'vm>> Pushable<'vm> for IO<T> {
    open spec fn pushed(self, vm: &Thread, heap: Heap) -> (Heap, Result<Val, Failure>) {
        match self {
            IO::Value(value) => value.pushed(vm, heap),
            IO::Exception(exc) => (heap, Err(Failure::Message(exc@))),
        }
    }

    proof fn law_memory_is_bounded(self, vm: &Thread, heap: Heap) {
        if let IO::Value(value) = self {
            value.law_memory_is_bounded(vm, heap);
        }
    }

    fn push(self, vm: &'vm Thread, context: &mut Context) -> (result: Result<(), Error>) {
        match self {
            IO::Value(value) => value.push(vm, context),
            IO::Exception(exc) => Err(Error::Message(exc)),
        }
    }
}

impl<'vm, T: Getable<'vm>> Getable<'vm> for IO<T> {
    type Image = Option<T::Image>;

    /// The value, if there was no exception.
    open spec fn image(self) -> Option<T::Image> {
        match self {
            IO::Value(value) => Some(value.image()),
            IO::Exception(_) => None,
        }
    }

    open spec fn of_thread(self, vm: &Thread) -> bool {
        self matches IO::Value(value) ==> value.of_thread(vm)
    }

    open spec fn gettable(value: Val) -> bool {
        T::gettable(value)
    }

    open spec fn got(value: Val) -> Option<Option<T::Image>> {
        match T::got(value) {
            Some(image) => Some(Some(image)),
            None => None,
        }
    }

    open spec fn got_rooted(value: Val) -> Option<Option<T::Image>> {
        Self::got(value)
    }

    fn from_value_unsafe(vm: &'vm Thread, value: Variants<'vm>) -> (found: Option<IO<T>>) {
        Self::from_value(vm, value)
    }

    fn from_value(vm: &'vm Thread, value: Variants<'vm>) -> (found: Option<IO<T>>) {
        match T::from_value(vm, value) {
            Some(value) => Some(IO::Value(value)),
            None => None,
        }
    }
}

impl<'vm, T: Marshalled<'vm>> Marshalled<'vm> for IO<T> {
    proof fn law_read_back(self, vm: &Thread, heap: Heap) {
        if let IO::Value(value) = self {
            value.law_read_back(vm, heap);
        }
    }
}

/// Wrapper type which passes acts as the type `T` but also passes the `VM` to the called function
#[derive(Debug)]
pub struct WithVM<'vm, T> {
    pub vm: &'vm Thread,
    pub value: T,
}

impl<'vm, T: VmType> VmType for WithVM<'vm, T> {
    open spec fn typable(vm: &Thread) -> bool {
        T::typable(vm)
    }

    open spec fn typ(vm: &Thread) -> Term<Op> {
        T::typ(vm)
    }

    open spec fn extra() -> u8 {
        T::extra()
    }

    fn make_type(vm: &Thread) -> (typ: Type) {
        T::make_type(vm)
    }

    fn extra_args() -> (count: VmIndex) {
        T::extra_args()
    }
}

impl<'vm, 'a, T: Pushable<'vm>> Pushable<'vm> for WithVM<'a, T> {
    open spec fn pushed(self, vm: &Thread, heap: Heap) -> (Heap, Result<Val, Failure>) {
        self.value.pushed(vm, heap)
    }

    proof fn law_memory_is_bounded(self, vm: &Thread, heap: Heap) {
        self.value.law_memory_is_bounded(vm, heap);
    }

    fn push(self, vm: &'vm Thread, context: &mut Context) -> (result: Result<(), Error>) {
        self.value.push(vm, context)
    }
}

impl<'vm, T: Getable<'vm>> Getable<'vm> for WithVM<'vm, T> {
    type Image = T::Image;

    open spec fn image(self) -> T::Image {
        self.value.image()
    }

    open spec fn of_thread(self, vm: &Thread) -> bool {
        *self.vm == *vm && self.value.of_thread(vm)
    }

    open spec fn gettable(value: Val) -> bool {
        T::gettable(value)
    }

    open spec fn got(value: Val) -> Option<T::Image> {
        T::got(value)
    }

    open spec fn got_rooted(value: Val) -> Option<T::Image> {
        T::got_rooted(value)
    }

    fn from_value_unsafe(vm: &'vm Thread, value: Variants<'vm>) -> (found: Option<WithVM<'vm, T>>)
        ensures
            found matches Some(with) ==> *with.vm == *vm,
    {
        match T::from_value_unsafe(vm, value) {
            Some(value) => Some(WithVM { vm, value }),
            None => None,
        }
    }

    fn from_value(vm: &'vm Thread, value: Variants<'vm>) -> (found: Option<WithVM<'vm, T>>)
        ensures
            found matches Some(with) ==> *with.vm == *vm,
    {
        match T::from_value(vm, value) {
            Some(value) => Some(WithVM { vm, value }),
            None => None,
        }
    }
}

impl<'vm, T: Marshalled<'vm>> Marshalled<'vm> for WithVM<'vm, T> {
    proof fn law_read_back(self, vm: &Thread, heap: Heap) {
        self.value.law_read_back(vm, heap);
    }
}

/// Wrapper around a future which can be used as a return value to let the virtual machine know
/// that it must resolve the future to receive the value.
#[derive(Debug)]
pub struct FutureResult<F>(pub F);

/// A future of a `T` that the host holds, by its number.
#[derive(Debug)]
pub struct FutureHandle<T> {
    pub id: u64,
    pub item: PhantomData<T>,
}

impl<T: VmType> VmType for FutureResult<FutureHandle<T>> {
    open spec fn typable(vm: &Thread) -> bool {
        T::typable(vm)
    }

    open spec fn typ(vm: &Thread) -> Term<Op> {
        T::typ(vm)
    }

    open spec fn extra() -> u8 {
        T::extra()
    }

    fn make_type(vm: &Thread) -> (typ: Type) {
        T::make_type(vm)
    }

    fn extra_args() -> (count: VmIndex) {
        T::extra_args()
    }
}

impl<'vm, T> AsyncPushable<'vm> for FutureResult<FutureHandle<T>> {
    open spec fn async_pushed(self, vm: &Thread, before: Machine) -> (
        Machine,
        Result<bool, Failure>,
    ) {
        (Machine { futures: before.futures.push(self.0.id), ..before }, Ok(false))
    }

    fn async_push(self, vm: &'vm Thread, context: &mut Context) -> (result: Result<
        Async<()>,
        Error,
    >) {
        context.return_future(self.0.id);
        Ok(Async::NotReady)
    }
}

/// What a function of the host returns that may have to stop the program.
#[derive(Debug)]
pub enum RuntimeResult<T, E> {
    Return(T),
    Panic(E),
}

impl<T, E> From<Result<T, E>> for RuntimeResult<T, E> {
    fn from(result: Result<T, E>) -> (runtime: RuntimeResult<T, E>) {
        match result {
            Ok(ok) => RuntimeResult::Return(ok),
            Err(err) => RuntimeResult::Panic(err),
        }
    }
}

impl<T, E> FromSpecImpl<Result<T, E>> for RuntimeResult<T, E> {
    open spec fn obeys_from_spec() -> bool {
        true
    }

    open spec fn from_spec(result: Result<T, E>) -> RuntimeResult<T, E> {
        match result {
            Ok(ok) => RuntimeResult::Return(ok),
            Err(err) => RuntimeResult::Panic(err),
        }
    }
}

impl<T: VmType, E> VmType for RuntimeResult<T, E> {
    open spec fn typable(vm: &Thread) -> bool {
        T::typable(vm)
    }

    open spec fn typ(vm: &Thread) -> Term<Op> {
        T::typ(vm)
    }

    open spec fn extra() -> u8 {
        0
    }

    fn make_type(vm: &Thread) -> (typ: Type) {
        T::make_type(vm)
    }

    fn extra_args() -> (count: VmIndex) {
        0
    }
}

impl<'vm, T: Pushable<'vm>, E: Show> Pushable<'vm> for RuntimeResult<T, E> {
    open spec fn pushed(self, vm: &Thread, heap: Heap) -> (Heap, Result<Val, Failure>) {
        match self {
            RuntimeResult::Return(value) => value.pushed(vm, heap),
            RuntimeResult::Panic(err) => (heap, Err(Failure::Message(err.text()))),
        }
    }

    proof fn law_memory_is_bounded(self, vm: &Thread, heap: Heap) {
        if let RuntimeResult::Return(value) = self {
            value.law_memory_is_bounded(vm, heap);
        }
    }

    fn push(self, vm: &'vm Thread, context: &mut Context) -> (result: Result<(), Error>) {
        match self {
            RuntimeResult::Return(value) => value.push(vm, context),
            RuntimeResult::Panic(err) => Err(Error::Message(err.show())),
        }
    }
}

/// Newtype which can be used to push types by what they can be borrowed as
#[derive(Debug)]
pub struct PushAsRef<T, R: ?Sized>(T, PhantomData<R>);

impl<T, R: ?Sized> PushAsRef<T, R> {
    pub closed spec fn inner(&self) -> T {
        self.0
    }

    pub fn new(value: T) -> (push: PushAsRef<T, R>)
        ensures
            push.inner() == value,
    {
        PushAsRef(value, PhantomData)
    }
}

impl<T, R: VmType + ?Sized> VmType for PushAsRef<T, R> {
    open spec fn typable(vm: &Thread) -> bool {
        R::typable(vm)
    }

    open spec fn typ(vm: &Thread) -> Term<Op> {
        R::typ(vm)
    }

    open spec fn extra() -> u8 {
        0
    }

    fn make_type(vm: &Thread) -> (typ: Type) {
        R::make_type(vm)
    }

    fn extra_args() -> (count: VmIndex) {
        0
    }
}

impl<'vm> Pushable<'vm> for PushAsRef<String, str> {
    open spec fn pushed(self, vm: &Thread, heap: Heap) -> (Heap, Result<Val, Failure>) {
        machine::text_placed(heap, self.inner()@)
    }

    proof fn law_memory_is_bounded(self, vm: &Thread, heap: Heap) {
    }

    fn push(self, vm: &'vm Thread, context: &mut Context) -> (result: Result<(), Error>) {
        self.0.as_str().push(vm, context)
    }
}

impl<'vm, T: ArrayRepr + Copy> Pushable<'vm> for PushAsRef<Vec<T>, [T]> {
    open spec fn pushed(self, vm: &Thread, heap: Heap) -> (Heap, Result<Val, Failure>) {
        machine::array_placed(heap, value_ref::elements_of(self.inner()@))
    }

    proof fn law_memory_is_bounded(self, vm: &Thread, heap: Heap) {
    }

    fn push(self, vm: &'vm Thread, context: &mut Context) -> (result: Result<(), Error>) {
        self.0.as_slice().push(vm, context)
    }
}

/// Trait for the types of the host whose values the virtual machine can hold.
pub trait Userdata: Sized {
    /// Tells the types apart.
    spec fn kind() -> u64;

    fn type_kind() -> (kind: u64)
        ensures
            kind == Self::kind(),
    ;

    /// The name under which the type is registered.
    spec fn key() -> Seq<char>;

    fn type_key() -> (key: &'static str)
        ensures
            key@ == Self::key(),
    ;

    /// The number by which the host knows the value.
    spec fn handle(&self) -> u64;

    fn to_handle(&self) -> (handle: u64)
        ensures
            handle == self.handle(),
    ;

    /// The value of that number.
    fn from_handle(handle: u64) -> (value: Self)
        ensures
            value.handle() == handle,
    ;
}

impl<'vm, T: Userdata> Pushable<'vm> for T {
    open spec fn pushed(self, vm: &Thread, heap: Heap) -> (Heap, Result<Val, Failure>) {
        machine::userdata_placed(heap, UserdataPtr { kind: T::kind(), handle: self.handle() })
    }

    proof fn law_memory_is_bounded(self, vm: &Thread, heap: Heap) {
    }

    fn push(self, vm: &'vm Thread, context: &mut Context) -> (result: Result<(), Error>) {
        match context.alloc_userdata(UserdataPtr { kind: T::type_kind(), handle: self.to_handle() }) {
            Ok(value) => {
                context.push_value(value);
                Ok(())
            },
            Err(error) => Err(error),
        }
    }
}

/// The number of a value of the host, if it is one of type `T`.
pub open spec fn downcast<T: Userdata>(value: Val) -> Option<u64> {
    match value {
        Val::Userdata(userdata) => if userdata.kind == T::kind() {
            Some(userdata.handle)
        } else {
            None
        },
        _ => None,
    }
}

/// The value of the host, if it is one of type `T`.
fn downcast_value<T: Userdata>(value: Variants) -> (found: Option<T>)
    ensures
        match found {
            Some(x) => downcast::<T>(value.0.model()) == Some(x.handle()),
            None => downcast::<T>(value.0.model()) is None,
        },
{
    match value.as_ref() {
        ValueRef::Userdata(userdata) => {
            if userdata.kind == T::type_kind() {
                Some(T::from_handle(userdata.handle))
            } else {
                None
            }
        },
        _ => None,
    }
}

/// A value of the host that is kept alive.
#[derive(Debug)]
pub struct Root<T>(pub T);

impl<T: Userdata> VmType for Root<T> {
    open spec fn typable(vm: &Thread) -> bool {
        vm.known_type(T::key()) is Some
    }

    open spec fn typ(vm: &Thread) -> Term<Op> {
        vm.known_type(T::key()).unwrap()
    }

    open spec fn extra() -> u8 {
        0
    }

    fn make_type(vm: &Thread) -> (typ: Type) {
        vm.get_type(T::type_key())
    }

    fn extra_args() -> (count: VmIndex) {
        0
    }
}

impl<'vm, T: Userdata> Getable<'vm> for Root<T> {
    type Image = u64;

    open spec fn image(self) -> u64 {
        self.0.handle()
    }

    open spec fn gettable(value: Val) -> bool {
        true
    }

    open spec fn got(value: Val) -> Option<u64> {
        downcast::<T>(value)
    }

    open spec fn got_rooted(value: Val) -> Option<u64> {
        downcast::<T>(value)
    }

    fn from_value_unsafe(vm: &'vm Thread, value: Variants<'vm>) -> (found: Option<Root<T>>) {
        Self::from_value(vm, value)
    }

    fn from_value(vm: &'vm Thread, value: Variants<'vm>) -> (found: Option<Root<T>>) {
        match downcast_value::<T>(value) {
            Some(x) => Some(Root(x)),
            None => None,
        }
    }
}

/// A value of the host that is borrowed from the virtual machine, which has to keep it alive.
#[derive(Debug)]
pub struct UserdataRef<T>(pub T);

impl<T: VmType> VmType for UserdataRef<T> {
    open spec fn typable(vm: &Thread) -> bool {
        T::typable(vm)
    }

    open spec fn typ(vm: &Thread) -> Term<Op> {
        T::typ(vm)
    }

    open spec fn extra() -> u8 {
        0
    }

    fn make_type(vm: &Thread) -> (typ: Type) {
        T::make_type(vm)
    }

    fn extra_args() -> (count: VmIndex) {
        0
    }
}

impl<'vm, T: Userdata> Getable<'vm> for UserdataRef<T> {
    type Image = u64;

    open spec fn image(self) -> u64 {
        self.0.handle()
    }

    open spec fn gettable(value: Val) -> bool {
        true
    }

    /// Only a value that is kept alive can be borrowed.
    open spec fn got(value: Val) -> Option<u64> {
        None
    }

    open spec fn got_rooted(value: Val) -> Option<u64> {
        downcast::<T>(value)
    }

    fn from_value_unsafe(vm: &'vm Thread, value: Variants<'vm>) -> (found: Option<UserdataRef<T>>) {
        match downcast_value::<T>(value) {
            Some(x) => Some(UserdataRef(x)),
            None => None,
        }
    }

    fn from_value(vm: &'vm Thread, value: Variants<'vm>) -> (found: Option<UserdataRef<T>>) {
        None
    }
}

/// A value of the host that was pushed is read back as it was.
pub proof fn law_userdata_is_read_back<T: Userdata>(value: T, vm: &Thread, heap: Heap)
    ensures
        value.pushed(vm, heap).1 matches Ok(val) ==> <Root<T> as Getable>::got(val) == Some(
            value.handle(),
        ),
{
}

} // verus!
