//! Functions that cross the border between the host and the virtual machine.
use vstd::prelude::*;
use crate::api;
use crate::api::{AsyncPushable, Getable, Marshalled, Pushable, VmType};
use crate::machine;
use crate::machine::{Context, Error, Failure, Heap, Machine, Status};
use crate::opaque::RootedValue;
use crate::term::Term;
use crate::thread::{RootedThread, Thread, ThreadRef};
use crate::type_cache;
use crate::types;
use crate::types::{Op, Type};
use crate::value;
use crate::value::{Val, Value, VmIndex};
use crate::value_ref::Variants;
use futures::Async;
use std::marker::PhantomData;

verus! {

/// A function of the host, by its number.
pub type GluonFunction = u64;

/// The type of functions from the types in the tuple `Args` to `R`.
#[derive(Debug)]
pub struct Signature<Args, R>(pub PhantomData<(Args, R)>);

/// Trait which represents a function
pub trait FunctionType {
    /// How many arguments the function needs.
    spec fn arity() -> VmIndex;

    /// Returns how many arguments the function needs to be provided to call it
    fn arguments() -> (count: VmIndex)
        ensures
            count == Self::arity(),
    ;
}

/// Trait for tuples of argument types.
pub trait ArgumentTypes {
    /// The thread knows the names that the types are made of.
    spec fn typable(vm: &Thread) -> bool;

    /// The types.
    spec fn typs(vm: &Thread) -> Seq<Term<Op>>;

    /// How many there are.
    spec fn count() -> u8;

    fn make_types(vm: &Thread) -> (typs: Vec<Type>)
        requires
            vm.wf(),
            Self::typable(vm),
        ensures
            types::models_of(typs@) == Self::typs(vm),
    ;

    fn argument_count() -> (count: u8)
        ensures
            count == Self::count(),
    ;
}

/// Trait for tuples of arguments that can be taken from the stack of the virtual machine.
pub trait GetableArguments<'vm>: Sized {
    /// The values are arguments of these types.
    spec fn fit(values: Seq<Val>) -> bool;

    /// The arguments are what the values are for the host.
    spec fn taken_from(self, values: Seq<Val>) -> bool;

    /// What the arguments hold of a thread, if anything, is this thread.
    spec fn of_thread(self, vm: &Thread) -> bool;

    fn from_stack(vm: &'vm Thread, values: &'vm [Value]) -> (args: Self)
        requires
            Self::fit(value::models_of(values@)),
        ensures
            args.taken_from(value::models_of(values@)),
            args.of_thread(vm),
    ;
}

/// What pushing values one after the other has led to: where one failed, why.
pub struct Progress {
    pub machine: Machine,
    pub failure: Option<Failure>,
}

/// One more value, unless there was a failure before. What was pushed stays.
pub open spec fn pushed_on<'vm, T: Pushable<'vm>>(
    progress: Progress,
    vm: &Thread,
    item: T,
) -> Progress {
    match progress.failure {
        Some(_) => progress,
        None => {
            let outcome = item.pushed(vm, progress.machine.heap);
            Progress {
                machine: progress.machine.after(outcome),
                failure: match outcome.1 {
                    Ok(_) => None,
                    Err(failure) => Some(failure),
                },
            }
        },
    }
}

/// Nothing pushed yet.
pub open spec fn nothing_pushed(machine: Machine) -> Progress {
    Progress { machine, failure: None }
}

/// The result is the one that the progress calls for.
pub open spec fn reports(progress: Progress, result: Result<(), Error>) -> bool {
    match (progress.failure, result) {
        (None, Ok(_)) => true,
        (Some(failure), Err(error)) => error.model() == failure,
        _ => false,
    }
}

/// Trait for tuples of arguments that can be pushed.
pub trait PushableArguments<'vm>: Sized {
    /// The machine after the arguments were pushed, the first one first.
    spec fn all_pushed(self, vm: &Thread, before: Machine) -> Progress;

    fn push_all(self, vm: &'vm Thread, context: &mut Context) -> (result: Result<(), Error>)
        ensures
            final(context)@ == self.all_pushed(vm, old(context)@).machine,
            reports(self.all_pushed(vm, old(context)@), result),
    ;
}

impl<Args: ArgumentTypes, R: VmType> VmType for Signature<Args, R> {
    open spec fn typable(vm: &Thread) -> bool {
        Args::typable(vm) && R::typable(vm)
    }

    open spec fn typ(vm: &Thread) -> Term<Op> {
        type_cache::function_type(Args::typs(vm), R::typ(vm))
    }

    open spec fn extra() -> u8 {
        0
    }

    fn make_type(vm: &Thread) -> (typ: Type) {
        Type::function(Args::make_types(vm), R::make_type(vm))
    }

    fn extra_args() -> (count: VmIndex) {
        0
    }
}

impl<Args: ArgumentTypes, R: VmType> FunctionType for Signature<Args, R> {
    open spec fn arity() -> VmIndex {
        (Args::count() + R::extra()) as VmIndex
    }

    fn arguments() -> (count: VmIndex) {
        Args::argument_count() as VmIndex + R::extra_args()
    }
}

impl<'s, T: FunctionType> FunctionType for &'s T {
    open spec fn arity() -> VmIndex {
        T::arity()
    }

    fn arguments() -> (count: VmIndex) {
        T::arguments()
    }
}

impl<T: FunctionType> FunctionType for Box<T> {
    open spec fn arity() -> VmIndex {
        T::arity()
    }

    fn arguments() -> (count: VmIndex) {
        T::arguments()
    }
}

/// Trait which abstracts over types which can be called by being pulling the arguments it needs
/// from the virtual machine's stack
pub trait VmFunction<'vm> {
    /// The function can be called with these arguments.
    spec fn callable(&self, vm: &Thread, args: Seq<Val>) -> bool;

    /// The call may end like this.
    spec fn may_end(
        &self,
        vm: &Thread,
        args: Seq<Val>,
        before: Machine,
        after: Machine,
        status: Status,
    ) -> bool;

    /// Calls the function with the arguments in `args`, which are kept alive during the call, and
    /// pushes what it returns.
    fn unpack_and_call(
        &self,
        vm: &'vm Thread,
        args: &'vm [Value],
        context: &mut Context,
    ) -> (status: Status)
        requires
            self.callable(vm, value::models_of(args@)),
        ensures
            self.may_end(
                vm,
                value::models_of(args@),
                old(context)@,
                final(context)@,
                status,
            ),
    ;
}

impl<'vm, 's, T: VmFunction<'vm>> VmFunction<'vm> for &'s T {
    open spec fn callable(&self, vm: &Thread, args: Seq<Val>) -> bool {
        (**self).callable(vm, args)
    }

    open spec fn may_end(
        &self,
        vm: &Thread,
        args: Seq<Val>,
        before: Machine,
        after: Machine,
        status: Status,
    ) -> bool {
        (**self).may_end(vm, args, before, after, status)
    }

    fn unpack_and_call(
        &self,
        vm: &'vm Thread,
        args: &'vm [Value],
        context: &mut Context,
    ) -> (status: Status) {
        (**self).unpack_and_call(vm, args, context)
    }
}

impl<'vm, T: VmFunction<'vm>> VmFunction<'vm> for Box<T> {
    open spec fn callable(&self, vm: &Thread, args: Seq<Val>) -> bool {
        (**self).callable(vm, args)
    }

    open spec fn may_end(
        &self,
        vm: &Thread,
        args: Seq<Val>,
        before: Machine,
        after: Machine,
        status: Status,
    ) -> bool {
        (**self).may_end(vm, args, before, after, status)
    }

    fn unpack_and_call(
        &self,
        vm: &'vm Thread,
        args: &'vm [Value],
        context: &mut Context,
    ) -> (status: Status) {
        (**self).unpack_and_call(vm, args, context)
    }
}

/// A function of the host from a tuple of arguments to a result.
#[derive(Debug)]
pub struct HostFunction<F, Args, R> {
    pub function: F,
    pub signature: Signature<Args, R>,
}

impl<F, Args, R> HostFunction<F, Args, R> {
    pub fn new(function: F) -> (host: HostFunction<F, Args, R>)
        ensures
            host.function == function,
    {
        HostFunction { function, signature: Signature(PhantomData) }
    }
}

impl<F, Args: ArgumentTypes, R: VmType> FunctionType for HostFunction<F, Args, R> {
    open spec fn arity() -> VmIndex {
        Signature::<Args, R>::arity()
    }

    fn arguments() -> (count: VmIndex) {
        Signature::<Args, R>::arguments()
    }
}

impl<F, Args: ArgumentTypes, R: VmType> VmType for HostFunction<F, Args, R> {
    open spec fn typable(vm: &Thread) -> bool {
        Signature::<Args, R>::typable(vm)
    }

    open spec fn typ(vm: &Thread) -> Term<Op> {
        Signature::<Args, R>::typ(vm)
    }

    open spec fn extra() -> u8 {
        0
    }

    fn make_type(vm: &Thread) -> (typ: Type) {
        Signature::<Args, R>::make_type(vm)
    }

    fn extra_args() -> (count: VmIndex) {
        0
    }
}

impl<'vm, F, Args, R> VmFunction<'vm> for HostFunction<F, Args, R> where
    F: Fn(Args) -> R,
    Args: GetableArguments<'vm>,
    R: AsyncPushable<'vm>,
 {
    open spec fn callable(&self, vm: &Thread, args: Seq<Val>) -> bool {
        &&& Args::fit(args)
        &&& forall|taken: Args| #[trigger]
            taken.taken_from(args) && taken.of_thread(vm) ==> call_requires(
                self.function,
                (taken,),
            )
    }

    open spec fn may_end(
        &self,
        vm: &Thread,
        args: Seq<Val>,
        before: Machine,
        after: Machine,
        status: Status,
    ) -> bool {
        exists|taken: Args, result: R|
            {
                &&& #[trigger] taken.taken_from(args)
                &&& taken.of_thread(vm)
                &&& #[trigger] call_ensures(self.function, (taken,), result)
                &&& (after, status) == api::status_pushed(result.async_pushed(vm, before))
            }
    }

    fn unpack_and_call(
        &self,
        vm: &'vm Thread,
        args: &'vm [Value],
        context: &mut Context,
    ) -> (status: Status) {
        let taken = Args::from_stack(vm, args);
        let ghost used = taken;
        let result = (self.function)(taken);
        proof {
            assert(used.taken_from(value::models_of(args@)));
            assert(call_ensures(self.function, (used,), result));
        }
        result.status_push(vm, context)
    }
}

/// Type which represents a function reference in gluon
pub type FunctionRef<'vm, F> = Function<&'vm Thread, F>;

/// Type which represents an function in gluon
#[derive(Debug)]
pub struct Function<T: ThreadRef, F> {
    value: RootedValue<T>,
    marker: PhantomData<F>,
}

impl<T: ThreadRef, F> Function<T, F> {
    pub closed spec fn inner(&self) -> RootedValue<T> {
        self.value
    }

    /// Holds a function of a thread.
    pub fn root(vm: T, value: Value) -> (function: Function<T, F>)
        ensures
            function.inner() == (RootedValue { vm, value }),
    {
        Function { value: RootedValue { vm, value }, marker: PhantomData }
    }

    pub fn value(&self) -> (value: Value)
        ensures
            value == self.inner().value,
    {
        self.value.value.clone()
    }
}

impl<T: ThreadRef, F> Clone for Function<T, F> {
    fn clone(&self) -> (copy: Function<T, F>)
        ensures
            copy.inner().value == self.inner().value,
            copy.inner().vm.thread() == self.inner().vm.thread(),
    {
        Function { value: self.value.duplicate(), marker: PhantomData }
    }
}

impl<T: ThreadRef, F: VmType> VmType for Function<T, F> {
    open spec fn typable(vm: &Thread) -> bool {
        F::typable(vm)
    }

    open spec fn typ(vm: &Thread) -> Term<Op> {
        F::typ(vm)
    }

    open spec fn extra() -> u8 {
        0
    }

    fn make_type(vm: &Thread) -> (typ: Type) {
        F::make_type(vm)
    }

    fn extra_args() -> (count: VmIndex) {
        0
    }
}

impl<'vm, T: ThreadRef, F: VmType> Pushable<'vm> for Function<T, F> {
    open spec fn pushed(self, vm: &Thread, heap: Heap) -> (Heap, Result<Val, Failure>) {
        (heap, Ok(self.inner().value.model()))
    }

    proof fn law_memory_is_bounded(self, vm: &Thread, heap: Heap) {
    }

    fn push(self, vm: &'vm Thread, context: &mut Context) -> (result: Result<(), Error>) {
        context.push_value(self.value.value);
        Ok(())
    }
}

impl<'vm, F> Getable<'vm> for Function<&'vm Thread, F> {
    type Image = Val;

    open spec fn image(self) -> Val {
        self.inner().value.model()
    }

    open spec fn of_thread(self, vm: &Thread) -> bool {
        *self.inner().vm == *vm
    }

    open spec fn gettable(value: Val) -> bool {
        true
    }

    open spec fn got(value: Val) -> Option<Val> {
        Some(value)
    }

    open spec fn got_rooted(value: Val) -> Option<Val> {
        Some(value)
    }

    fn from_value_unsafe(vm: &'vm Thread, value: Variants<'vm>) -> (found: Option<Self>)
        ensures
            found matches Some(function) && function.inner() == (RootedValue {
                vm,
                value: *value.0,
            }),
    {
        Self::from_value(vm, value)
    }

    fn from_value(vm: &'vm Thread, value: Variants<'vm>) -> (found: Option<Self>)
        ensures
            found matches Some(function) && function.inner() == (RootedValue {
                vm,
                value: *value.0,
            }),
    {
        Some(Function::root(vm, value.0.clone()))
    }
}

impl<'vm, F: VmType> Marshalled<'vm> for Function<&'vm Thread, F> {
    proof fn law_read_back(self, vm: &Thread, heap: Heap) {
    }
}

impl<'vm, F> Getable<'vm> for Function<RootedThread, F> {
    type Image = Val;

    open spec fn image(self) -> Val {
        self.inner().value.model()
    }

    open spec fn of_thread(self, vm: &Thread) -> bool {
        vm.knows_the_same(&self.inner().vm.thread())
    }

    open spec fn gettable(value: Val) -> bool {
        true
    }

    open spec fn got(value: Val) -> Option<Val> {
        Some(value)
    }

    open spec fn got_rooted(value: Val) -> Option<Val> {
        Some(value)
    }

    fn from_value_unsafe(vm: &'vm Thread, value: Variants<'vm>) -> (found: Option<Self>)
        ensures
            found matches Some(function) && function.inner().value == *value.0
                && vm.knows_the_same(&function.inner().vm.thread()),
    {
        Self::from_value(vm, value)
    }

    fn from_value(vm: &'vm Thread, value: Variants<'vm>) -> (found: Option<Self>)
        ensures
            found matches Some(function) && function.inner().value == *value.0
                && vm.knows_the_same(&function.inner().vm.thread()),
    {
        Some(Function::root(vm.root_thread(), value.0.clone()))
    }
}

impl<'vm, F: VmType> Marshalled<'vm> for Function<RootedThread, F> {
    proof fn law_read_back(self, vm: &Thread, heap: Heap) {
    }
}

/// The machine with `count` dummy arguments on top of the stack.
pub open spec fn with_dummies(machine: Machine, count: nat) -> Machine
    decreases count,
{
    if count == 0 {
        machine
    } else {
        with_dummies(machine, (count - 1) as nat).with(Val::Int(0))
    }
}

/// The machine when everything is on its stack that a call needs: the function, the arguments,
/// and a dummy for each of the extra ones. Where an argument fails, it stops there.
pub open spec fn call_prepared<'vm, Args: PushableArguments<'vm>, R: VmType>(
    function: Val,
    args: Args,
    vm: &Thread,
    before: Machine,
) -> Progress {
    let progress = args.all_pushed(vm, before.with(function));
    match progress.failure {
        Some(_) => progress,
        None => nothing_pushed(with_dummies(progress.machine, R::extra() as nat)),
    }
}

impl<T: ThreadRef, Args, R> Function<T, Signature<Args, R>> {
    /// Puts everything on the stack that the call needs, and says how many arguments there are.
    /// The virtual machine has to run the function then.
    pub fn call_first<'vm>(&'vm self, args: Args, context: &mut Context) -> (result: Result<
        VmIndex,
        Error,
    >) where Args: PushableArguments<'vm> + ArgumentTypes, R: VmType
        ensures
            ({
                let progress = call_prepared::<Args, R>(
                    self.inner().value.model(),
                    args,
                    &self.inner().vm.thread(),
                    old(context)@,
                );
                &&& final(context)@ == progress.machine
                &&& match result {
                    Ok(count) => progress.failure is None && count == Signature::<Args, R>::arity(),
                    Err(error) => progress.failure == Some(error.model()),
                }
            }),
    {
        let vm = self.value.vm.vm();
        context.push_value(self.value.value.clone());
        match args.push_all(vm, context) {
            Ok(_) => {},
            Err(error) => {
                return Err(error);
            },
        }
        let ghost ready = context@;
        let extra: VmIndex = R::extra_args();
        let mut i: VmIndex = 0;
        while i < extra
            invariant
                i <= extra,
                context@ == with_dummies(ready, i as nat),
            decreases extra - i,
        {
            context.push_value(Value::Int(0));
            i = i + 1;
        }
        Ok(Signature::<Args, R>::arguments())
    }

    /// What the value that the function returned is for the host.
    pub fn return_value<'vm>(vm: &'vm Thread, value: &'vm Value) -> (result: Result<R, Error>) where
        R: Getable<'vm>,

        requires
            R::gettable(value.model()),
        ensures
            match result {
                Ok(x) => R::got(value.model()) == Some(x.image()) && x.of_thread(vm),
                Err(error) => R::got(value.model()) is None && error.model() == Failure::Message(
                    "Wrong type"@,
                ),
            },
    {
        match R::from_value(vm, Variants::new(value)) {
            Some(x) => Ok(x),
            None => Err(Error::Message("Wrong type".to_owned())),
        }
    }

    /// What the call comes to once the virtual machine has run the function: the value that it
    /// left on the stack, or that it is still to come, or why it failed.
    pub fn call_outcome<'vm>(
        vm: &'vm Thread,
        outcome: Result<Async<&'vm Value>, Error>,
    ) -> (result: Result<Async<R>, Error>) where R: Getable<'vm>
        requires
            outcome matches Ok(Async::Ready(value)) ==> R::gettable(value.model()),
        ensures
            match outcome {
                Ok(Async::Ready(value)) => match result {
                    Ok(Async::Ready(x)) => R::got(value.model()) == Some(x.image()) && x.of_thread(
                        vm,
                    ),
                    Ok(Async::NotReady) => false,
                    Err(error) => R::got(value.model()) is None && error.model()
                        == Failure::Message("Wrong type"@),
                },
                Ok(Async::NotReady) => result matches Ok(Async::NotReady),
                Err(error) => result == Err::<Async<R>, Error>(error),
            },
    {
        match outcome {
            Ok(Async::Ready(value)) => match Self::return_value(vm, value) {
                Ok(x) => Ok(Async::Ready(x)),
                Err(error) => Err(error),
            },
            Ok(Async::NotReady) => Ok(Async::NotReady),
            Err(error) => Err(error),
        }
    }

    /// What a call comes to that cannot wait.
    pub fn call<'vm>(vm: &'vm Thread, outcome: Result<Async<&'vm Value>, Error>) -> (result: Result<
        R,
        Error,
    >) where R: Getable<'vm>
        requires
            outcome matches Ok(Async::Ready(value)) ==> R::gettable(value.model()),
        ensures
            match outcome {
                Ok(Async::Ready(value)) => match result {
                    Ok(x) => R::got(value.model()) == Some(x.image()) && x.of_thread(vm),
                    Err(error) => R::got(value.model()) is None && error.model()
                        == Failure::Message("Wrong type"@),
                },
                Ok(Async::NotReady) => result matches Err(error) && error.model()
                    == Failure::Message("Unexpected async"@),
                Err(error) => result == Err::<R, Error>(error),
            },
    {
        match Self::call_outcome(vm, outcome) {
            Ok(Async::Ready(x)) => Ok(x),
            Ok(Async::NotReady) => Err(Error::Message("Unexpected async".to_owned())),
            Err(error) => Err(error),
        }
    }
}

impl ArgumentTypes for () {
    open spec fn typable(vm: &Thread) -> bool {
        true
    }

    open spec fn typs(vm: &Thread) -> Seq<Term<Op>> {
        Seq::empty()
    }

    open spec fn count() -> u8 {
        0
    }

    fn make_types(vm: &Thread) -> (typs: Vec<Type>) {
        let typs: Vec<Type> = Vec::new();
        assert(types::models_of(typs@) =~= Self::typs(vm));
        typs
    }

    fn argument_count() -> (count: u8) {
        0
    }
}

impl<'vm> GetableArguments<'vm> for () {
    open spec fn fit(values: Seq<Val>) -> bool {
        &&& values.len() >= 0
    }

    open spec fn taken_from(self, values: Seq<Val>) -> bool {
        true
    }

    open spec fn of_thread(self, vm: &Thread) -> bool {
        true
    }

    fn from_stack(vm: &'vm Thread, values: &'vm [Value]) -> (args: ()) {
        ()
    }
}

impl<'vm> PushableArguments<'vm> for () {
    open spec fn all_pushed(self, vm: &Thread, before: Machine) -> Progress {
        let progress = nothing_pushed(before);
        progress
    }

    fn push_all(self, vm: &'vm Thread, context: &mut Context) -> (result: Result<(), Error>) {
        Ok(())
    }
}

impl<A1: VmType> ArgumentTypes for (A1,) {
    open spec fn typable(vm: &Thread) -> bool {
        &&& A1::typable(vm)
    }

    open spec fn typs(vm: &Thread) -> Seq<Term<Op>> {
        seq![A1::typ(vm)]
    }

    open spec fn count() -> u8 {
        1
    }

    fn make_types(vm: &Thread) -> (typs: Vec<Type>) {
        let mut typs: Vec<Type> = Vec::new();
        typs.push(A1::make_type(vm));
        assert(types::models_of(typs@) =~= Self::typs(vm));
        typs
    }

    fn argument_count() -> (count: u8) {
        1
    }
}

impl<'vm, A1: Getable<'vm>> GetableArguments<'vm> for (A1,) {
    open spec fn fit(values: Seq<Val>) -> bool {
        &&& values.len() >= 1
        &&& A1::gettable(values[0]) && A1::got_rooted(values[0]) is Some
    }

    open spec fn taken_from(self, values: Seq<Val>) -> bool {
        &&& A1::got_rooted(values[0]) == Some(self.0.image())
    }

    open spec fn of_thread(self, vm: &Thread) -> bool {
        &&& self.0.of_thread(vm)
    }

    fn from_stack(vm: &'vm Thread, values: &'vm [Value]) -> (args: (A1,)) {
        let ghost vals = value::models_of(values@);
        assert(vals[0] == values@[0].model());
        let a1 = A1::from_value_unsafe(vm, Variants::new(&values[0])).unwrap();
        (a1,)
    }
}

impl<'vm, A1: Pushable<'vm>> PushableArguments<'vm> for (A1,) {
    open spec fn all_pushed(self, vm: &Thread, before: Machine) -> Progress {
        let progress = nothing_pushed(before);
        let progress = pushed_on(progress, vm, self.0);
        progress
    }

    fn push_all(self, vm: &'vm Thread, context: &mut Context) -> (result: Result<(), Error>) {
        match self.0.push(vm, context) {
            Ok(_) => {},
            Err(error) => {
                return Err(error);
            },
        }
        Ok(())
    }
}

impl<A1: VmType, A2: VmType> ArgumentTypes for (A1, A2) {
    open spec fn typable(vm: &Thread) -> bool {
        &&& A1::typable(vm)
        &&& A2::typable(vm)
    }

    open spec fn typs(vm: &Thread) -> Seq<Term<Op>> {
        seq![A1::typ(vm), A2::typ(vm)]
    }

    open spec fn count() -> u8 {
        2
    }

    fn make_types(vm: &Thread) -> (typs: Vec<Type>) {
        let mut typs: Vec<Type> = Vec::new();
        typs.push(A1::make_type(vm));
        typs.push(A2::make_type(vm));
        assert(types::models_of(typs@) =~= Self::typs(vm));
        typs
    }

    fn argument_count() -> (count: u8) {
        2
    }
}

impl<'vm, A1: Getable<'vm>, A2: Getable<'vm>> GetableArguments<'vm> for (A1, A2) {
    open spec fn fit(values: Seq<Val>) -> bool {
        &&& values.len() >= 2
        &&& A1::gettable(values[0]) && A1::got_rooted(values[0]) is Some
        &&& A2::gettable(values[1]) && A2::got_rooted(values[1]) is Some
    }

    open spec fn taken_from(self, values: Seq<Val>) -> bool {
        &&& A1::got_rooted(values[0]) == Some(self.0.image())
        &&& A2::got_rooted(values[1]) == Some(self.1.image())
    }

    open spec fn of_thread(self, vm: &Thread) -> bool {
        &&& self.0.of_thread(vm)
        &&& self.1.of_thread(vm)
    }

    fn from_stack(vm: &'vm Thread, values: &'vm [Value]) -> (args: (A1, A2)) {
        let ghost vals = value::models_of(values@);
        assert(vals[0] == values@[0].model());
        let a1 = A1::from_value_unsafe(vm, Variants::new(&values[0])).unwrap();
        assert(vals[1] == values@[1].model());
        let a2 = A2::from_value_unsafe(vm, Variants::new(&values[1])).unwrap();
        (a1, a2)
    }
}

impl<'vm, A1: Pushable<'vm>, A2: Pushable<'vm>> PushableArguments<'vm> for (A1, A2) {
    open spec fn all_pushed(self, vm: &Thread, before: Machine) -> Progress {
        let progress = nothing_pushed(before);
        let progress = pushed_on(progress, vm, self.0);
        let progress = pushed_on(progress, vm, self.1);
        progress
    }

    fn push_all(self, vm: &'vm Thread, context: &mut Context) -> (result: Result<(), Error>) {
        match self.0.push(vm, context) {
            Ok(_) => {},
            Err(error) => {
                return Err(error);
            },
        }
        match self.1.push(vm, context) {
            Ok(_) => {},
            Err(error) => {
                return Err(error);
            },
        }
        Ok(())
    }
}

impl<A1: VmType, A2: VmType, A3: VmType> ArgumentTypes for (A1, A2, A3) {
    open spec fn typable(vm: &Thread) -> bool {
        &&& A1::typable(vm)
        &&& A2::typable(vm)
        &&& A3::typable(vm)
    }

    open spec fn typs(vm: &Thread) -> Seq<Term<Op>> {
        seq![A1::typ(vm), A2::typ(vm), A3::typ(vm)]
    }

    open spec fn count() -> u8 {
        3
    }

    fn make_types(vm: &Thread) -> (typs: Vec<Type>) {
        let mut typs: Vec<Type> = Vec::new();
        typs.push(A1::make_type(vm));
        typs.push(A2::make_type(vm));
        typs.push(A3::make_type(vm));
        assert(types::models_of(typs@) =~= Self::typs(vm));
        typs
    }

    fn argument_count() -> (count: u8) {
        3
    }
}

impl<
    'vm,
    A1: Getable<'vm>,
    A2: Getable<'vm>,
    A3: Getable<'vm>,
> GetableArguments<'vm> for (A1, A2, A3) {
    open spec fn fit(values: Seq<Val>) -> bool {
        &&& values.len() >= 3
        &&& A1::gettable(values[0]) && A1::got_rooted(values[0]) is Some
        &&& A2::gettable(values[1]) && A2::got_rooted(values[1]) is Some
        &&& A3::gettable(values[2]) && A3::got_rooted(values[2]) is Some
    }

    open spec fn taken_from(self, values: Seq<Val>) -> bool {
        &&& A1::got_rooted(values[0]) == Some(self.0.image())
        &&& A2::got_rooted(values[1]) == Some(self.1.image())
        &&& A3::got_rooted(values[2]) == Some(self.2.image())
    }

    open spec fn of_thread(self, vm: &Thread) -> bool {
        &&& self.0.of_thread(vm)
        &&& self.1.of_thread(vm)
        &&& self.2.of_thread(vm)
    }

    fn from_stack(vm: &'vm Thread, values: &'vm [Value]) -> (args: (A1, A2, A3)) {
        let ghost vals = value::models_of(values@);
        assert(vals[0] == values@[0].model());
        let a1 = A1::from_value_unsafe(vm, Variants::new(&values[0])).unwrap();
        assert(vals[1] == values@[1].model());
        let a2 = A2::from_value_unsafe(vm, Variants::new(&values[1])).unwrap();
        assert(vals[2] == values@[2].model());
        let a3 = A3::from_value_unsafe(vm, Variants::new(&values[2])).unwrap();
        (a1, a2, a3)
    }
}

impl<
    'vm,
    A1: Pushable<'vm>,
    A2: Pushable<'vm>,
    A3: Pushable<'vm>,
> PushableArguments<'vm> for (A1, A2, A3) {
    open spec fn all_pushed(self, vm: &Thread, before: Machine) -> Progress {
        let progress = nothing_pushed(before);
        let progress = pushed_on(progress, vm, self.0);
        let progress = pushed_on(progress, vm, self.1);
        let progress = pushed_on(progress, vm, self.2);
        progress
    }

    fn push_all(self, vm: &'vm Thread, context: &mut Context) -> (result: Result<(), Error>) {
        match self.0.push(vm, context) {
            Ok(_) => {},
            Err(error) => {
                return Err(error);
            },
        }
        match self.1.push(vm, context) {
            Ok(_) => {},
            Err(error) => {
                return Err(error);
            },
        }
        match self.2.push(vm, context) {
            Ok(_) => {},
            Err(error) => {
                return Err(error);
            },
        }
        Ok(())
    }
}

impl<A1: VmType, A2: VmType, A3: VmType, A4: VmType> ArgumentTypes for (A1, A2, A3, A4) {
    open spec fn typable(vm: &Thread) -> bool {
        &&& A1::typable(vm)
        &&& A2::typable(vm)
        &&& A3::typable(vm)
        &&& A4::typable(vm)
    }

    open spec fn typs(vm: &Thread) -> Seq<Term<Op>> {
        seq![A1::typ(vm), A2::typ(vm), A3::typ(vm), A4::typ(vm)]
    }

    open spec fn count() -> u8 {
        4
    }

    fn make_types(vm: &Thread) -> (typs: Vec<Type>) {
        let mut typs: Vec<Type> = Vec::new();
        typs.push(A1::make_type(vm));
        typs.push(A2::make_type(vm));
        typs.push(A3::make_type(vm));
        typs.push(A4::make_type(vm));
        assert(types::models_of(typs@) =~= Self::typs(vm));
        typs
    }

    fn argument_count() -> (count: u8) {
        4
    }
}

impl<
    'vm,
    A1: Getable<'vm>,
    A2: Getable<'vm>,
    A3: Getable<'vm>,
    A4: Getable<'vm>,
> GetableArguments<'vm> for (A1, A2, A3, A4) {
    open spec fn fit(values: Seq<Val>) -> bool {
        &&& values.len() >= 4
        &&& A1::gettable(values[0]) && A1::got_rooted(values[0]) is Some
        &&& A2::gettable(values[1]) && A2::got_rooted(values[1]) is Some
        &&& A3::gettable(values[2]) && A3::got_rooted(values[2]) is Some
        &&& A4::gettable(values[3]) && A4::got_rooted(values[3]) is Some
    }

    open spec fn taken_from(self, values: Seq<Val>) -> bool {
        &&& A1::got_rooted(values[0]) == Some(self.0.image())
        &&& A2::got_rooted(values[1]) == Some(self.1.image())
        &&& A3::got_rooted(values[2]) == Some(self.2.image())
        &&& A4::got_rooted(values[3]) == Some(self.3.image())
    }

    open spec fn of_thread(self, vm: &Thread) -> bool {
        &&& self.0.of_thread(vm)
        &&& self.1.of_thread(vm)
        &&& self.2.of_thread(vm)
        &&& self.3.of_thread(vm)
    }

    fn from_stack(vm: &'vm Thread, values: &'vm [Value]) -> (args: (A1, A2, A3, A4)) {
        let ghost vals = value::models_of(values@);
        assert(vals[0] == values@[0].model());
        let a1 = A1::from_value_unsafe(vm, Variants::new(&values[0])).unwrap();
        assert(vals[1] == values@[1].model());
        let a2 = A2::from_value_unsafe(vm, Variants::new(&values[1])).unwrap();
        assert(vals[2] == values@[2].model());
        let a3 = A3::from_value_unsafe(vm, Variants::new(&values[2])).unwrap();
        assert(vals[3] == values@[3].model());
        let a4 = A4::from_value_unsafe(vm, Variants::new(&values[3])).unwrap();
        (a1, a2, a3, a4)
    }
}

impl<
    'vm,
    A1: Pushable<'vm>,
    A2: Pushable<'vm>,
    A3: Pushable<'vm>,
    A4: Pushable<'vm>,
> PushableArguments<'vm> for (A1, A2, A3, A4) {
    open spec fn all_pushed(self, vm: &Thread, before: Machine) -> Progress {
        let progress = nothing_pushed(before);
        let progress = pushed_on(progress, vm, self.0);
        let progress = pushed_on(progress, vm, self.1);
        let progress = pushed_on(progress, vm, self.2);
        let progress = pushed_on(progress, vm, self.3);
        progress
    }

    fn push_all(self, vm: &'vm Thread, context: &mut Context) -> (result: Result<(), Error>) {
        match self.0.push(vm, context) {
            Ok(_) => {},
            Err(error) => {
                return Err(error);
            },
        }
        match self.1.push(vm, context) {
            Ok(_) => {},
            Err(error) => {
                return Err(error);
            },
        }
        match self.2.push(vm, context) {
            Ok(_) => {},
            Err(error) => {
                return Err(error);
            },
        }
        match self.3.push(vm, context) {
            Ok(_) => {},
            Err(error) => {
                return Err(error);
            },
        }
        Ok(())
    }
}

impl<
    A1: VmType,
    A2: VmType,
    A3: VmType,
    A4: VmType,
    A5: VmType,
> ArgumentTypes for (A1, A2, A3, A4, A5) {
    open spec fn typable(vm: &Thread) -> bool {
        &&& A1::typable(vm)
        &&& A2::typable(vm)
        &&& A3::typable(vm)
        &&& A4::typable(vm)
        &&& A5::typable(vm)
    }

    open spec fn typs(vm: &Thread) -> Seq<Term<Op>> {
        seq![A1::typ(vm), A2::typ(vm), A3::typ(vm), A4::typ(vm), A5::typ(vm)]
    }

    open spec fn count() -> u8 {
        5
    }

    fn make_types(vm: &Thread) -> (typs: Vec<Type>) {
        let mut typs: Vec<Type> = Vec::new();
        typs.push(A1::make_type(vm));
        typs.push(A2::make_type(vm));
        typs.push(A3::make_type(vm));
        typs.push(A4::make_type(vm));
        typs.push(A5::make_type(vm));
        assert(types::models_of(typs@) =~= Self::typs(vm));
        typs
    }

    fn argument_count() -> (count: u8) {
        5
    }
}

impl<
    'vm,
    A1: Getable<'vm>,
    A2: Getable<'vm>,
    A3: Getable<'vm>,
    A4: Getable<'vm>,
    A5: Getable<'vm>,
> GetableArguments<'vm> for (A1, A2, A3, A4, A5) {
    open spec fn fit(values: Seq<Val>) -> bool {
        &&& values.len() >= 5
        &&& A1::gettable(values[0]) && A1::got_rooted(values[0]) is Some
        &&& A2::gettable(values[1]) && A2::got_rooted(values[1]) is Some
        &&& A3::gettable(values[2]) && A3::got_rooted(values[2]) is Some
        &&& A4::gettable(values[3]) && A4::got_rooted(values[3]) is Some
        &&& A5::gettable(values[4]) && A5::got_rooted(values[4]) is Some
    }

    open spec fn taken_from(self, values: Seq<Val>) -> bool {
        &&& A1::got_rooted(values[0]) == Some(self.0.image())
        &&& A2::got_rooted(values[1]) == Some(self.1.image())
        &&& A3::got_rooted(values[2]) == Some(self.2.image())
        &&& A4::got_rooted(values[3]) == Some(self.3.image())
        &&& A5::got_rooted(values[4]) == Some(self.4.image())
    }

    open spec fn of_thread(self, vm: &Thread) -> bool {
        &&& self.0.of_thread(vm)
        &&& self.1.of_thread(vm)
        &&& self.2.of_thread(vm)
        &&& self.3.of_thread(vm)
        &&& self.4.of_thread(vm)
    }

    fn from_stack(vm: &'vm Thread, values: &'vm [Value]) -> (args: (A1, A2, A3, A4, A5)) {
        let ghost vals = value::models_of(values@);
        assert(vals[0] == values@[0].model());
        let a1 = A1::from_value_unsafe(vm, Variants::new(&values[0])).unwrap();
        assert(vals[1] == values@[1].model());
        let a2 = A2::from_value_unsafe(vm, Variants::new(&values[1])).unwrap();
        assert(vals[2] == values@[2].model());
        let a3 = A3::from_value_unsafe(vm, Variants::new(&values[2])).unwrap();
        assert(vals[3] == values@[3].model());
        let a4 = A4::from_value_unsafe(vm, Variants::new(&values[3])).unwrap();
        assert(vals[4] == values@[4].model());
        let a5 = A5::from_value_unsafe(vm, Variants::new(&values[4])).unwrap();
        (a1, a2, a3, a4, a5)
    }
}

impl<
    'vm,
    A1: Pushable<'vm>,
    A2: Pushable<'vm>,
    A3: Pushable<'vm>,
    A4: Pushable<'vm>,
    A5: Pushable<'vm>,
> PushableArguments<'vm> for (A1, A2, A3, A4, A5) {
    open spec fn all_pushed(self, vm: &Thread, before: Machine) -> Progress {
        let progress = nothing_pushed(before);
        let progress = pushed_on(progress, vm, self.0);
        let progress = pushed_on(progress, vm, self.1);
        let progress = pushed_on(progress, vm, self.2);
        let progress = pushed_on(progress, vm, self.3);
        let progress = pushed_on(progress, vm, self.4);
        progress
    }

    fn push_all(self, vm: &'vm Thread, context: &mut Context) -> (result: Result<(), Error>) {
        match self.0.push(vm, context) {
            Ok(_) => {},
            Err(error) => {
                return Err(error);
            },
        }
        match self.1.push(vm, context) {
            Ok(_) => {},
            Err(error) => {
                return Err(error);
            },
        }
        match self.2.push(vm, context) {
            Ok(_) => {},
            Err(error) => {
                return Err(error);
            },
        }
        match self.3.push(vm, context) {
            Ok(_) => {},
            Err(error) => {
                return Err(error);
            },
        }
        match self.4.push(vm, context) {
            Ok(_) => {},
            Err(error) => {
                return Err(error);
            },
        }
        Ok(())
    }
}

impl<
    A1: VmType,
    A2: VmType,
    A3: VmType,
    A4: VmType,
    A5: VmType,
    A6: VmType,
> ArgumentTypes for (A1, A2, A3, A4, A5, A6) {
    open spec fn typable(vm: &Thread) -> bool {
        &&& A1::typable(vm)
        &&& A2::typable(vm)
        &&& A3::typable(vm)
        &&& A4::typable(vm)
        &&& A5::typable(vm)
        &&& A6::typable(vm)
    }

    open spec fn typs(vm: &Thread) -> Seq<Term<Op>> {
        seq![A1::typ(vm), A2::typ(vm), A3::typ(vm), A4::typ(vm), A5::typ(vm), A6::typ(vm)]
    }

    open spec fn count() -> u8 {
        6
    }

    fn make_types(vm: &Thread) -> (typs: Vec<Type>) {
        let mut typs: Vec<Type> = Vec::new();
        typs.push(A1::make_type(vm));
        typs.push(A2::make_type(vm));
        typs.push(A3::make_type(vm));
        typs.push(A4::make_type(vm));
        typs.push(A5::make_type(vm));
        typs.push(A6::make_type(vm));
        assert(types::models_of(typs@) =~= Self::typs(vm));
        typs
    }

    fn argument_count() -> (count: u8) {
        6
    }
}

impl<
    'vm,
    A1: Getable<'vm>,
    A2: Getable<'vm>,
    A3: Getable<'vm>,
    A4: Getable<'vm>,
    A5: Getable<'vm>,
    A6: Getable<'vm>,
> GetableArguments<'vm> for (A1, A2, A3, A4, A5, A6) {
    open spec fn fit(values: Seq<Val>) -> bool {
        &&& values.len() >= 6
        &&& A1::gettable(values[0]) && A1::got_rooted(values[0]) is Some
        &&& A2::gettable(values[1]) && A2::got_rooted(values[1]) is Some
        &&& A3::gettable(values[2]) && A3::got_rooted(values[2]) is Some
        &&& A4::gettable(values[3]) && A4::got_rooted(values[3]) is Some
        &&& A5::gettable(values[4]) && A5::got_rooted(values[4]) is Some
        &&& A6::gettable(values[5]) && A6::got_rooted(values[5]) is Some
    }

    open spec fn taken_from(self, values: Seq<Val>) -> bool {
        &&& A1::got_rooted(values[0]) == Some(self.0.image())
        &&& A2::got_rooted(values[1]) == Some(self.1.image())
        &&& A3::got_rooted(values[2]) == Some(self.2.image())
        &&& A4::got_rooted(values[3]) == Some(self.3.image())
        &&& A5::got_rooted(values[4]) == Some(self.4.image())
        &&& A6::got_rooted(values[5]) == Some(self.5.image())
    }

    open spec fn of_thread(self, vm: &Thread) -> bool {
        &&& self.0.of_thread(vm)
        &&& self.1.of_thread(vm)
        &&& self.2.of_thread(vm)
        &&& self.3.of_thread(vm)
        &&& self.4.of_thread(vm)
        &&& self.5.of_thread(vm)
    }

    fn from_stack(vm: &'vm Thread, values: &'vm [Value]) -> (args: (A1, A2, A3, A4, A5, A6)) {
        let ghost vals = value::models_of(values@);
        assert(vals[0] == values@[0].model());
        let a1 = A1::from_value_unsafe(vm, Variants::new(&values[0])).unwrap();
        assert(vals[1] == values@[1].model());
        let a2 = A2::from_value_unsafe(vm, Variants::new(&values[1])).unwrap();
        assert(vals[2] == values@[2].model());
        let a3 = A3::from_value_unsafe(vm, Variants::new(&values[2])).unwrap();
        assert(vals[3] == values@[3].model());
        let a4 = A4::from_value_unsafe(vm, Variants::new(&values[3])).unwrap();
        assert(vals[4] == values@[4].model());
        let a5 = A5::from_value_unsafe(vm, Variants::new(&values[4])).unwrap();
        assert(vals[5] == values@[5].model());
        let a6 = A6::from_value_unsafe(vm, Variants::new(&values[5])).unwrap();
        (a1, a2, a3, a4, a5, a6)
    }
}

impl<
    'vm,
    A1: Pushable<'vm>,
    A2: Pushable<'vm>,
    A3: Pushable<'vm>,
    A4: Pushable<'vm>,
    A5: Pushable<'vm>,
    A6: Pushable<'vm>,
> PushableArguments<'vm> for (A1, A2, A3, A4, A5, A6) {
    open spec fn all_pushed(self, vm: &Thread, before: Machine) -> Progress {
        let progress = nothing_pushed(before);
        let progress = pushed_on(progress, vm, self.0);
        let progress = pushed_on(progress, vm, self.1);
        let progress = pushed_on(progress, vm, self.2);
        let progress = pushed_on(progress, vm, self.3);
        let progress = pushed_on(progress, vm, self.4);
        let progress = pushed_on(progress, vm, self.5);
        progress
    }

    fn push_all(self, vm: &'vm Thread, context: &mut Context) -> (result: Result<(), Error>) {
        match self.0.push(vm, context) {
            Ok(_) => {},
            Err(error) => {
                return Err(error);
            },
        }
        match self.1.push(vm, context) {
            Ok(_) => {},
            Err(error) => {
                return Err(error);
            },
        }
        match self.2.push(vm, context) {
            Ok(_) => {},
            Err(error) => {
                return Err(error);
            },
        }
        match self.3.push(vm, context) {
            Ok(_) => {},
            Err(error) => {
                return Err(error);
            },
        }
        match self.4.push(vm, context) {
            Ok(_) => {},
            Err(error) => {
                return Err(error);
            },
        }
        match self.5.push(vm, context) {
            Ok(_) => {},
            Err(error) => {
                return Err(error);
            },
        }
        Ok(())
    }
}

impl<
    A1: VmType,
    A2: VmType,
    A3: VmType,
    A4: VmType,
    A5: VmType,
    A6: VmType,
    A7: VmType,
> ArgumentTypes for (A1, A2, A3, A4, A5, A6, A7) {
    open spec fn typable(vm: &Thread) -> bool {
        &&& A1::typable(vm)
        &&& A2::typable(vm)
        &&& A3::typable(vm)
        &&& A4::typable(vm)
        &&& A5::typable(vm)
        &&& A6::typable(vm)
        &&& A7::typable(vm)
    }

    open spec fn typs(vm: &Thread) -> Seq<Term<Op>> {
        seq![
            A1::typ(vm),
            A2::typ(vm),
            A3::typ(vm),
            A4::typ(vm),
            A5::typ(vm),
            A6::typ(vm),
            A7::typ(vm),
        ]
    }

    open spec fn count() -> u8 {
        7
    }

    fn make_types(vm: &Thread) -> (typs: Vec<Type>) {
        let mut typs: Vec<Type> = Vec::new();
        typs.push(A1::make_type(vm));
        typs.push(A2::make_type(vm));
        typs.push(A3::make_type(vm));
        typs.push(A4::make_type(vm));
        typs.push(A5::make_type(vm));
        typs.push(A6::make_type(vm));
        typs.push(A7::make_type(vm));
        assert(types::models_of(typs@) =~= Self::typs(vm));
        typs
    }

    fn argument_count() -> (count: u8) {
        7
    }
}

impl<
    'vm,
    A1: Getable<'vm>,
    A2: Getable<'vm>,
    A3: Getable<'vm>,
    A4: Getable<'vm>,
    A5: Getable<'vm>,
    A6: Getable<'vm>,
    A7: Getable<'vm>,
> GetableArguments<'vm> for (A1, A2, A3, A4, A5, A6, A7) {
    open spec fn fit(values: Seq<Val>) -> bool {
        &&& values.len() >= 7
        &&& A1::gettable(values[0]) && A1::got_rooted(values[0]) is Some
        &&& A2::gettable(values[1]) && A2::got_rooted(values[1]) is Some
        &&& A3::gettable(values[2]) && A3::got_rooted(values[2]) is Some
        &&& A4::gettable(values[3]) && A4::got_rooted(values[3]) is Some
        &&& A5::gettable(values[4]) && A5::got_rooted(values[4]) is Some
        &&& A6::gettable(values[5]) && A6::got_rooted(values[5]) is Some
        &&& A7::gettable(values[6]) && A7::got_rooted(values[6]) is Some
    }

    open spec fn taken_from(self, values: Seq<Val>) -> bool {
        &&& A1::got_rooted(values[0]) == Some(self.0.image())
        &&& A2::got_rooted(values[1]) == Some(self.1.image())
        &&& A3::got_rooted(values[2]) == Some(self.2.image())
        &&& A4::got_rooted(values[3]) == Some(self.3.image())
        &&& A5::got_rooted(values[4]) == Some(self.4.image())
        &&& A6::got_rooted(values[5]) == Some(self.5.image())
        &&& A7::got_rooted(values[6]) == Some(self.6.image())
    }

    open spec fn of_thread(self, vm: &Thread) -> bool {
        &&& self.0.of_thread(vm)
        &&& self.1.of_thread(vm)
        &&& self.2.of_thread(vm)
        &&& self.3.of_thread(vm)
        &&& self.4.of_thread(vm)
        &&& self.5.of_thread(vm)
        &&& self.6.of_thread(vm)
    }

    fn from_stack(vm: &'vm Thread, values: &'vm [Value]) -> (args: (A1, A2, A3, A4, A5, A6, A7)) {
        let ghost vals = value::models_of(values@);
        assert(vals[0] == values@[0].model());
        let a1 = A1::from_value_unsafe(vm, Variants::new(&values[0])).unwrap();
        assert(vals[1] == values@[1].model());
        let a2 = A2::from_value_unsafe(vm, Variants::new(&values[1])).unwrap();
        assert(vals[2] == values@[2].model());
        let a3 = A3::from_value_unsafe(vm, Variants::new(&values[2])).unwrap();
        assert(vals[3] == values@[3].model());
        let a4 = A4::from_value_unsafe(vm, Variants::new(&values[3])).unwrap();
        assert(vals[4] == values@[4].model());
        let a5 = A5::from_value_unsafe(vm, Variants::new(&values[4])).unwrap();
        assert(vals[5] == values@[5].model());
        let a6 = A6::from_value_unsafe(vm, Variants::new(&values[5])).unwrap();
        assert(vals[6] == values@[6].model());
        let a7 = A7::from_value_unsafe(vm, Variants::new(&values[6])).unwrap();
        (a1, a2, a3, a4, a5, a6, a7)
    }
}

impl<
    'vm,
    A1: Pushable<'vm>,
    A2: Pushable<'vm>,
    A3: Pushable<'vm>,
    A4: Pushable<'vm>,
    A5: Pushable<'vm>,
    A6: Pushable<'vm>,
    A7: Pushable<'vm>,
> PushableArguments<'vm> for (A1, A2, A3, A4, A5, A6, A7) {
    open spec fn all_pushed(self, vm: &Thread, before: Machine) -> Progress {
        let progress = nothing_pushed(before);
        let progress = pushed_on(progress, vm, self.0);
        let progress = pushed_on(progress, vm, self.1);
        let progress = pushed_on(progress, vm, self.2);
        let progress = pushed_on(progress, vm, self.3);
        let progress = pushed_on(progress, vm, self.4);
        let progress = pushed_on(progress, vm, self.5);
        let progress = pushed_on(progress, vm, self.6);
        progress
    }

    fn push_all(self, vm: &'vm Thread, context: &mut Context) -> (result: Result<(), Error>) {
        match self.0.push(vm, context) {
            Ok(_) => {},
            Err(error) => {
                return Err(error);
            },
        }
        match self.1.push(vm, context) {
            Ok(_) => {},
            Err(error) => {
                return Err(error);
            },
        }
        match self.2.push(vm, context) {
            Ok(_) => {},
            Err(error) => {
                return Err(error);
            },
        }
        match self.3.push(vm, context) {
            Ok(_) => {},
            Err(error) => {
                return Err(error);
            },
        }
        match self.4.push(vm, context) {
            Ok(_) => {},
            Err(error) => {
                return Err(error);
            },
        }
        match self.5.push(vm, context) {
            Ok(_) => {},
            Err(error) => {
                return Err(error);
            },
        }
        match self.6.push(vm, context) {
            Ok(_) => {},
            Err(error) => {
                return Err(error);
            },
        }
        Ok(())
    }
}

/// Trait for tuples of arguments that a function gets as they were pushed.
pub trait MarshalledArguments<'vm>: PushableArguments<'vm> + GetableArguments<'vm> {
    /// Where pushing the arguments of a call succeeds, the function that takes its arguments from
    /// what was put on the stack gets them as they were.
    proof fn law_arguments_arrive(self, vm: &Thread, before: Machine)
        ensures
            self.all_pushed(vm, before).failure is None ==> ({
                let stack = self.all_pushed(vm, before).machine.stack;
                let values = stack.skip(before.stack.len() as int);
                &&& stack.len() >= before.stack.len()
                &&& stack.take(before.stack.len() as int) == before.stack
                &&& Self::fit(values)
                &&& self.taken_from(values)
            }),
    ;
}

impl<'vm> MarshalledArguments<'vm> for () {
    proof fn law_arguments_arrive(self, vm: &Thread, before: Machine) {
        let p0 = nothing_pushed(before);
        if p0.failure is None {
            let values = Seq::<Val>::empty();
            assert(p0.machine.stack =~= before.stack + values);
            assert(p0.machine.stack.skip(before.stack.len() as int) =~= values);
            assert(p0.machine.stack.take(before.stack.len() as int) =~= before.stack);
        }
    }
}

impl<'vm, A1: Marshalled<'vm>> MarshalledArguments<'vm> for (A1,) {
    proof fn law_arguments_arrive(self, vm: &Thread, before: Machine) {
        let p0 = nothing_pushed(before);
        self.0.law_read_back(vm, p0.machine.heap);
        let p1 = pushed_on(p0, vm, self.0);
        if p1.failure is None {
            let v0 = self.0.pushed(vm, p0.machine.heap).1->Ok_0;
            let values = seq![v0];
            assert(p1.machine.stack =~= before.stack + values);
            assert(p1.machine.stack.skip(before.stack.len() as int) =~= values);
            assert(p1.machine.stack.take(before.stack.len() as int) =~= before.stack);
        }
    }
}

impl<'vm, A1: Marshalled<'vm>, A2: Marshalled<'vm>> MarshalledArguments<'vm> for (A1, A2) {
    proof fn law_arguments_arrive(self, vm: &Thread, before: Machine) {
        let p0 = nothing_pushed(before);
        self.0.law_read_back(vm, p0.machine.heap);
        let p1 = pushed_on(p0, vm, self.0);
        self.1.law_read_back(vm, p1.machine.heap);
        let p2 = pushed_on(p1, vm, self.1);
        if p2.failure is None {
            let v0 = self.0.pushed(vm, p0.machine.heap).1->Ok_0;
            let v1 = self.1.pushed(vm, p1.machine.heap).1->Ok_0;
            let values = seq![v0, v1];
            assert(p2.machine.stack =~= before.stack + values);
            assert(p2.machine.stack.skip(before.stack.len() as int) =~= values);
            assert(p2.machine.stack.take(before.stack.len() as int) =~= before.stack);
        }
    }
}

impl<
    'vm,
    A1: Marshalled<'vm>,
    A2: Marshalled<'vm>,
    A3: Marshalled<'vm>,
> MarshalledArguments<'vm> for (A1, A2, A3) {
    proof fn law_arguments_arrive(self, vm: &Thread, before: Machine) {
        let p0 = nothing_pushed(before);
        self.0.law_read_back(vm, p0.machine.heap);
        let p1 = pushed_on(p0, vm, self.0);
        self.1.law_read_back(vm, p1.machine.heap);
        let p2 = pushed_on(p1, vm, self.1);
        self.2.law_read_back(vm, p2.machine.heap);
        let p3 = pushed_on(p2, vm, self.2);
        if p3.failure is None {
            let v0 = self.0.pushed(vm, p0.machine.heap).1->Ok_0;
            let v1 = self.1.pushed(vm, p1.machine.heap).1->Ok_0;
            let v2 = self.2.pushed(vm, p2.machine.heap).1->Ok_0;
            let values = seq![v0, v1, v2];
            assert(p3.machine.stack =~= before.stack + values);
            assert(p3.machine.stack.skip(before.stack.len() as int) =~= values);
            assert(p3.machine.stack.take(before.stack.len() as int) =~= before.stack);
        }
    }
}

impl<
    'vm,
    A1: Marshalled<'vm>,
    A2: Marshalled<'vm>,
    A3: Marshalled<'vm>,
    A4: Marshalled<'vm>,
> MarshalledArguments<'vm> for (A1, A2, A3, A4) {
    proof fn law_arguments_arrive(self, vm: &Thread, before: Machine) {
        let p0 = nothing_pushed(before);
        self.0.law_read_back(vm, p0.machine.heap);
        let p1 = pushed_on(p0, vm, self.0);
        self.1.law_read_back(vm, p1.machine.heap);
        let p2 = pushed_on(p1, vm, self.1);
        self.2.law_read_back(vm, p2.machine.heap);
        let p3 = pushed_on(p2, vm, self.2);
        self.3.law_read_back(vm, p3.machine.heap);
        let p4 = pushed_on(p3, vm, self.3);
        if p4.failure is None {
            let v0 = self.0.pushed(vm, p0.machine.heap).1->Ok_0;
            let v1 = self.1.pushed(vm, p1.machine.heap).1->Ok_0;
            let v2 = self.2.pushed(vm, p2.machine.heap).1->Ok_0;
            let v3 = self.3.pushed(vm, p3.machine.heap).1->Ok_0;
            let values = seq![v0, v1, v2, v3];
            assert(p4.machine.stack =~= before.stack + values);
            assert(p4.machine.stack.skip(before.stack.len() as int) =~= values);
            assert(p4.machine.stack.take(before.stack.len() as int) =~= before.stack);
        }
    }
}

impl<
    'vm,
    A1: Marshalled<'vm>,
    A2: Marshalled<'vm>,
    A3: Marshalled<'vm>,
    A4: Marshalled<'vm>,
    A5: Marshalled<'vm>,
> MarshalledArguments<'vm> for (A1, A2, A3, A4, A5) {
    proof fn law_arguments_arrive(self, vm: &Thread, before: Machine) {
        let p0 = nothing_pushed(before);
        self.0.law_read_back(vm, p0.machine.heap);
        let p1 = pushed_on(p0, vm, self.0);
        self.1.law_read_back(vm, p1.machine.heap);
        let p2 = pushed_on(p1, vm, self.1);
        self.2.law_read_back(vm, p2.machine.heap);
        let p3 = pushed_on(p2, vm, self.2);
        self.3.law_read_back(vm, p3.machine.heap);
        let p4 = pushed_on(p3, vm, self.3);
        self.4.law_read_back(vm, p4.machine.heap);
        let p5 = pushed_on(p4, vm, self.4);
        if p5.failure is None {
            let v0 = self.0.pushed(vm, p0.machine.heap).1->Ok_0;
            let v1 = self.1.pushed(vm, p1.machine.heap).1->Ok_0;
            let v2 = self.2.pushed(vm, p2.machine.heap).1->Ok_0;
            let v3 = self.3.pushed(vm, p3.machine.heap).1->Ok_0;
            let v4 = self.4.pushed(vm, p4.machine.heap).1->Ok_0;
            let values = seq![v0, v1, v2, v3, v4];
            assert(p5.machine.stack =~= before.stack + values);
            assert(p5.machine.stack.skip(before.stack.len() as int) =~= values);
            assert(p5.machine.stack.take(before.stack.len() as int) =~= before.stack);
        }
    }
}

impl<
    'vm,
    A1: Marshalled<'vm>,
    A2: Marshalled<'vm>,
    A3: Marshalled<'vm>,
    A4: Marshalled<'vm>,
    A5: Marshalled<'vm>,
    A6: Marshalled<'vm>,
> MarshalledArguments<'vm> for (A1, A2, A3, A4, A5, A6) {
    proof fn law_arguments_arrive(self, vm: &Thread, before: Machine) {
        let p0 = nothing_pushed(before);
        self.0.law_read_back(vm, p0.machine.heap);
        let p1 = pushed_on(p0, vm, self.0);
        self.1.law_read_back(vm, p1.machine.heap);
        let p2 = pushed_on(p1, vm, self.1);
        self.2.law_read_back(vm, p2.machine.heap);
        let p3 = pushed_on(p2, vm, self.2);
        self.3.law_read_back(vm, p3.machine.heap);
        let p4 = pushed_on(p3, vm, self.3);
        self.4.law_read_back(vm, p4.machine.heap);
        let p5 = pushed_on(p4, vm, self.4);
        self.5.law_read_back(vm, p5.machine.heap);
        let p6 = pushed_on(p5, vm, self.5);
        if p6.failure is None {
            let v0 = self.0.pushed(vm, p0.machine.heap).1->Ok_0;
            let v1 = self.1.pushed(vm, p1.machine.heap).1->Ok_0;
            let v2 = self.2.pushed(vm, p2.machine.heap).1->Ok_0;
            let v3 = self.3.pushed(vm, p3.machine.heap).1->Ok_0;
            let v4 = self.4.pushed(vm, p4.machine.heap).1->Ok_0;
            let v5 = self.5.pushed(vm, p5.machine.heap).1->Ok_0;
            let values = seq![v0, v1, v2, v3, v4, v5];
            assert(p6.machine.stack =~= before.stack + values);
            assert(p6.machine.stack.skip(before.stack.len() as int) =~= values);
            assert(p6.machine.stack.take(before.stack.len() as int) =~= before.stack);
        }
    }
}

impl<
    'vm,
    A1: Marshalled<'vm>,
    A2: Marshalled<'vm>,
    A3: Marshalled<'vm>,
    A4: Marshalled<'vm>,
    A5: Marshalled<'vm>,
    A6: Marshalled<'vm>,
    A7: Marshalled<'vm>,
> MarshalledArguments<'vm> for (A1, A2, A3, A4, A5, A6, A7) {
    proof fn law_arguments_arrive(self, vm: &Thread, before: Machine) {
        let p0 = nothing_pushed(before);
        self.0.law_read_back(vm, p0.machine.heap);
        let p1 = pushed_on(p0, vm, self.0);
        self.1.law_read_back(vm, p1.machine.heap);
        let p2 = pushed_on(p1, vm, self.1);
        self.2.law_read_back(vm, p2.machine.heap);
        let p3 = pushed_on(p2, vm, self.2);
        self.3.law_read_back(vm, p3.machine.heap);
        let p4 = pushed_on(p3, vm, self.3);
        self.4.law_read_back(vm, p4.machine.heap);
        let p5 = pushed_on(p4, vm, self.4);
        self.5.law_read_back(vm, p5.machine.heap);
        let p6 = pushed_on(p5, vm, self.5);
        self.6.law_read_back(vm, p6.machine.heap);
        let p7 = pushed_on(p6, vm, self.6);
        if p7.failure is None {
            let v0 = self.0.pushed(vm, p0.machine.heap).1->Ok_0;
            let v1 = self.1.pushed(vm, p1.machine.heap).1->Ok_0;
            let v2 = self.2.pushed(vm, p2.machine.heap).1->Ok_0;
            let v3 = self.3.pushed(vm, p3.machine.heap).1->Ok_0;
            let v4 = self.4.pushed(vm, p4.machine.heap).1->Ok_0;
            let v5 = self.5.pushed(vm, p5.machine.heap).1->Ok_0;
            let v6 = self.6.pushed(vm, p6.machine.heap).1->Ok_0;
            let values = seq![v0, v1, v2, v3, v4, v5, v6];
            assert(p7.machine.stack =~= before.stack + values);
            assert(p7.machine.stack.skip(before.stack.len() as int) =~= values);
            assert(p7.machine.stack.take(before.stack.len() as int) =~= before.stack);
        }
    }
}

} // verus!
