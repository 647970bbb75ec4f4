//! The marshalling api: moving values between the host and the virtual machine.
use vstd::prelude::*;
use crate::machine;
use crate::machine::{Context, Error, Failure, Heap, Machine, Status};
use crate::term::Term;
use crate::text::Show;
use crate::thread::Thread;
use crate::type_cache;
use crate::types::{Op, Type};
use crate::value::{Val, VmIndex};
use crate::value_ref::Variants;
use futures::Async;

verus! {

/// `futures::Async`: a value that is there, or one that is yet to come.
#[verifier::external_type_specification]
#[verifier::reject_recursive_types(T)]
pub struct ExAsync<T>(Async<T>);

/// Trait which maps a type in rust to a type in gluon
pub trait VmType {
    /// The thread knows the names that the type is made of.
    spec fn typable(vm: &Thread) -> bool;

    /// The type in gluon.
    spec fn typ(vm: &Thread) -> Term<Op>;

    /// How many extra arguments a function returning this type requires.
    spec fn extra() -> u8;

    /// The type in gluon, with its type variables quantified.
    fn make_forall_type(vm: &Thread) -> (typ: Type)
        requires
            vm.wf(),
            Self::typable(vm),
        ensures
            typ.model() == type_cache::forall_type(Self::typ(vm)),
    {
        Self::make_type(vm).generalize()
    }

    /// Creates an gluon type which maps to `Self` in rust
    fn make_type(vm: &Thread) -> (typ: Type)
        requires
            vm.wf(),
            Self::typable(vm),
        ensures
            typ.model() == Self::typ(vm),
    ;

    /// How many extra arguments a function returning this type requires.
    /// Used for abstract types which when used in return position should act like they still need
    /// more arguments before they are called
    fn extra_args() -> (count: VmIndex)
        ensures
            count == Self::extra(),
    ;
}

/// What is left of an attempt to push a value that may be yet to come: the status, with the
/// message on the stack where there was an error.
pub open spec fn status_pushed(outcome: (Machine, Result<bool, Failure>)) -> (Machine, Status) {
    let machine = outcome.0;
    match outcome.1 {
        Ok(ready) => (
            machine,
            if ready {
                Status::Success
            } else {
                Status::Yield
            },
        ),
        Err(failure) => (
            machine.with_heap(machine.heap.forced(failure.text().len())).with(
                Val::Text(failure.text()),
            ),
            Status::Error,
        ),
    }
}

/// The result says whether the value is there, or why it could not be pushed.
pub open spec fn async_agrees(
    outcome: Result<bool, Failure>,
    result: Result<Async<()>, Error>,
) -> bool {
    match (outcome, result) {
        (Ok(true), Ok(Async::Ready(_))) => true,
        (Ok(false), Ok(Async::NotReady)) => true,
        (Err(failure), Err(error)) => error.model() == failure,
        _ => false,
    }
}

/// Trait which allows a possibly asynchronous rust value to be pushed to the virtual machine
pub trait AsyncPushable<'vm>: Sized {
    /// The machine after the attempt to push the value, and whether the value is there.
    spec fn async_pushed(self, vm: &Thread, before: Machine) -> (Machine, Result<bool, Failure>);

    /// Pushes `self` to `stack`. If the call is successful a single element should have been added
    /// to the stack and `Ok(())` should be returned. If the call is unsuccessful `Status:Error`
    /// should be returned and the stack should be left intact.
    ///
    /// If the value must be computed asynchronously `Async::NotReady` must be returned so that
    /// the virtual machine knows it must do more work before the value is available.
    fn async_push(self, vm: &'vm Thread, context: &mut Context) -> (result: Result<
        Async<()>,
        Error,
    >)
        ensures
            final(context)@ == self.async_pushed(vm, old(context)@).0,
            async_agrees(self.async_pushed(vm, old(context)@).1, result),
    ;

    /// Pushes `self`, or else the message of the error.
    fn status_push(self, vm: &'vm Thread, context: &mut Context) -> (status: Status)
        ensures
            (final(context)@, status) == status_pushed(self.async_pushed(vm, old(context)@)),
    {
        match self.async_push(vm, context) {
            Ok(Async::Ready(_)) => Status::Success,
            Ok(Async::NotReady) => Status::Yield,
            Err(error) => {
                let message = context.alloc_ignore_limit(error.show());
                context.push_value(message);
                Status::Error
            },
        }
    }
}

impl<'vm, T: Pushable<'vm>> AsyncPushable<'vm> for T {
    open spec fn async_pushed(self, vm: &Thread, before: Machine) -> (
        Machine,
        Result<bool, Failure>,
    ) {
        let outcome = self.pushed(vm, before.heap);
        (
            before.after(outcome),
            match outcome.1 {
                Ok(_) => Ok(true),
                Err(failure) => Err(failure),
            },
        )
    }

    fn async_push(self, vm: &'vm Thread, context: &mut Context) -> (result: Result<
        Async<()>,
        Error,
    >) {
        match self.push(vm, context) {
            Ok(_) => Ok(Async::Ready(())),
            Err(error) => Err(error),
        }
    }
}

/// Trait which allows a rust value to be pushed to the virtual machine
pub trait Pushable<'vm>: Sized {
    /// The value in the virtual machine, or why there is none, and the memory afterwards.
    spec fn pushed(self, vm: &Thread, heap: Heap) -> (Heap, Result<Val, Failure>);

    /// Pushing takes memory within the limit, and gives none back.
    proof fn law_memory_is_bounded(self, vm: &Thread, heap: Heap)
        ensures
            heap.grows_to(self.pushed(vm, heap).0),
    ;

    /// Pushes `self` to `stack`. If the call is successful a single element should have been added
    /// to the stack and `Ok(())` should be returned. If the call is unsuccessful `Status:Error`
    /// should be returned and the stack should be left intact
    fn push(self, vm: &'vm Thread, context: &mut Context) -> (result: Result<(), Error>)
        ensures
            final(context)@ == old(context)@.after(self.pushed(vm, old(context)@.heap)),
            machine::agrees(self.pushed(vm, old(context)@.heap).1, result),
    ;
}

/// Trait which allows rust values to be retrieved from the virtual machine
pub trait Getable<'vm>: Sized {
    /// What the host sees of the value.
    type Image;

    spec fn image(self) -> Self::Image;

    /// What it holds of a thread, if anything, is this thread.
    open spec fn of_thread(self, vm: &Thread) -> bool {
        true
    }

    /// The value has the shape that is taken for granted.
    spec fn gettable(value: Val) -> bool;

    /// What the value in the virtual machine is for the host.
    spec fn got(value: Val) -> Option<Self::Image>;

    /// What a value that is kept alive is for the host.
    spec fn got_rooted(value: Val) -> Option<Self::Image>;

    /// Retrieves a value that is kept alive for as long as the thread is borrowed.
    fn from_value_unsafe(vm: &'vm Thread, value: Variants<'vm>) -> (found: Option<Self>)
        requires
            Self::gettable(value.0.model()),
        ensures
            match found {
                Some(x) => Self::got_rooted(value.0.model()) == Some(x.image()) && x.of_thread(vm),
                None => Self::got_rooted(value.0.model()) is None,
            },
    ;

    fn from_value(vm: &'vm Thread, value: Variants<'vm>) -> (found: Option<Self>)
        requires
            Self::gettable(value.0.model()),
        ensures
            match found {
                Some(x) => Self::got(value.0.model()) == Some(x.image()) && x.of_thread(vm),
                None => Self::got(value.0.model()) is None,
            },
    ;
}

/// Trait for the types whose values the virtual machine gives back as it got them.
pub trait Marshalled<'vm>: Pushable<'vm> + Getable<'vm> {
    /// A value that was pushed is read back as it was.
    proof fn law_read_back(self, vm: &Thread, heap: Heap)
        ensures
            self.pushed(vm, heap).1 matches Ok(value) ==> {
                &&& Self::gettable(value)
                &&& Self::got(value) == Some(self.image())
                &&& Self::got_rooted(value) == Some(self.image())
            },
    ;
}

/// A push that succeeds adds one element to the stack, and one that fails leaves it intact; nothing
/// else but the memory changes.
pub proof fn law_push_adds_one_element_or_none<'vm, T: Pushable<'vm>>(
    value: T,
    vm: &Thread,
    before: Machine,
)
    ensures
        ({
            let outcome = value.pushed(vm, before.heap);
            let after = before.after(outcome);
            &&& after.frames == before.frames
            &&& after.futures == before.futures
            &&& match outcome.1 {
                Ok(pushed) => after.stack == before.stack.push(pushed),
                Err(_) => after.stack == before.stack,
            }
        }),
{
}

/// A push that reports by its status adds one element to the stack in any case: the value, or the
/// message of the error.
pub proof fn law_status_push_adds_one_element<'vm, T: Pushable<'vm>>(
    value: T,
    vm: &Thread,
    before: Machine,
)
    ensures
        ({
            let (after, status) = status_pushed(value.async_pushed(vm, before));
            &&& status != Status::Yield
            &&& after.stack.len() == before.stack.len() + 1
            &&& after.stack.drop_last() == before.stack
        }),
{
    let (after, status) = status_pushed(value.async_pushed(vm, before));
    assert(after.stack.drop_last() =~= before.stack);
}

} // verus!
