//! What calls come to: the arguments, the results and the functions themselves.
use vstd::prelude::*;
use crate::api;
use crate::api::{AsyncPushable, Getable, Pushable, VmType};
use crate::channel;
use crate::channel::{
    ChannelModel, ChannelType, RecvType, ResumeType, SendType, SpawnType, YieldType,
};
use crate::function;
use crate::function::{Function, FunctionType, GetableArguments, Progress, PushableArguments};
use crate::globals;
use crate::globals::{Definitions, GlobalModel};
use crate::machine::{Callable, Error, Failure, FrameModel, Heap, Machine, Status};
use crate::marshal_laws;
use crate::opaque;
use crate::opaque::{Array, OpaqueValue};
use crate::primitive;
use crate::primitive::{CPrimitive, Primitive, RefPrimitive};
use crate::record::{Field, PushableFieldList, Record};
use crate::roles::{FutureHandle, FutureResult};
use crate::text::Show;
use crate::thread::{RootedThread, Thread, ThreadRef};
use crate::type_cache;
use crate::value::Val;
use frunk_core::hlist::{HCons, HNil};

verus! {

/// The machine with these values more on its stack and with this memory, and nothing else changed.
pub open spec fn grown(before: Machine, values: Seq<Val>, heap: Heap) -> Machine {
    Machine {
        stack: before.stack + values,
        frames: before.frames,
        heap,
        futures: before.futures,
    }
}

/// Pushing a value adds it to the stack, or adds nothing where it fails; the memory that was taken
/// stays taken.
pub proof fn law_pushing_changes_stack_and_memory(
    before: Machine,
    heap: Heap,
    outcome: Result<Val, Failure>,
)
    ensures
        before.after((heap, outcome)) == (match outcome {
            Ok(value) => grown(before, seq![value], heap),
            Err(_) => grown(before, Seq::empty(), heap),
        }),
{
    match outcome {
        Ok(value) => {
            assert(before.stack.push(value) =~= before.stack + seq![value]);
        },
        Err(_) => {
            assert(before.stack =~= before.stack + Seq::<Val>::empty());
        },
    }
}

/// A value that is pushed is reported as a success; where it fails, the message of the failure is
/// pushed in its place, whatever memory is left.
pub proof fn law_failures_leave_their_message<'vm, T: Pushable<'vm>>(
    value: T,
    vm: &Thread,
    before: Machine,
)
    ensures
        api::status_pushed(value.async_pushed(vm, before)) == ({
            let (heap, outcome) = value.pushed(vm, before.heap);
            match outcome {
                Ok(val) => (grown(before, seq![val], heap), Status::Success),
                Err(failure) => (
                    grown(before, seq![Val::Text(failure.text())], heap.forced(failure.text().len())),
                    Status::Error,
                ),
            }
        }),
{
    let (heap, outcome) = value.pushed(vm, before.heap);
    match outcome {
        Ok(val) => {
            assert(before.stack.push(val) =~= before.stack + seq![val]);
        },
        Err(failure) => {
            let message = Val::Text(failure.text());
            assert(before.stack.push(message) =~= before.stack + seq![message]);
        },
    }
}

/// A future is yet to come: its number is added to those that are awaited, nothing is pushed, and
/// the call yields.
pub proof fn law_futures_are_awaited<T>(
    future: FutureResult<FutureHandle<T>>,
    vm: &Thread,
    before: Machine,
)
    ensures
        ({
            let (after, status) = api::status_pushed(future.async_pushed(vm, before));
            &&& status == Status::Yield
            &&& after.futures == before.futures + seq![future.0.id]
            &&& after.stack == before.stack
            &&& after.heap == before.heap
            &&& after.frames == before.frames
        }),
{
    assert(before.futures.push(future.0.id) =~= before.futures + seq![future.0.id]);
}

/// Each failure has its own message, which names what it is about.
pub proof fn law_messages_of_failures(name: Seq<char>, limit: usize, needed: usize)
    ensures
        Failure::Dead.text() == "The gluon thread is dead"@,
        Failure::OutOfMemory(limit, needed).text() == "Thread is out of memory"@,
        Failure::GlobalAlreadyExists(name).text() == "Global `"@ + name + "` already exists"@,
        Failure::TypeAlreadyExists(name).text() == "Type `"@ + name + "` already exists"@,
        Failure::Message(name).text() == name,
{
}

/// Errors are told apart by their kind and by what they are about.
pub proof fn law_errors_are_told_apart(a: Error, b: Error)
    requires
        a.model() == b.model(),
    ensures
        match (a, b) {
            (Error::Dead, Error::Dead) => true,
            (
                Error::OutOfMemory { limit, needed },
                Error::OutOfMemory { limit: other, needed: more },
            ) => limit == other && needed == more,
            (Error::GlobalAlreadyExists(m), Error::GlobalAlreadyExists(n)) => m@ == n@,
            (Error::TypeAlreadyExists(m), Error::TypeAlreadyExists(n)) => m@ == n@,
            (Error::Message(m), Error::Message(n)) => m@ == n@,
            _ => false,
        },
        a.text() == b.text(),
{
}

/// An argument is pushed; a failure ends it.
pub proof fn law_calls_with_one<
    'vm,
    A1: Pushable<'vm>,
>(
    a1: A1,
    vm: &Thread,
    before: Machine,
)
    ensures
        (a1,).all_pushed(vm, before) == ({
            let p0 = a1.pushed(vm, before.heap);
            match (p0.1,) {
                (Err(failure),) => Progress {
                    machine: grown(before, Seq::empty(), p0.0),
                    failure: Some(failure),
                },
                (Ok(v0),) => Progress {
                    machine: grown(before, seq![v0], p0.0),
                    failure: None,
                },
            }
        }),
{
    let none = Seq::<Val>::empty();
    assert(before.stack + none =~= before.stack);
    let p0 = a1.pushed(vm, before.heap);
    if let Ok(v0) = p0.1 {
        assert((before.stack + none).push(v0) =~= before.stack + seq![v0]);
    }
}

/// A function of one argument takes what the first value on the stack is.
pub proof fn law_arguments_of_one<
    'vm,
    A1: Getable<'vm>,
>(args: (A1,), values: Seq<Val>, vm: &Thread)
    ensures
        args.taken_from(values) <==> A1::got_rooted(values[0]) == Some(args.0.image()),
        <(A1,) as GetableArguments>::fit(values) ==> values.len() >= 1 && A1::got_rooted(values[0]) is Some,
        GetableArguments::of_thread(args, vm) <==> args.0.of_thread(vm),
{
}

/// Two arguments are pushed in order, each on the memory that the others have left; a failure ends it.
pub proof fn law_calls_with_two<
    'vm,
    A1: Pushable<'vm>,
    A2: Pushable<'vm>,
>(
    a1: A1,
    a2: A2,
    vm: &Thread,
    before: Machine,
)
    ensures
        (a1, a2).all_pushed(vm, before) == ({
            let p0 = a1.pushed(vm, before.heap);
            let p1 = a2.pushed(vm, p0.0);
            match (p0.1, p1.1) {
                (Err(failure), _) => Progress {
                    machine: grown(before, Seq::empty(), p0.0),
                    failure: Some(failure),
                },
                (Ok(v0), Err(failure)) => Progress {
                    machine: grown(before, seq![v0], p1.0),
                    failure: Some(failure),
                },
                (Ok(v0), Ok(v1)) => Progress {
                    machine: grown(before, seq![v0, v1], p1.0),
                    failure: None,
                },
            }
        }),
{
    let none = Seq::<Val>::empty();
    assert(before.stack + none =~= before.stack);
    let p0 = a1.pushed(vm, before.heap);
    if let Ok(v0) = p0.1 {
        assert((before.stack + none).push(v0) =~= before.stack + seq![v0]);
        let p1 = a2.pushed(vm, p0.0);
        if let Ok(v1) = p1.1 {
            assert((before.stack + seq![v0]).push(v1) =~= before.stack + seq![v0, v1]);
        }
    }
}

/// A function of two arguments takes what the first values on the stack are, in order.
pub proof fn law_arguments_of_two<
    'vm,
    A1: Getable<'vm>,
    A2: Getable<'vm>,
>(args: (A1, A2), values: Seq<Val>, vm: &Thread)
    ensures
        args.taken_from(values) <==> A1::got_rooted(values[0]) == Some(args.0.image()) && A2::got_rooted(values[1]) == Some(args.1.image()),
        <(A1, A2) as GetableArguments>::fit(values) ==> values.len() >= 2 && A1::got_rooted(values[0]) is Some && A2::got_rooted(values[1]) is Some,
        GetableArguments::of_thread(args, vm) <==> args.0.of_thread(vm) && args.1.of_thread(vm),
{
}

/// Three arguments are pushed in order, each on the memory that the others have left; a failure ends it.
pub proof fn law_calls_with_three<
    'vm,
    A1: Pushable<'vm>,
    A2: Pushable<'vm>,
    A3: Pushable<'vm>,
>(
    a1: A1,
    a2: A2,
    a3: A3,
    vm: &Thread,
    before: Machine,
)
    ensures
        (a1, a2, a3).all_pushed(vm, before) == ({
            let p0 = a1.pushed(vm, before.heap);
            let p1 = a2.pushed(vm, p0.0);
            let p2 = a3.pushed(vm, p1.0);
            match (p0.1, p1.1, p2.1) {
                (Err(failure), _, _) => Progress {
                    machine: grown(before, Seq::empty(), p0.0),
                    failure: Some(failure),
                },
                (Ok(v0), Err(failure), _) => Progress {
                    machine: grown(before, seq![v0], p1.0),
                    failure: Some(failure),
                },
                (Ok(v0), Ok(v1), Err(failure)) => Progress {
                    machine: grown(before, seq![v0, v1], p2.0),
                    failure: Some(failure),
                },
                (Ok(v0), Ok(v1), Ok(v2)) => Progress {
                    machine: grown(before, seq![v0, v1, v2], p2.0),
                    failure: None,
                },
            }
        }),
{
    let none = Seq::<Val>::empty();
    assert(before.stack + none =~= before.stack);
    let p0 = a1.pushed(vm, before.heap);
    if let Ok(v0) = p0.1 {
        assert((before.stack + none).push(v0) =~= before.stack + seq![v0]);
        let p1 = a2.pushed(vm, p0.0);
        if let Ok(v1) = p1.1 {
            assert((before.stack + seq![v0]).push(v1) =~= before.stack + seq![v0, v1]);
            let p2 = a3.pushed(vm, p1.0);
            if let Ok(v2) = p2.1 {
                assert((before.stack + seq![v0, v1]).push(v2) =~= before.stack + seq![v0, v1, v2]);
            }
        }
    }
}

/// A function of three arguments takes what the first values on the stack are, in order.
pub proof fn law_arguments_of_three<
    'vm,
    A1: Getable<'vm>,
    A2: Getable<'vm>,
    A3: Getable<'vm>,
>(args: (A1, A2, A3), values: Seq<Val>, vm: &Thread)
    ensures
        args.taken_from(values) <==> A1::got_rooted(values[0]) == Some(args.0.image()) && A2::got_rooted(values[1]) == Some(args.1.image()) && A3::got_rooted(values[2]) == Some(args.2.image()),
        <(A1, A2, A3) as GetableArguments>::fit(values) ==> values.len() >= 3 && A1::got_rooted(values[0]) is Some && A2::got_rooted(values[1]) is Some && A3::got_rooted(values[2]) is Some,
        GetableArguments::of_thread(args, vm) <==> args.0.of_thread(vm) && args.1.of_thread(vm) && args.2.of_thread(vm),
{
}

/// Four arguments are pushed in order, each on the memory that the others have left; a failure ends it.
pub proof fn law_calls_with_four<
    'vm,
    A1: Pushable<'vm>,
    A2: Pushable<'vm>,
    A3: Pushable<'vm>,
    A4: Pushable<'vm>,
>(
    a1: A1,
    a2: A2,
    a3: A3,
    a4: A4,
    vm: &Thread,
    before: Machine,
)
    ensures
        (a1, a2, a3, a4).all_pushed(vm, before) == ({
            let p0 = a1.pushed(vm, before.heap);
            let p1 = a2.pushed(vm, p0.0);
            let p2 = a3.pushed(vm, p1.0);
            let p3 = a4.pushed(vm, p2.0);
            match (p0.1, p1.1, p2.1, p3.1) {
                (Err(failure), _, _, _) => Progress {
                    machine: grown(before, Seq::empty(), p0.0),
                    failure: Some(failure),
                },
                (Ok(v0), Err(failure), _, _) => Progress {
                    machine: grown(before, seq![v0], p1.0),
                    failure: Some(failure),
                },
                (Ok(v0), Ok(v1), Err(failure), _) => Progress {
                    machine: grown(before, seq![v0, v1], p2.0),
                    failure: Some(failure),
                },
                (Ok(v0), Ok(v1), Ok(v2), Err(failure)) => Progress {
                    machine: grown(before, seq![v0, v1, v2], p3.0),
                    failure: Some(failure),
                },
                (Ok(v0), Ok(v1), Ok(v2), Ok(v3)) => Progress {
                    machine: grown(before, seq![v0, v1, v2, v3], p3.0),
                    failure: None,
                },
            }
        }),
{
    let none = Seq::<Val>::empty();
    assert(before.stack + none =~= before.stack);
    let p0 = a1.pushed(vm, before.heap);
    if let Ok(v0) = p0.1 {
        assert((before.stack + none).push(v0) =~= before.stack + seq![v0]);
        let p1 = a2.pushed(vm, p0.0);
        if let Ok(v1) = p1.1 {
            assert((before.stack + seq![v0]).push(v1) =~= before.stack + seq![v0, v1]);
            let p2 = a3.pushed(vm, p1.0);
            if let Ok(v2) = p2.1 {
                assert((before.stack + seq![v0, v1]).push(v2) =~= before.stack + seq![v0, v1, v2]);
                let p3 = a4.pushed(vm, p2.0);
                if let Ok(v3) = p3.1 {
                    assert((before.stack + seq![v0, v1, v2]).push(v3) =~= before.stack + seq![v0, v1, v2, v3]);
                }
            }
        }
    }
}

/// A function of four arguments takes what the first values on the stack are, in order.
pub proof fn law_arguments_of_four<
    'vm,
    A1: Getable<'vm>,
    A2: Getable<'vm>,
    A3: Getable<'vm>,
    A4: Getable<'vm>,
>(args: (A1, A2, A3, A4), values: Seq<Val>, vm: &Thread)
    ensures
        args.taken_from(values) <==> A1::got_rooted(values[0]) == Some(args.0.image()) && A2::got_rooted(values[1]) == Some(args.1.image()) && A3::got_rooted(values[2]) == Some(args.2.image()) && A4::got_rooted(values[3]) == Some(args.3.image()),
        <(A1, A2, A3, A4) as GetableArguments>::fit(values) ==> values.len() >= 4 && A1::got_rooted(values[0]) is Some && A2::got_rooted(values[1]) is Some && A3::got_rooted(values[2]) is Some && A4::got_rooted(values[3]) is Some,
        GetableArguments::of_thread(args, vm) <==> args.0.of_thread(vm) && args.1.of_thread(vm) && args.2.of_thread(vm) && args.3.of_thread(vm),
{
}

/// Five arguments are pushed in order, each on the memory that the others have left; a failure ends it.
pub proof fn law_calls_with_five<
    'vm,
    A1: Pushable<'vm>,
    A2: Pushable<'vm>,
    A3: Pushable<'vm>,
    A4: Pushable<'vm>,
    A5: Pushable<'vm>,
>(
    a1: A1,
    a2: A2,
    a3: A3,
    a4: A4,
    a5: A5,
    vm: &Thread,
    before: Machine,
)
    ensures
        (a1, a2, a3, a4, a5).all_pushed(vm, before) == ({
            let p0 = a1.pushed(vm, before.heap);
            let p1 = a2.pushed(vm, p0.0);
            let p2 = a3.pushed(vm, p1.0);
            let p3 = a4.pushed(vm, p2.0);
            let p4 = a5.pushed(vm, p3.0);
            match (p0.1, p1.1, p2.1, p3.1, p4.1) {
                (Err(failure), _, _, _, _) => Progress {
                    machine: grown(before, Seq::empty(), p0.0),
                    failure: Some(failure),
                },
                (Ok(v0), Err(failure), _, _, _) => Progress {
                    machine: grown(before, seq![v0], p1.0),
                    failure: Some(failure),
                },
                (Ok(v0), Ok(v1), Err(failure), _, _) => Progress {
                    machine: grown(before, seq![v0, v1], p2.0),
                    failure: Some(failure),
                },
                (Ok(v0), Ok(v1), Ok(v2), Err(failure), _) => Progress {
                    machine: grown(before, seq![v0, v1, v2], p3.0),
                    failure: Some(failure),
                },
                (Ok(v0), Ok(v1), Ok(v2), Ok(v3), Err(failure)) => Progress {
                    machine: grown(before, seq![v0, v1, v2, v3], p4.0),
                    failure: Some(failure),
                },
                (Ok(v0), Ok(v1), Ok(v2), Ok(v3), Ok(v4)) => Progress {
                    machine: grown(before, seq![v0, v1, v2, v3, v4], p4.0),
                    failure: None,
                },
            }
        }),
{
    let none = Seq::<Val>::empty();
    assert(before.stack + none =~= before.stack);
    let p0 = a1.pushed(vm, before.heap);
    if let Ok(v0) = p0.1 {
        assert((before.stack + none).push(v0) =~= before.stack + seq![v0]);
        let p1 = a2.pushed(vm, p0.0);
        if let Ok(v1) = p1.1 {
            assert((before.stack + seq![v0]).push(v1) =~= before.stack + seq![v0, v1]);
            let p2 = a3.pushed(vm, p1.0);
            if let Ok(v2) = p2.1 {
                assert((before.stack + seq![v0, v1]).push(v2) =~= before.stack + seq![v0, v1, v2]);
                let p3 = a4.pushed(vm, p2.0);
                if let Ok(v3) = p3.1 {
                    assert((before.stack + seq![v0, v1, v2]).push(v3) =~= before.stack + seq![v0, v1, v2, v3]);
                    let p4 = a5.pushed(vm, p3.0);
                    if let Ok(v4) = p4.1 {
                        assert((before.stack + seq![v0, v1, v2, v3]).push(v4) =~= before.stack + seq![v0, v1, v2, v3, v4]);
                    }
                }
            }
        }
    }
}

/// A function of five arguments takes what the first values on the stack are, in order.
pub proof fn law_arguments_of_five<
    'vm,
    A1: Getable<'vm>,
    A2: Getable<'vm>,
    A3: Getable<'vm>,
    A4: Getable<'vm>,
    A5: Getable<'vm>,
>(args: (A1, A2, A3, A4, A5), values: Seq<Val>, vm: &Thread)
    ensures
        args.taken_from(values) <==> A1::got_rooted(values[0]) == Some(args.0.image()) && A2::got_rooted(values[1]) == Some(args.1.image()) && A3::got_rooted(values[2]) == Some(args.2.image()) && A4::got_rooted(values[3]) == Some(args.3.image()) && A5::got_rooted(values[4]) == Some(args.4.image()),
        <(A1, A2, A3, A4, A5) as GetableArguments>::fit(values) ==> values.len() >= 5 && A1::got_rooted(values[0]) is Some && A2::got_rooted(values[1]) is Some && A3::got_rooted(values[2]) is Some && A4::got_rooted(values[3]) is Some && A5::got_rooted(values[4]) is Some,
        GetableArguments::of_thread(args, vm) <==> args.0.of_thread(vm) && args.1.of_thread(vm) && args.2.of_thread(vm) && args.3.of_thread(vm) && args.4.of_thread(vm),
{
}

/// Six arguments are pushed in order, each on the memory that the others have left; a failure ends it.
pub proof fn law_calls_with_six<
    'vm,
    A1: Pushable<'vm>,
    A2: Pushable<'vm>,
    A3: Pushable<'vm>,
    A4: Pushable<'vm>,
    A5: Pushable<'vm>,
    A6: Pushable<'vm>,
>(
    a1: A1,
    a2: A2,
    a3: A3,
    a4: A4,
    a5: A5,
    a6: A6,
    vm: &Thread,
    before: Machine,
)
    ensures
        (a1, a2, a3, a4, a5, a6).all_pushed(vm, before) == ({
            let p0 = a1.pushed(vm, before.heap);
            let p1 = a2.pushed(vm, p0.0);
            let p2 = a3.pushed(vm, p1.0);
            let p3 = a4.pushed(vm, p2.0);
            let p4 = a5.pushed(vm, p3.0);
            let p5 = a6.pushed(vm, p4.0);
            match (p0.1, p1.1, p2.1, p3.1, p4.1, p5.1) {
                (Err(failure), _, _, _, _, _) => Progress {
                    machine: grown(before, Seq::empty(), p0.0),
                    failure: Some(failure),
                },
                (Ok(v0), Err(failure), _, _, _, _) => Progress {
                    machine: grown(before, seq![v0], p1.0),
                    failure: Some(failure),
                },
                (Ok(v0), Ok(v1), Err(failure), _, _, _) => Progress {
                    machine: grown(before, seq![v0, v1], p2.0),
                    failure: Some(failure),
                },
                (Ok(v0), Ok(v1), Ok(v2), Err(failure), _, _) => Progress {
                    machine: grown(before, seq![v0, v1, v2], p3.0),
                    failure: Some(failure),
                },
                (Ok(v0), Ok(v1), Ok(v2), Ok(v3), Err(failure), _) => Progress {
                    machine: grown(before, seq![v0, v1, v2, v3], p4.0),
                    failure: Some(failure),
                },
                (Ok(v0), Ok(v1), Ok(v2), Ok(v3), Ok(v4), Err(failure)) => Progress {
                    machine: grown(before, seq![v0, v1, v2, v3, v4], p5.0),
                    failure: Some(failure),
                },
                (Ok(v0), Ok(v1), Ok(v2), Ok(v3), Ok(v4), Ok(v5)) => Progress {
                    machine: grown(before, seq![v0, v1, v2, v3, v4, v5], p5.0),
                    failure: None,
                },
            }
        }),
{
    let none = Seq::<Val>::empty();
    assert(before.stack + none =~= before.stack);
    let p0 = a1.pushed(vm, before.heap);
    if let Ok(v0) = p0.1 {
        assert((before.stack + none).push(v0) =~= before.stack + seq![v0]);
        let p1 = a2.pushed(vm, p0.0);
        if let Ok(v1) = p1.1 {
            assert((before.stack + seq![v0]).push(v1) =~= before.stack + seq![v0, v1]);
            let p2 = a3.pushed(vm, p1.0);
            if let Ok(v2) = p2.1 {
                assert((before.stack + seq![v0, v1]).push(v2) =~= before.stack + seq![v0, v1, v2]);
                let p3 = a4.pushed(vm, p2.0);
                if let Ok(v3) = p3.1 {
                    assert((before.stack + seq![v0, v1, v2]).push(v3) =~= before.stack + seq![v0, v1, v2, v3]);
                    let p4 = a5.pushed(vm, p3.0);
                    if let Ok(v4) = p4.1 {
                        assert((before.stack + seq![v0, v1, v2, v3]).push(v4) =~= before.stack + seq![v0, v1, v2, v3, v4]);
                        let p5 = a6.pushed(vm, p4.0);
                        if let Ok(v5) = p5.1 {
                            assert((before.stack + seq![v0, v1, v2, v3, v4]).push(v5) =~= before.stack + seq![v0, v1, v2, v3, v4, v5]);
                        }
                    }
                }
            }
        }
    }
}

/// A function of six arguments takes what the first values on the stack are, in order.
pub proof fn law_arguments_of_six<
    'vm,
    A1: Getable<'vm>,
    A2: Getable<'vm>,
    A3: Getable<'vm>,
    A4: Getable<'vm>,
    A5: Getable<'vm>,
    A6: Getable<'vm>,
>(args: (A1, A2, A3, A4, A5, A6), values: Seq<Val>, vm: &Thread)
    ensures
        args.taken_from(values) <==> A1::got_rooted(values[0]) == Some(args.0.image()) && A2::got_rooted(values[1]) == Some(args.1.image()) && A3::got_rooted(values[2]) == Some(args.2.image()) && A4::got_rooted(values[3]) == Some(args.3.image()) && A5::got_rooted(values[4]) == Some(args.4.image()) && A6::got_rooted(values[5]) == Some(args.5.image()),
        <(A1, A2, A3, A4, A5, A6) as GetableArguments>::fit(values) ==> values.len() >= 6 && A1::got_rooted(values[0]) is Some && A2::got_rooted(values[1]) is Some && A3::got_rooted(values[2]) is Some && A4::got_rooted(values[3]) is Some && A5::got_rooted(values[4]) is Some && A6::got_rooted(values[5]) is Some,
        GetableArguments::of_thread(args, vm) <==> args.0.of_thread(vm) && args.1.of_thread(vm) && args.2.of_thread(vm) && args.3.of_thread(vm) && args.4.of_thread(vm) && args.5.of_thread(vm),
{
}

/// Seven arguments are pushed in order, each on the memory that the others have left; a failure ends it.
pub proof fn law_calls_with_seven<
    'vm,
    A1: Pushable<'vm>,
    A2: Pushable<'vm>,
    A3: Pushable<'vm>,
    A4: Pushable<'vm>,
    A5: Pushable<'vm>,
    A6: Pushable<'vm>,
    A7: Pushable<'vm>,
>(
    a1: A1,
    a2: A2,
    a3: A3,
    a4: A4,
    a5: A5,
    a6: A6,
    a7: A7,
    vm: &Thread,
    before: Machine,
)
    ensures
        (a1, a2, a3, a4, a5, a6, a7).all_pushed(vm, before) == ({
            let p0 = a1.pushed(vm, before.heap);
            let p1 = a2.pushed(vm, p0.0);
            let p2 = a3.pushed(vm, p1.0);
            let p3 = a4.pushed(vm, p2.0);
            let p4 = a5.pushed(vm, p3.0);
            let p5 = a6.pushed(vm, p4.0);
            let p6 = a7.pushed(vm, p5.0);
            match (p0.1, p1.1, p2.1, p3.1, p4.1, p5.1, p6.1) {
                (Err(failure), _, _, _, _, _, _) => Progress {
                    machine: grown(before, Seq::empty(), p0.0),
                    failure: Some(failure),
                },
                (Ok(v0), Err(failure), _, _, _, _, _) => Progress {
                    machine: grown(before, seq![v0], p1.0),
                    failure: Some(failure),
                },
                (Ok(v0), Ok(v1), Err(failure), _, _, _, _) => Progress {
                    machine: grown(before, seq![v0, v1], p2.0),
                    failure: Some(failure),
                },
                (Ok(v0), Ok(v1), Ok(v2), Err(failure), _, _, _) => Progress {
                    machine: grown(before, seq![v0, v1, v2], p3.0),
                    failure: Some(failure),
                },
                (Ok(v0), Ok(v1), Ok(v2), Ok(v3), Err(failure), _, _) => Progress {
                    machine: grown(before, seq![v0, v1, v2, v3], p4.0),
                    failure: Some(failure),
                },
                (Ok(v0), Ok(v1), Ok(v2), Ok(v3), Ok(v4), Err(failure), _) => Progress {
                    machine: grown(before, seq![v0, v1, v2, v3, v4], p5.0),
                    failure: Some(failure),
                },
                (Ok(v0), Ok(v1), Ok(v2), Ok(v3), Ok(v4), Ok(v5), Err(failure)) => Progress {
                    machine: grown(before, seq![v0, v1, v2, v3, v4, v5], p6.0),
                    failure: Some(failure),
                },
                (Ok(v0), Ok(v1), Ok(v2), Ok(v3), Ok(v4), Ok(v5), Ok(v6)) => Progress {
                    machine: grown(before, seq![v0, v1, v2, v3, v4, v5, v6], p6.0),
                    failure: None,
                },
            }
        }),
{
    let none = Seq::<Val>::empty();
    assert(before.stack + none =~= before.stack);
    let p0 = a1.pushed(vm, before.heap);
    if let Ok(v0) = p0.1 {
        assert((before.stack + none).push(v0) =~= before.stack + seq![v0]);
        let p1 = a2.pushed(vm, p0.0);
        if let Ok(v1) = p1.1 {
            assert((before.stack + seq![v0]).push(v1) =~= before.stack + seq![v0, v1]);
            let p2 = a3.pushed(vm, p1.0);
            if let Ok(v2) = p2.1 {
                assert((before.stack + seq![v0, v1]).push(v2) =~= before.stack + seq![v0, v1, v2]);
                let p3 = a4.pushed(vm, p2.0);
                if let Ok(v3) = p3.1 {
                    assert((before.stack + seq![v0, v1, v2]).push(v3) =~= before.stack + seq![v0, v1, v2, v3]);
                    let p4 = a5.pushed(vm, p3.0);
                    if let Ok(v4) = p4.1 {
                        assert((before.stack + seq![v0, v1, v2, v3]).push(v4) =~= before.stack + seq![v0, v1, v2, v3, v4]);
                        let p5 = a6.pushed(vm, p4.0);
                        if let Ok(v5) = p5.1 {
                            assert((before.stack + seq![v0, v1, v2, v3, v4]).push(v5) =~= before.stack + seq![v0, v1, v2, v3, v4, v5]);
                            let p6 = a7.pushed(vm, p5.0);
                            if let Ok(v6) = p6.1 {
                                assert((before.stack + seq![v0, v1, v2, v3, v4, v5]).push(v6) =~= before.stack + seq![v0, v1, v2, v3, v4, v5, v6]);
                            }
                        }
                    }
                }
            }
        }
    }
}

/// A function of seven arguments takes what the first values on the stack are, in order.
pub proof fn law_arguments_of_seven<
    'vm,
    A1: Getable<'vm>,
    A2: Getable<'vm>,
    A3: Getable<'vm>,
    A4: Getable<'vm>,
    A5: Getable<'vm>,
    A6: Getable<'vm>,
    A7: Getable<'vm>,
>(args: (A1, A2, A3, A4, A5, A6, A7), values: Seq<Val>, vm: &Thread)
    ensures
        args.taken_from(values) <==> A1::got_rooted(values[0]) == Some(args.0.image()) && A2::got_rooted(values[1]) == Some(args.1.image()) && A3::got_rooted(values[2]) == Some(args.2.image()) && A4::got_rooted(values[3]) == Some(args.3.image()) && A5::got_rooted(values[4]) == Some(args.4.image()) && A6::got_rooted(values[5]) == Some(args.5.image()) && A7::got_rooted(values[6]) == Some(args.6.image()),
        <(A1, A2, A3, A4, A5, A6, A7) as GetableArguments>::fit(values) ==> values.len() >= 7 && A1::got_rooted(values[0]) is Some && A2::got_rooted(values[1]) is Some && A3::got_rooted(values[2]) is Some && A4::got_rooted(values[3]) is Some && A5::got_rooted(values[4]) is Some && A6::got_rooted(values[5]) is Some && A7::got_rooted(values[6]) is Some,
        GetableArguments::of_thread(args, vm) <==> args.0.of_thread(vm) && args.1.of_thread(vm) && args.2.of_thread(vm) && args.3.of_thread(vm) && args.4.of_thread(vm) && args.5.of_thread(vm) && args.6.of_thread(vm),
{
}

/// Dummy arguments are zeros on top of the stack.
pub proof fn law_dummies_are_zeros(before: Machine, count: nat)
    ensures
        function::with_dummies(before, count) == grown(
            before,
            Seq::new(count, |i: int| Val::Int(0)),
            before.heap,
        ),
    decreases count,
{
    let zeros = Seq::new(count, |i: int| Val::Int(0));
    if count == 0 {
        assert(before.stack + zeros =~= before.stack);
    } else {
        let fewer = Seq::new((count - 1) as nat, |i: int| Val::Int(0));
        law_dummies_are_zeros(before, (count - 1) as nat);
        assert((before.stack + fewer).push(Val::Int(0)) =~= before.stack + zeros);
    }
}

/// For a call with one argument the function is on the stack, then the argument, and then a zero
/// for each argument that the result needs.
pub proof fn law_functions_stand_below_their_arguments<'vm, A: Pushable<'vm>, R: VmType>(
    function: Val,
    arg: A,
    vm: &Thread,
    before: Machine,
)
    ensures
        ({
            let progress = function::call_prepared::<(A,), R>(function, (arg,), vm, before);
            let (heap, outcome) = arg.pushed(vm, before.heap);
            match outcome {
                Ok(value) => progress == Progress {
                    machine: grown(
                        before,
                        seq![function, value] + Seq::new(
                            R::extra() as nat,
                            |i: int| Val::Int(0),
                        ),
                        heap,
                    ),
                    failure: None,
                },
                Err(failure) => progress == Progress {
                    machine: grown(before, seq![function], heap),
                    failure: Some(failure),
                },
            }
        }),
{
    let ready = before.with(function);
    law_calls_with_one(arg, vm, ready);
    assert(before.stack.push(function) =~= before.stack + seq![function]);
    let (heap, outcome) = arg.pushed(vm, before.heap);
    match outcome {
        Ok(value) => {
            let full = grown(ready, seq![value], heap);
            let zeros = Seq::new(R::extra() as nat, |i: int| Val::Int(0));
            law_dummies_are_zeros(full, R::extra() as nat);
            assert(full.stack + zeros =~= before.stack + (seq![function, value] + zeros));
        },
        Err(failure) => {
            assert(ready.stack + Seq::<Val>::empty() =~= before.stack + seq![function]);
        },
    }
}

/// In general, what is pushed for a call is the function, the arguments, and the zeros.
pub proof fn law_calls_are_prepared<'vm, Args: PushableArguments<'vm>, R: VmType>(
    function: Val,
    args: Args,
    vm: &Thread,
    before: Machine,
)
    ensures
        ({
            let pushed = args.all_pushed(
                vm,
                grown(before, seq![function], before.heap),
            );
            let progress = function::call_prepared::<Args, R>(function, args, vm, before);
            match pushed.failure {
                Some(failure) => progress == pushed,
                None => progress.failure is None && progress.machine == grown(
                    pushed.machine,
                    Seq::new(R::extra() as nat, |i: int| Val::Int(0)),
                    pushed.machine.heap,
                ),
            }
        }),
{
    assert(before.stack.push(function) =~= before.stack + seq![function]);
    let pushed = args.all_pushed(vm, before.with(function));
    law_dummies_are_zeros(pushed.machine, R::extra() as nat);
}

/// Functions and values that are kept alive are handed through as they are, and so are arrays.
pub proof fn law_kept_values_are_handed_through<'vm, 'a, T: ThreadRef, F: VmType>(
    held: Function<T, F>,
    array: Array<'a, F>,
    val: Val,
    vm: &Thread,
    heap: Heap,
)
    ensures
        Pushable::pushed(held, vm, heap) == (
            heap,
            Ok::<Val, Failure>(held.inner().value.model()),
        ),
        Pushable::pushed(array, vm, heap) == (
            heap,
            Ok::<Val, Failure>(array.inner().value.model()),
        ),
        <Function<&'vm Thread, F> as Getable>::got(val) == Some(val),
        <Function<&'vm Thread, F> as Getable>::got_rooted(val) == Some(val),
        <Function<RootedThread, F> as Getable>::got(val) == Some(val),
        <Function<RootedThread, F> as Getable>::got_rooted(val) == Some(val),
        <OpaqueValue<&'vm Thread, F> as Getable>::got(val) == Some(val),
        <OpaqueValue<&'vm Thread, F> as Getable>::got_rooted(val) == Some(val),
        <OpaqueValue<RootedThread, F> as Getable>::got(val) == Some(val),
        <OpaqueValue<RootedThread, F> as Getable>::got_rooted(val) == Some(val),
        <Array<'vm, F> as Getable>::got(val) == Some(val),
        <Array<'vm, F> as Getable>::got_rooted(val) == Some(val),
{
}

/// A value that is kept alive is pushed as it is within one heap, and else is copied.
pub proof fn law_values_are_copied_between_heaps<'vm, T: ThreadRef, V: VmType>(
    held: OpaqueValue<T, V>,
    vm: &Thread,
    heap: Heap,
)
    ensures
        held.inner().vm.thread().heap == vm.heap ==> Pushable::pushed(held, vm, heap) == (
            heap,
            Ok::<Val, Failure>(held.inner().value.model()),
        ),
        held.inner().vm.thread().heap != vm.heap ==> Pushable::pushed(held, vm, heap)
            == crate::deep_clone::cloned(heap, held.inner().value.model()),
{
}

/// Within one heap a value is moved as it is and takes no memory.
pub proof fn law_moving_within_a_heap_is_free(from: u64, to: u64, heap: Heap, val: Val)
    ensures
        from == to ==> opaque::moved(from, to, heap, val) == (heap, Ok::<Val, Failure>(val)),
        from != to ==> opaque::moved(from, to, heap, val) == crate::deep_clone::cloned(heap, val),
{
}

/// A thread is pushed as itself.
pub proof fn law_threads_are_values(thread: RootedThread, vm: &Thread, heap: Heap)
    ensures
        Pushable::pushed(thread, vm, heap) == (heap, Ok::<Val, Failure>(Val::Thread(thread.id))),
{
}

/// The frame that was entered last is the one that counts, and without frames the stack begins at
/// its first element.
pub proof fn law_last_frame_counts(machine: Machine, frame: FrameModel)
    ensures
        (Machine { frames: machine.frames + seq![frame], ..machine }).offset() == frame.offset,
        (Machine { frames: Seq::empty(), ..machine }).offset() == 0,
{
}

/// The elements of an array are those of the value that it holds.
pub proof fn law_arrays_have_the_elements_of_their_value<'vm, T>(
    array: Array<'vm, T>,
    values: Seq<Val>,
)
    requires
        array.inner().value.model() == Val::Array(values),
    ensures
        array.elements() == values,
{
}

/// What is held of a thread is that thread.
pub proof fn law_kept_values_belong_to_the_thread<'vm, F>(
    held: Function<&'vm Thread, F>,
    value: OpaqueValue<&'vm Thread, F>,
    array: Array<'vm, F>,
    vm: &Thread,
)
    ensures
        held.of_thread(vm) ==> *held.inner().vm == *vm,
        value.of_thread(vm) ==> *value.inner().vm == *vm,
        array.of_thread(vm) ==> *array.inner().vm == *vm,
        held.image() == held.inner().value.model(),
        value.image() == value.inner().value.model(),
        array.image() == array.inner().value.model(),
{
}

/// A thread that is held for itself knows what the other one knows.
pub proof fn law_rooted_threads_know_the_same<F>(
    held: Function<RootedThread, F>,
    value: OpaqueValue<RootedThread, F>,
    vm: &Thread,
    key: Seq<char>,
    tag: u32,
    name: Seq<char>,
)
    ensures
        held.of_thread(vm) ==> vm.knows_the_same(&held.inner().vm.thread()),
        value.of_thread(vm) ==> vm.knows_the_same(&value.inner().vm.thread()),
        held.of_thread(vm) ==> {
            let other = held.inner().vm.thread();
            &&& other.id == vm.id
            &&& other.heap == vm.heap
            &&& other.symbols == vm.symbols
            &&& other.generics@ == vm.generics@
            &&& other.aliases@ == vm.aliases@
            &&& vm.known_type(key) == other.known_type(key)
            &&& vm.field_position(tag, name) == other.field_position(tag, name)
        },
{
}

/// The fields of a record are pushed from the first to the last; the record is data of them.
pub proof fn law_records_are_data<
    'vm,
    M: Field,
    V: Pushable<'vm>,
    N: Field,
    W: Pushable<'vm>,
>(
    first: M,
    a: V,
    second: N,
    b: W,
    vm: &Thread,
    heap: Heap,
)
    ensures
        Pushable::pushed(
            Record {
                fields: HCons { head: (first, a), tail: HCons { head: (second, b), tail: HNil } },
            },
            vm,
            heap,
        ) == ({
            let p0 = a.pushed(vm, heap);
            let p1 = b.pushed(vm, p0.0);
            match (p0.1, p1.1) {
                (Err(failure), _) => (p0.0, Err::<Val, Failure>(failure)),
                (Ok(_), Err(failure)) => (p1.0, Err::<Val, Failure>(failure)),
                (Ok(v0), Ok(v1)) => marshal_laws::stored(p1.0, 2, Val::Data(0, seq![v0, v1])),
            }
        }),
{
    let p0 = a.pushed(vm, heap);
    let p1 = b.pushed(vm, p0.0);
    if let (Ok(v0), Ok(v1)) = (p0.1, p1.1) {
        assert(seq![v0] + (seq![v1] + Seq::<Val>::empty()) =~= seq![v0, v1]);
    }
}

/// The fields of records are pushed in order whatever their number.
pub proof fn law_fields_are_pushed_in_order<
    'vm,
    N: Field,
    V: Pushable<'vm>,
    Rest: PushableFieldList<'vm>,
>(label: N, value: V, rest: Rest, vm: &Thread, heap: Heap)
    ensures
        HNil.all_pushed(vm, heap) == (heap, Ok::<Seq<Val>, Failure>(Seq::empty())),
        (HCons { head: (label, value), tail: rest }).all_pushed(vm, heap) == ({
            let (after, outcome) = value.pushed(vm, heap);
            match outcome {
                Err(failure) => (after, Err::<Seq<Val>, Failure>(failure)),
                Ok(val) => {
                    let others = rest.all_pushed(vm, after);
                    match others.1 {
                        Err(failure) => (others.0, Err::<Seq<Val>, Failure>(failure)),
                        Ok(vals) => (others.0, Ok::<Seq<Val>, Failure>(seq![val] + vals)),
                    }
                },
            }
        }),
{
}

/// The fields of a record are read from the first to the last; what is no data is no record.
pub proof fn law_fields_are_read_in_order<
    'vm,
    M: Field,
    V: Getable<'vm>,
    N: Field,
    W: Getable<'vm>,
>(tag: u32, fields: Seq<Val>, other: Val)
    requires
        fields.len() == 2,
        !(other is Data),
    ensures
        ({
            let found = <Record<HCons<(M, V), HCons<(N, W), HNil>>> as Getable>::got(
                Val::Data(tag, fields),
            );
            &&& found is Some <==> V::got(fields[0]) is Some && W::got(fields[1]) is Some
            &&& found matches Some(image) ==> V::got(fields[0]) == Some(image.0) && W::got(
                fields[1],
            ) == Some(image.1.0)
        }),
        <Record<HCons<(M, V), HCons<(N, W), HNil>>> as Getable>::got(other) is None,
{
    assert(fields.drop_first()[0] == fields[1]);
}

/// A separator of rust modules becomes a dot: what comes before the first one stays, and what
/// comes after it is treated in the same way.
pub proof fn law_separators_become_dots(first: Seq<char>, last: Seq<char>)
    requires
        !primitive::has_separator(first.push(':')),
    ensures
        primitive::replaced(first + seq![':', ':'] + last, "::"@, "."@) == first + seq!['.']
            + primitive::replaced(last, "::"@, "."@),
    decreases first.len(),
{
    reveal_strlit("::");
    reveal_strlit(".");
    let from = "::"@;
    let to = "."@;
    assert(from =~= seq![':', ':']);
    assert(to =~= seq!['.']);
    let name = first + seq![':', ':'] + last;
    let rest = primitive::replaced(last, from, to);
    if first.len() == 0 {
        assert(name.subrange(0, 2) =~= from);
        assert(name.skip(2) =~= last);
        assert(first + seq!['.'] + rest =~= to + rest);
    } else {
        let marked = first.push(':');
        if from.is_prefix_of(name) {
            assert(name[0] == from[0] && name[1] == from[1]);
            assert(marked[0] == name[0]);
            assert(marked[0int + 1] == name[1]);
        }
        let tail = first.skip(1);
        assert(name.skip(1) =~= tail + seq![':', ':'] + last);
        if primitive::has_separator(tail.push(':')) {
            let short = tail.push(':');
            let i = choose|i: int|
                0 <= i < short.len() - 1 && #[trigger] short[i] == ':' && short[i + 1] == ':';
            assert(marked[i + 1] == short[i]);
            assert(marked[(i + 1) + 1] == short[i + 1]);
        }
        law_separators_become_dots(tail, last);
        assert(seq![first[0]] + (tail + seq!['.'] + rest) =~= first + seq!['.'] + rest);
    }
}

/// A function of the host is stored under its name, with dots for separators, with the number of
/// arguments of its type and with its own number.
pub proof fn law_primitives_are_stored<'vm, 'a, F: FunctionType + VmType>(
    owned: Primitive<F>,
    borrowed: RefPrimitive<'a, F>,
    plain: CPrimitive,
    vm: &Thread,
    heap: Heap,
)
    ensures
        Pushable::pushed(owned, vm, heap) == marshal_laws::stored(
            heap,
            1,
            Val::Function(
                primitive::replaced(owned.label(), "::"@, "."@),
                F::arity(),
                owned.handle(),
            ),
        ),
        Pushable::pushed(borrowed, vm, heap) == marshal_laws::stored(
            heap,
            1,
            Val::Function(
                primitive::replaced(borrowed.label(), "::"@, "."@),
                F::arity(),
                borrowed.handle(),
            ),
        ),
        Pushable::pushed(plain, vm, heap) == marshal_laws::stored(
            heap,
            1,
            Val::Function(plain.label(), plain.arity(), plain.handle()),
        ),
{
}

/// A name is defined if some global has it, and no other name is.
pub proof fn law_definitions_are_found(globals: Seq<GlobalModel>, more: GlobalModel, name: Seq<char>)
    ensures
        !globals::defines(Seq::empty(), name),
        globals::defines(globals.push(more), name) <==> globals::defines(globals, name) || more.name
            == name,
{
    let all = globals.push(more);
    if globals::defines(all, name) {
        let i = choose|i: int| 0 <= i < all.len() && (#[trigger] all[i]).name == name;
        if i < globals.len() {
            assert(globals[i].name == name);
        }
    }
    if globals::defines(globals, name) {
        let i = choose|i: int| 0 <= i < globals.len() && (#[trigger] globals[i]).name == name;
        assert(all[i].name == name);
    }
    if more.name == name {
        assert(all[globals.len() as int].name == name);
    }
}

/// A new global has its name, its type with the type variables quantified, and its value; a name
/// that is taken is refused, and nothing changes then. After a failure nothing is defined.
pub proof fn law_globals_are_defined_once<'vm, T: Pushable<'vm> + VmType>(
    before: Definitions,
    vm: &Thread,
    name: Seq<char>,
    value: T,
)
    ensures
        before.failure is Some ==> globals::defined(before, vm, name, value) == before,
        before.failure is None && globals::defines(before.globals, name) ==> globals::defined(
            before,
            vm,
            name,
            value,
        ) == (Definitions {
            globals: before.globals,
            heap: before.heap,
            failure: Some(Failure::GlobalAlreadyExists(name)),
        }),
        before.failure is None && !globals::defines(before.globals, name) ==> globals::defined(
            before,
            vm,
            name,
            value,
        ) == ({
            let (heap, outcome) = value.pushed(vm, before.heap);
            match outcome {
                Ok(val) => Definitions {
                    globals: before.globals + seq![
                        GlobalModel { name, typ: type_cache::forall_type(T::typ(vm)), value: val },
                    ],
                    heap,
                    failure: None,
                },
                Err(failure) => Definitions {
                    globals: before.globals,
                    heap,
                    failure: Some(failure),
                },
            }
        }),
{
    if before.failure is None && !globals::defines(before.globals, name) {
        if let Ok(val) = value.pushed(vm, before.heap).1 {
            let more = GlobalModel { name, typ: type_cache::forall_type(T::typ(vm)), value: val };
            assert(before.globals.push(more) =~= before.globals + seq![more]);
        }
    }
}

/// What is sent comes last in its channel, and what is received comes first; from an empty channel
/// nothing is received.
pub proof fn law_channels_are_queues<T>(channels: Seq<ChannelModel<T>>, i: int, value: T)
    requires
        0 <= i < channels.len(),
    ensures
        channel::sent(channels, i, value).len() == channels.len(),
        channel::sent(channels, i, value)[i].queue == channels[i].queue + seq![value],
        channel::sent(channels, i, value)[i].heap == channels[i].heap,
        channels[i].queue.len() == 0 ==> channel::received(channels, i) == (
            channels,
            Err::<T, ()>(()),
        ),
        channels[i].queue.len() > 0 ==> {
            let (after, found) = channel::received(channels, i);
            &&& found == Ok::<T, ()>(channels[i].queue[0])
            &&& after.len() == channels.len()
            &&& seq![channels[i].queue[0]] + after[i].queue == channels[i].queue
            &&& after[i].heap == channels[i].heap
        },
{
    let queue = channels[i].queue;
    assert(queue.push(value) =~= queue + seq![value]);
    if queue.len() > 0 {
        assert(seq![queue[0]] + queue.drop_first() =~= queue);
    }
}

/// A thread that is spawned has the function and its argument, the integer 0, on its stack, and a
/// frame for the call that begins at the argument.
pub proof fn law_spawned_threads_are_ready(function: Val, before: Machine)
    ensures
        ({
            let after = channel::spawned(function, before);
            &&& after.stack == before.stack + seq![function, Val::Int(0)]
            &&& after.heap == before.heap
            &&& after.futures == before.futures
            &&& after.frames == before.frames + seq![
                FrameModel {
                    offset: before.stack.len() + 1,
                    callable: match function {
                        Val::Closure(handle) => Callable::Closure(handle),
                        Val::Function(id, args, handle) => Callable::Extern(id, args, handle),
                        _ => Callable::Unknown,
                    },
                },
            ]
        }),
{
    let after = channel::spawned(function, before);
    assert(after.stack =~= before.stack + seq![function, Val::Int(0)]);
    assert(after.frames =~= before.frames + seq![after.frames.last()]);
}

/// A thread that was resumed gives `Ok`; one that is dead gives `Err` with the reason, and any
/// other failure leaves its message.
pub proof fn law_resuming_gives_results(vm: &Thread, before: Machine, failure: Failure)
    requires
        failure != Failure::Dead,
    ensures
        before.heap.allocated < before.heap.limit ==> channel::resumed(Ok(()), vm, before) == (
            grown(
                before,
                seq![Val::Data(1, seq![Val::Int(0)])],
                Heap { allocated: before.heap.allocated + 1, limit: before.heap.limit },
            ),
            Status::Success,
        ),
        before.heap.allocated + "Attempted to resume a dead thread"@.len() + 1 <= before.heap.limit
            ==> channel::resumed(Err(Failure::Dead), vm, before) == (
            grown(
                before,
                seq![Val::Data(0, seq![Val::Text("Attempted to resume a dead thread"@)])],
                Heap {
                    allocated: before.heap.allocated + "Attempted to resume a dead thread"@.len()
                        + 1,
                    limit: before.heap.limit,
                },
            ),
            Status::Success,
        ),
        channel::resumed(Err(failure), vm, before) == (
            grown(
                before,
                seq![Val::Text(failure.text())],
                before.heap.forced(failure.text().len()),
            ),
            Status::Error,
        ),
{
    let good: Result<(), &'static str> = Ok(());
    let bad: Result<(), &'static str> = Err("Attempted to resume a dead thread");
    law_failures_leave_their_message(good, vm, before);
    law_failures_leave_their_message(bad, vm, before);
    marshal_laws::law_results_are_variants::<(), &'static str>(
        (),
        "Attempted to resume a dead thread",
        vm,
        before.heap,
    );
    let message = Val::Text(failure.text());
    assert(before.stack.push(message) =~= before.stack + seq![message]);
}

/// The functions of the module for threads and channels are defined in order, each under its own
/// name, with its own type and its own number.
pub proof fn law_thread_functions_are_defined(
    before: Definitions,
    vm: &Thread,
    p1: Primitive<ChannelType<'_>>,
    p2: Primitive<RecvType>,
    p3: Primitive<SendType>,
    p4: Primitive<ResumeType<'_>>,
    p5: Primitive<YieldType>,
    p6: Primitive<SpawnType<'_>>,
)
    ensures
        channel::all_defined(before, vm, p1, p2, p3, p4, p5, p6) == globals::defined(
            globals::defined(
                globals::defined(
                    globals::defined(
                        globals::defined(
                            globals::defined(before, vm, "channel"@, p1),
                            vm,
                            "recv"@,
                            p2,
                        ),
                        vm,
                        "send"@,
                        p3,
                    ),
                    vm,
                    "resume"@,
                    p4,
                ),
                vm,
                "yield"@,
                p5,
            ),
            vm,
            "spawn"@,
            p6,
        ),
{
}

} // verus!
