use gluon::api::{Getable, Pushable, VmType};
use gluon::channel::{
    channel, load, recv, resume, resume_target, send, spawn, yield_, ChannelType, Channels,
    Primitives, Receiver, Sender,
};
use gluon::function::{Function, FunctionRef, Signature};
use gluon::generic::A;
use gluon::globals::Globals;
use gluon::machine::{Context, Error, State, Status};
use gluon::opaque::Generic;
use gluon::roles::{RuntimeResult, UserdataRef, WithVM};
use gluon::symbol::Symbol;
use gluon::thread::Thread;
use gluon::types::{AliasData, AliasRef, Type};
use gluon::value::{ExternFunction, Value};
use gluon::value_ref::Variants;
use std::marker::PhantomData;
use std::sync::Arc;

fn vm() -> Thread {
    Thread::new(1, 1)
}

fn vm_for_load() -> Thread {
    let mut vm = vm();
    let data = Arc::new(AliasData {
        name: Symbol::new(vm.symbols, "std.types.Result".to_string()),
        typ: Type::opaque(),
    });
    vm.symbols += 1;
    vm.aliases.push(AliasRef {
        group: Arc::new(vec![data.clone()]),
        alias: data,
    });
    let thread = ("Thread".to_string(), Type::opaque());
    vm.types.insert(6, thread);
    vm
}

fn generic(i: i64) -> Generic<A> {
    Generic::of(Value::Int(i))
}

fn ends(
    vm: &Thread,
    channels: &mut Channels<Generic<A>>,
) -> (
    UserdataRef<Sender<Generic<A>>>,
    UserdataRef<Receiver<Generic<A>>>,
) {
    let record = channel(
        WithVM {
            vm,
            value: generic(0),
        },
        channels,
    );
    (
        UserdataRef(record.fields.head.1),
        UserdataRef(record.fields.tail.head.1),
    )
}

fn primitives() -> Primitives {
    Primitives {
        channel: 1,
        recv: 2,
        send: 3,
        resume: 4,
        yield_: 5,
        spawn: 6,
    }
}

#[test]
fn first_in_first_out() {
    let vm = vm();
    let mut channels = Channels::new();
    let mut context = Context::new(10);
    let (sender, receiver) = ends(&vm, &mut channels);
    assert!(recv(&receiver, &mut channels).is_err());
    for i in 0..5 {
        assert!(send(&sender, generic(i), &vm, &mut context, &mut channels).is_ok());
    }
    for i in 0..5 {
        let got = recv(&receiver, &mut channels).unwrap();
        assert!(got.0.same(&Value::Int(i)));
    }
    assert!(recv(&receiver, &mut channels).is_err());
}

#[test]
fn channels_do_not_mix() {
    let vm = vm();
    let mut channels = Channels::new();
    let mut context = Context::new(10);
    let (first, first_end) = ends(&vm, &mut channels);
    let (_, second_end) = ends(&vm, &mut channels);
    assert!(send(&first, generic(1), &vm, &mut context, &mut channels).is_ok());
    assert!(recv(&second_end, &mut channels).is_err());
    assert!(recv(&first_end, &mut channels).is_ok());
}

#[test]
fn sent_values_are_copied_between_heaps() {
    let here = vm();
    let there = Thread::new(2, 2);
    let mut channels = Channels::new();
    let mut context = Context::new(4);
    let (sender, receiver) = ends(&here, &mut channels);
    let text = Value::String(Arc::new("abc".to_string()));
    let value: Generic<A> = Generic::of(text.clone());
    assert!(send(&sender, value.clone(), &there, &mut context, &mut channels).is_ok());
    assert_eq!(context.allocated, 3);
    assert!(send(&sender, value.clone(), &here, &mut context, &mut channels).is_ok());
    assert_eq!(context.allocated, 3);
    assert!(send(&sender, value, &there, &mut context, &mut channels).is_err());
    assert!(recv(&receiver, &mut channels).unwrap().0.same(&text));
    assert!(recv(&receiver, &mut channels).unwrap().0.same(&text));
    assert!(recv(&receiver, &mut channels).is_err());
    let thread: Generic<A> = Generic::of(Value::Thread(9));
    assert!(send(&sender, thread, &there, &mut context, &mut channels).is_err());
}

#[test]
fn ends_of_channels_work_without_the_virtual_machine() {
    let mut channels: Channels<&str> = Channels::new();
    let number = channels.create(0);
    let sender = Sender {
        channel: number,
        marker: PhantomData,
    };
    let receiver = Receiver {
        channel: number,
        marker: PhantomData,
    };
    sender.send(&mut channels, "a");
    sender.send(&mut channels, "b");
    assert_eq!(receiver.try_recv(&mut channels), Ok("a"));
    assert_eq!(receiver.try_recv(&mut channels), Ok("b"));
    assert_eq!(receiver.try_recv(&mut channels), Err(()));
}

#[test]
fn records_of_channels_are_pushed() {
    let vm = vm();
    let mut channels = Channels::new();
    let mut context = Context::new(10);
    let record = channel(
        WithVM {
            vm: &vm,
            value: generic(0),
        },
        &mut channels,
    );
    record.push(&vm, &mut context).unwrap();
    match context.pop_value() {
        Value::Data(data) => {
            assert_eq!(data.fields.len(), 2);
            assert!(matches!(data.fields[0], Value::Userdata(_)));
        }
        _ => panic!("expected a record"),
    }
}

#[test]
fn resuming_pushes_a_result() {
    let vm = vm();
    let mut context = Context::new(100);
    assert_eq!(resume(Ok(()), &vm, &mut context), Status::Success);
    let value = context.pop_value();
    assert_eq!(
        Result::<(), String>::from_value(&vm, Variants(&value)),
        Some(Ok(()))
    );
    assert_eq!(resume(Err(Error::Dead), &vm, &mut context), Status::Success);
    let value = context.pop_value();
    assert_eq!(
        Result::<(), String>::from_value(&vm, Variants(&value)),
        Some(Err("Attempted to resume a dead thread".to_string()))
    );
    let failure = Error::Message("crash".to_string());
    assert_eq!(resume(Err(failure), &vm, &mut context), Status::Error);
    let value = context.pop_value();
    assert_eq!(
        String::from_value(&vm, Variants(&value)),
        Some("crash".to_string())
    );
    assert_eq!(resume_target(&vec![Value::Thread(12), Value::Int(0)]), 12);
}

#[test]
fn resuming_without_memory_pushes_a_message() {
    let vm = vm();
    let mut context = Context::new(0);
    assert_eq!(resume(Ok(()), &vm, &mut context), Status::Error);
    let value = context.pop_value();
    assert_eq!(
        String::from_value(&vm, Variants(&value)),
        Some("Thread is out of memory".to_string())
    );
}

#[test]
fn yielding() {
    assert_eq!(yield_(&vm()), Status::Yield);
}

#[test]
fn spawned_threads_have_the_function_on_their_stack() {
    let vm = vm();
    let child = Arc::new(Thread::new(2, 1));
    let mut context = Context::new(10);
    let closure = Value::Closure(77);
    let function: FunctionRef<Signature<((),), ()>> =
        Function::from_value(&vm, Variants(&closure)).unwrap();
    match spawn(
        WithVM {
            vm: &vm,
            value: function,
        },
        Ok(child),
        &mut context,
    ) {
        RuntimeResult::Return(thread) => assert_eq!(thread.id, 2),
        RuntimeResult::Panic(_) => panic!("expected a thread"),
    }
    assert_eq!(context.stack.len(), 2);
    assert!(matches!(context.stack[0], Value::Closure(77)));
    assert!(matches!(context.stack[1], Value::Int(0)));
    assert_eq!(context.frames.len(), 1);
    assert_eq!(context.frames[0].offset, 1);
    assert!(matches!(context.frames[0].state, State::Closure(77)));
    assert_eq!(context.frame_offset(), 1);
}

#[test]
fn spawning_other_callables() {
    let vm = vm();
    let host = Value::Function(Arc::new(ExternFunction {
        id: "f".to_string(),
        args: 1,
        function: 4,
    }));
    let partial = Value::PartialApplication(3);
    for (value, is_extern) in [(host, true), (partial, false)] {
        let mut context = Context::new(10);
        let function: FunctionRef<Signature<((),), ()>> =
            Function::from_value(&vm, Variants(&value)).unwrap();
        let result = spawn(
            WithVM {
                vm: &vm,
                value: function,
            },
            Ok(Arc::new(Thread::new(2, 1))),
            &mut context,
        );
        assert!(matches!(result, RuntimeResult::Return(_)));
        match &context.frames[0].state {
            State::Extern(function) => assert!(is_extern && function.function == 4),
            State::Unknown => assert!(!is_extern),
            State::Closure(_) => panic!("expected no closure"),
        }
    }
}

#[test]
fn spawning_fails_without_a_thread() {
    let vm = vm();
    let closure = Value::Closure(77);
    let function: FunctionRef<Signature<((),), ()>> =
        Function::from_value(&vm, Variants(&closure)).unwrap();
    let mut context = Context::new(10);
    let result = spawn(
        WithVM {
            vm: &vm,
            value: function,
        },
        Err(Error::OutOfMemory {
            limit: 1,
            needed: 2,
        }),
        &mut context,
    );
    assert!(matches!(
        result,
        RuntimeResult::Panic(Error::OutOfMemory { .. })
    ));
    assert_eq!(context.stack.len(), 0);
}

#[test]
fn loading_defines_all() {
    let mut vm = vm_for_load();
    let mut context = Context::new(6);
    let mut globals = Globals::new();
    load(&mut vm, &mut context, &mut globals, primitives()).unwrap();
    let names: Vec<&str> = globals.entries.iter().map(|g| g.name.as_str()).collect();
    assert_eq!(
        names,
        vec!["channel", "recv", "send", "resume", "yield", "spawn"]
    );
    assert!(globals.global_exists("yield"));
    assert!(!globals.global_exists("yield_"));
    assert!(vm.find_type_info("Sender").is_some());
    assert!(vm.find_type_info("Receiver").is_some());
    assert_eq!(context.stack.len(), 0);
    assert_eq!(context.allocated, 6);
    let args: Vec<u32> = globals
        .entries
        .iter()
        .map(|g| match &g.value {
            Value::Function(function) => function.args,
            _ => panic!("expected a function"),
        })
        .collect();
    assert_eq!(args, vec![1, 1, 2, 1, 1, 1]);
    let expected = ChannelType::make_forall_type(&vm);
    assert!(globals.entries[0].typ.same(&expected));
    match load(&mut vm, &mut context, &mut globals, primitives()) {
        Err(Error::GlobalAlreadyExists(name)) => assert_eq!(name, "channel"),
        _ => panic!("expected the globals to exist"),
    }
}

#[test]
fn loading_stops_without_memory() {
    let mut vm = vm_for_load();
    let mut context = Context::new(3);
    let mut globals = Globals::new();
    let err = load(&mut vm, &mut context, &mut globals, primitives());
    assert!(matches!(err, Err(Error::OutOfMemory { .. })));
    assert_eq!(globals.entries.len(), 3);
}

#[test]
fn types_are_registered_once() {
    let mut vm = vm();
    let typ = vm
        .register_type("Pair<A, B>", "Pair", &vec!['a', 'b'])
        .unwrap();
    let name = vm.find_type_info("Pair").unwrap().alias.name.clone();
    let expected = Type::app(vec![
        Type::ident(name),
        vm.get_generic('a'),
        vm.get_generic('b'),
    ]);
    assert!(typ.same(&expected));
    assert!(vm.get_type("Pair<A, B>").same(&expected));
    match vm.register_type("Other", "Pair", &vec![]) {
        Err(Error::TypeAlreadyExists(name)) => assert_eq!(name, "Pair"),
        _ => panic!("expected the type to exist"),
    }
}

#[test]
fn types_of_channels() {
    let mut vm = vm();
    vm.register_type("Sender<A>", "Sender", &vec!['a']).unwrap();
    vm.register_type("Receiver<A>", "Receiver", &vec!['a'])
        .unwrap();
    let sender = vm.find_type_info("Sender").unwrap().alias.name.clone();
    let receiver = vm.find_type_info("Receiver").unwrap().alias.name.clone();
    assert_ne!(sender.id, receiver.id);
    let expected = Type::app(vec![Type::ident(sender), i32::make_type(&vm)]);
    assert!(Sender::<i32>::make_type(&vm).same(&expected));
    let expected = Type::app(vec![Type::ident(receiver), i32::make_type(&vm)]);
    assert!(Receiver::<i32>::make_type(&vm).same(&expected));
}

#[test]
fn receivers_keep_queued_values_alive() {
    let vm = vm();
    let mut channels = Channels::new();
    let mut context = Context::new(10);
    let (sender, receiver) = ends(&vm, &mut channels);
    for i in 0..3 {
        send(&sender, generic(i), &vm, &mut context, &mut channels).unwrap();
    }
    let mut reached = vec![Value::Tag(0)];
    sender.0.traverse(&mut reached);
    assert_eq!(reached.len(), 1);
    receiver.0.traverse(&channels, &mut reached);
    assert_eq!(reached.len(), 4);
    assert!(reached[3].same(&Value::Int(2)));
    generic(9).traverse(&mut reached);
    assert!(reached[4].same(&Value::Int(9)));
}
