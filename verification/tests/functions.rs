use frunk_core::hlist::{h_cons, HCons, HNil};
use futures::Async;
use gluon::api::{Getable, Pushable, VmType};
use gluon::channel::{ReceiverField, SenderField};
use gluon::function::{Function, FunctionRef, FunctionType, HostFunction, Signature, VmFunction};
use gluon::generic;
use gluon::machine::{Context, Error, Status};
use gluon::opaque::Generic;
use gluon::primitive::{primitive, primitive_f, CPrimitive, Primitive};
use gluon::record::Record;
use gluon::roles::{WithVM, IO};
use gluon::text::Show;
use gluon::thread::Thread;
use gluon::type_cache::TypeField;
use gluon::types::{BuiltinType, Type};
use gluon::value::Value;
use gluon::value_ref::Variants;
use std::sync::Arc;

type Point = Record<HCons<(SenderField, i32), HCons<(ReceiverField, String), HNil>>>;

fn point(x: i32, y: &str) -> Point {
    Record {
        fields: h_cons((SenderField, x), h_cons((ReceiverField, y.to_string()), HNil)),
    }
}

fn vm() -> Thread {
    Thread::new(1, 1)
}

#[test]
fn records_come_back() {
    let vm = vm();
    let mut context = Context::new(100);
    point(3, "north").push(&vm, &mut context).unwrap();
    assert_eq!(context.stack.len(), 1);
    let value = context.pop_value();
    match &value {
        Value::Data(data) => {
            assert_eq!(data.tag, 0);
            assert_eq!(data.fields.len(), 2);
        }
        _ => panic!("expected data"),
    }
    let back = Point::from_value(&vm, Variants(&value)).unwrap();
    assert_eq!(back.fields.head.1, 3);
    assert_eq!(back.fields.tail.head.1, "north");
    assert!(Point::from_value(&vm, Variants(&Value::Int(0))).is_none());
    assert!(Point::from_value(&vm, Variants(&Value::Tag(0))).is_none());
    type Other = Record<HCons<(SenderField, u8), HCons<(ReceiverField, String), HNil>>>;
    assert!(Other::from_value(&vm, Variants(&value)).is_none());
}

#[test]
fn empty_records_come_back() {
    let vm = vm();
    let mut context = Context::new(0);
    Record { fields: HNil }.push(&vm, &mut context).unwrap();
    let value = context.pop_value();
    assert!(matches!(&value, Value::Data(data) if data.fields.is_empty()));
    assert!(Record::<HNil>::from_value(&vm, Variants(&value)).is_some());
}

#[test]
fn failing_records_leave_the_stack_intact() {
    let vm = vm();
    let mut context = Context::new(4);
    let err = point(3, "north").push(&vm, &mut context);
    assert!(matches!(err, Err(Error::OutOfMemory { limit: 4, needed: 5 })));
    assert_eq!(context.stack.len(), 0);
    let mut context = Context::new(6);
    let err = point(3, "north").push(&vm, &mut context);
    assert!(matches!(err, Err(Error::OutOfMemory { limit: 6, needed: 2 })));
    assert_eq!(context.stack.len(), 0);
}

#[test]
fn record_types_have_the_names_of_the_fields() {
    let vm = vm();
    let expected = Type::record(vec![
        TypeField {
            name: "sender".to_string(),
            typ: Type::builtin(BuiltinType::Int),
        },
        TypeField {
            name: "receiver".to_string(),
            typ: Type::builtin(BuiltinType::String),
        },
    ]);
    assert!(Point::make_type(&vm).same(&expected));
    assert!(Record::<HNil>::make_type(&vm).same(&Type::record(vec![])));
}

#[test]
fn function_types() {
    let vm = vm();
    let int_type = || Type::builtin(BuiltinType::Int);
    let expected = Type::function(vec![int_type(), Type::builtin(BuiltinType::String)], int_type());
    assert!(Signature::<(i32, String), i64>::make_type(&vm).same(&expected));
    assert!(Signature::<(), i64>::make_type(&vm).same(&int_type()));
    assert_eq!(Signature::<(), i64>::arguments(), 0);
    assert_eq!(Signature::<(i32,), i64>::arguments(), 1);
    assert_eq!(Signature::<(i32, i32, i32), i64>::arguments(), 3);
    assert_eq!(Signature::<(i32, i32), IO<i64>>::arguments(), 3);
    assert_eq!(
        Signature::<(u8, u8, u8, u8, u8, u8, u8), IO<i64>>::arguments(),
        8
    );
    assert_eq!(<&Signature<(i32,), i64>>::arguments(), 1);
    assert_eq!(<Box<Signature<(i32,), i64>>>::arguments(), 1);
}

#[test]
fn primitives_are_named_like_gluon_modules() {
    let vm = vm();
    let mut context = Context::new(3);
    let p: Primitive<Signature<(i32, i32), i32>> = primitive("std::int::add", 17);
    p.push(&vm, &mut context).unwrap();
    match context.pop_value() {
        Value::Function(function) => {
            assert_eq!(function.id, "std.int.add");
            assert_eq!(function.args, 2);
            assert_eq!(function.function, 17);
        }
        _ => panic!("expected a function"),
    }
    let p: Primitive<Signature<(), IO<i32>>> = primitive("a:::b", 1);
    p.push(&vm, &mut context).unwrap();
    match context.pop_value() {
        Value::Function(function) => {
            assert_eq!(function.id, "a.:b");
            assert_eq!(function.args, 1);
        }
        _ => panic!("expected a function"),
    }
    CPrimitive::new(5, 4, "c::f").push(&vm, &mut context).unwrap();
    match context.pop_value() {
        Value::Function(function) => {
            assert_eq!(function.id, "c::f");
            assert_eq!(function.args, 4);
            assert_eq!(function.function, 5);
        }
        _ => panic!("expected a function"),
    }
    let err = CPrimitive::new(5, 4, "f").push(&vm, &mut context);
    assert!(matches!(err, Err(Error::OutOfMemory { .. })));
}

fn add_both(args: (i32, i32)) -> i32 {
    args.0 + args.1
}

#[test]
fn references_to_functions_are_primitives_too() {
    let vm = vm();
    let mut context = Context::new(3);
    let host: HostFunction<fn((i32, i32)) -> i32, (i32, i32), i32> = HostFunction::new(add_both);
    let p = primitive_f("math::sum", 3, host);
    p.push(&vm, &mut context).unwrap();
    match context.pop_value() {
        Value::Function(function) => {
            assert_eq!(function.id, "math.sum");
            assert_eq!(function.args, 2);
            assert_eq!(function.function, 3);
        }
        _ => panic!("expected a function"),
    }
    type Host = HostFunction<fn((i32, i32)) -> i32, (i32, i32), i32>;
    assert!(Host::make_type(&vm).same(&Signature::<(i32, i32), i32>::make_type(&vm)));
    assert_eq!(Host::arguments(), 2);
}

#[test]
fn host_functions_take_their_arguments_from_the_stack() {
    let vm = vm();
    let mut context = Context::new(100);
    let host = HostFunction::<_, (i32, i32), i32>::new(|args: (i32, i32)| args.0 * 10 + args.1);
    let args = vec![Value::Int(4), Value::Int(2)];
    assert_eq!(host.unpack_and_call(&vm, &args, &mut context), Status::Success);
    assert!(matches!(context.pop_value(), Value::Int(42)));
    let by_ref = &host;
    assert_eq!(by_ref.unpack_and_call(&vm, &args, &mut context), Status::Success);
    assert!(matches!(context.pop_value(), Value::Int(42)));
    let boxed = Box::new(host);
    assert_eq!(boxed.unpack_and_call(&vm, &args, &mut context), Status::Success);
    assert!(matches!(context.pop_value(), Value::Int(42)));
    let fails = HostFunction::<_, (&str,), IO<i32>>::new(|args: (&str,)| {
        IO::Exception(format!("no {}", args.0))
    });
    let args = vec![Value::String(Arc::new("luck".to_string()))];
    assert_eq!(fails.unpack_and_call(&vm, &args, &mut context), Status::Error);
    let message = context.pop_value();
    assert_eq!(
        String::from_value(&vm, Variants(&message)),
        Some("no luck".to_string())
    );
    let which = HostFunction::<_, (WithVM<i32>,), i32>::new(|args: (WithVM<i32>,)| {
        args.0.vm.id as i32 * 100 + args.0.value
    });
    let args = vec![Value::Int(5)];
    assert_eq!(which.unpack_and_call(&vm, &args, &mut context), Status::Success);
    assert!(matches!(context.pop_value(), Value::Int(105)));
    let nothing = HostFunction::<_, (), i32>::new(|_: ()| 7);
    assert_eq!(nothing.unpack_and_call(&vm, &[], &mut context), Status::Success);
    assert!(matches!(context.pop_value(), Value::Int(7)));
}

#[test]
fn calls_put_everything_on_the_stack() {
    let vm = vm();
    let mut context = Context::new(100);
    let value = Value::Closure(8);
    let function: FunctionRef<Signature<(i32, String), IO<i32>>> =
        Function::from_value(&vm, Variants(&value)).unwrap();
    assert!(function.value().same(&value));
    assert!(function.clone().value().same(&value));
    let args = function
        .call_first((1, "x".to_string()), &mut context)
        .unwrap();
    assert_eq!(args, 3);
    assert_eq!(context.stack.len(), 4);
    assert!(matches!(context.stack[0], Value::Closure(8)));
    assert!(matches!(context.stack[1], Value::Int(1)));
    assert!(matches!(context.stack[2], Value::String(_)));
    assert!(matches!(context.stack[3], Value::Int(0)));
}

#[test]
fn calls_stop_at_an_argument_that_fails() {
    let vm = vm();
    let mut context = Context::new(0);
    let value = Value::Closure(8);
    let function: FunctionRef<Signature<(i32, String), i32>> =
        Function::from_value(&vm, Variants(&value)).unwrap();
    let err = function.call_first((1, "x".to_string()), &mut context);
    assert!(matches!(err, Err(Error::OutOfMemory { .. })));
    assert_eq!(context.stack.len(), 2);
}

#[test]
fn results_of_calls() {
    let vm = vm();
    type F<'a> = FunctionRef<'a, Signature<(i32,), i32>>;
    let value = Value::Int(5);
    assert_eq!(F::call(&vm, Ok(Async::Ready(&value))), Ok(5));
    assert_eq!(
        F::call_outcome(&vm, Ok(Async::Ready(&value))),
        Ok(Async::Ready(5))
    );
    assert_eq!(F::call_outcome(&vm, Ok(Async::NotReady)), Ok(Async::NotReady));
    let wrong = Value::Byte(5);
    assert_eq!(
        F::call(&vm, Ok(Async::Ready(&wrong))),
        Err(Error::Message("Wrong type".to_string()))
    );
    assert_eq!(
        F::call(&vm, Ok(Async::NotReady)),
        Err(Error::Message("Unexpected async".to_string()))
    );
    assert_eq!(F::call(&vm, Err(Error::Dead)), Err(Error::Dead));
}

#[test]
fn functions_are_values() {
    let vm = vm();
    let mut context = Context::new(0);
    let value = Value::Closure(8);
    let function: FunctionRef<Signature<(Generic<generic::A>,), i32>> =
        Function::from_value(&vm, Variants(&value)).unwrap();
    function.push(&vm, &mut context).unwrap();
    assert!(context.pop_value().same(&value));
    let rooted: Function<Arc<Thread>, Signature<(), ()>> =
        Function::root(Arc::new(Thread::new(2, 1)), Value::Closure(1));
    assert!(rooted.value().same(&Value::Closure(1)));
    let rooted: Function<Arc<Thread>, Signature<(), ()>> =
        Function::from_value(&vm, Variants(&value)).unwrap();
    assert!(rooted.value().same(&value));
    rooted.clone().push(&vm, &mut context).unwrap();
    assert!(context.pop_value().same(&value));
}

#[test]
fn messages_of_the_machine() {
    assert_eq!(Error::Dead.show(), "The gluon thread is dead");
    let memory = Error::OutOfMemory {
        limit: 1,
        needed: 2,
    };
    assert_eq!(memory.show(), "Thread is out of memory");
    assert_eq!(
        Error::GlobalAlreadyExists("g".to_string()).show(),
        "Global `g` already exists"
    );
    assert_eq!(
        Error::TypeAlreadyExists("T".to_string()).show(),
        "Type `T` already exists"
    );
    assert_eq!(Error::Message("m".to_string()).show(), "m");
}

#[test]
fn arguments_arrive_as_they_were() {
    let vm = vm();
    let mut context = Context::new(100);
    let value = Value::Closure(8);
    let function: FunctionRef<Signature<(u64, String), u64>> =
        Function::from_value(&vm, Variants(&value)).unwrap();
    let count = function
        .call_first((u64::MAX, "x".to_string()), &mut context)
        .unwrap();
    let first = context.stack.len() - count as usize;
    let args = context.stack[first..].to_vec();
    let host = HostFunction::<_, (u64, String), u64>::new(|args: (u64, String)| {
        assert_eq!(args.1, "x");
        args.0
    });
    assert_eq!(host.unpack_and_call(&vm, &args, &mut context), Status::Success);
    let result = context.pop_value();
    assert_eq!(u64::from_value(&vm, Variants(&result)), Some(u64::MAX));
}

#[test]
fn memory_stays_within_the_limit() {
    let vm = vm();
    for limit in 0..12 {
        let mut context = Context::new(limit);
        for _ in 0..4 {
            let before = context.allocated;
            let result = (1i32, Some("ab".to_string())).push(&vm, &mut context);
            assert!(context.allocated <= limit);
            assert!(context.allocated >= before);
            if result.is_ok() {
                assert_eq!(context.allocated, before + 5);
            }
        }
    }
}
