use gluon::api::{AsyncPushable, Getable, Pushable, VmType};
use gluon::generic;
use gluon::machine::{Context, Error, Status};
use gluon::opaque::{Array, Generic, OpaqueValue};
use gluon::roles::{
    FutureHandle, FutureResult, Hole, PushAsRef, Root, RuntimeResult, UserdataRef, WithVM, IO,
};
use gluon::scalar::{
    ordering_from_value, ordering_type, push_ordering, slice_from_value, Float, RootStr,
};
use gluon::symbol::Symbol;
use gluon::text::Show;
use gluon::thread::{RootedThread, Thread};
use gluon::type_cache::TypeField;
use gluon::types::{AliasData, AliasRef, BuiltinType, Type};
use gluon::value::{Value, ValueArray};
use gluon::value_ref::{ArrayRef, ValueRef, Variants};
use std::cmp::Ordering;
use std::marker::PhantomData;
use std::sync::Arc;

fn vm() -> Thread {
    Thread::new(1, 1)
}

fn vm_with(names: &[&str]) -> Thread {
    let mut vm = vm();
    for name in names {
        let data = Arc::new(AliasData {
            name: Symbol::new(vm.symbols, name.to_string()),
            typ: Type::opaque(),
        });
        vm.symbols += 1;
        vm.aliases.push(AliasRef {
            group: Arc::new(vec![data.clone()]),
            alias: data,
        });
    }
    vm
}

fn context() -> Context {
    Context::new(1000)
}

fn pushed<'vm, T: Pushable<'vm>>(vm: &'vm Thread, value: T) -> Value {
    let mut context = context();
    value.push(vm, &mut context).unwrap();
    assert_eq!(context.stack.len(), 1);
    context.pop_value()
}

fn alias_type(vm: &Thread, name: &str) -> Type {
    Type::alias(vm.find_type_info(name).unwrap().duplicate())
}

#[test]
fn scalars_come_back() {
    let vm = vm();
    let byte = pushed(&vm, 200u8);
    assert!(matches!(byte, Value::Byte(200)));
    assert_eq!(u8::from_value(&vm, Variants(&byte)), Some(200));
    assert_eq!(i64::from_value(&vm, Variants(&byte)), None);
    let value = pushed(&vm, -5i16);
    assert!(matches!(value, Value::Int(-5)));
    assert_eq!(i16::from_value(&vm, Variants(&value)), Some(-5));
    let value = pushed(&vm, i32::MIN);
    assert_eq!(i32::from_value(&vm, Variants(&value)), Some(i32::MIN));
    let value = pushed(&vm, i64::MIN);
    assert_eq!(i64::from_value(&vm, Variants(&value)), Some(i64::MIN));
    let value = pushed(&vm, u16::MAX);
    assert_eq!(u16::from_value(&vm, Variants(&value)), Some(u16::MAX));
    let value = pushed(&vm, u32::MAX);
    assert_eq!(u32::from_value(&vm, Variants(&value)), Some(u32::MAX));
    let value = pushed(&vm, u64::MAX);
    assert!(matches!(value, Value::Int(-1)));
    assert_eq!(u64::from_value(&vm, Variants(&value)), Some(u64::MAX));
    let value = pushed(&vm, usize::MAX);
    assert_eq!(usize::from_value(&vm, Variants(&value)), Some(usize::MAX));
    let value = pushed(&vm, isize::MIN);
    assert_eq!(isize::from_value(&vm, Variants(&value)), Some(isize::MIN));
    let unit = pushed(&vm, ());
    assert!(matches!(unit, Value::Int(0)));
    assert_eq!(<()>::from_value(&vm, Variants(&unit)), Some(()));
}

#[test]
fn integers_are_cut_to_size() {
    let vm = vm();
    let value = Value::Int(0x1_0001_0007);
    assert_eq!(u16::from_value(&vm, Variants(&value)), Some(7));
    assert_eq!(u32::from_value(&vm, Variants(&value)), Some(0x1_0007));
}

#[test]
fn floats_come_back() {
    let vm = vm();
    let value = pushed(&vm, Float(1.5f64.to_bits()));
    let back = Float::from_value(&vm, Variants(&value)).unwrap();
    assert_eq!(f64::from_bits(back.0), 1.5);
    assert!(Float::from_value(&vm, Variants(&Value::Int(1))).is_none());
}

#[test]
fn truth_values_come_back() {
    let vm = vm();
    let yes = pushed(&vm, true);
    let no = pushed(&vm, false);
    assert!(matches!(yes, Value::Tag(1)));
    assert!(matches!(no, Value::Tag(0)));
    assert_eq!(bool::from_value(&vm, Variants(&yes)), Some(true));
    assert_eq!(bool::from_value(&vm, Variants(&no)), Some(false));
    assert_eq!(bool::from_value(&vm, Variants(&Value::Tag(2))), Some(false));
    assert_eq!(bool::from_value(&vm, Variants(&Value::Int(1))), None);
}

#[test]
fn orderings_come_back() {
    let mut context = context();
    for (ordering, tag) in [
        (Ordering::Less, 0u32),
        (Ordering::Equal, 1),
        (Ordering::Greater, 2),
    ] {
        push_ordering(ordering, &mut context);
        let value = context.pop_value();
        assert!(matches!(value, Value::Tag(t) if t == tag));
        assert_eq!(ordering_from_value(Variants(&value)), Some(ordering));
    }
    assert_eq!(ordering_from_value(Variants(&Value::Tag(3))), None);
    assert_eq!(ordering_from_value(Variants(&Value::Int(0))), None);
    let vm = vm_with(&["std.types.Ordering"]);
    assert!(ordering_type(&vm).same(&alias_type(&vm, "std.types.Ordering")));
}

#[test]
fn characters_come_back() {
    let vm = vm();
    for c in ['a', '\u{d7ff}', '\u{e000}', '\u{10ffff}', 'ä'] {
        let value = pushed(&vm, c);
        assert_eq!(char::from_value(&vm, Variants(&value)), Some(c));
    }
    assert_eq!(char::from_value(&vm, Variants(&Value::Int(0xd800))), None);
    assert_eq!(char::from_value(&vm, Variants(&Value::Int(0x110000))), None);
    assert_eq!(char::from_value(&vm, Variants(&Value::Int(-1))), None);
    assert_eq!(
        char::from_value(&vm, Variants(&Value::Int(0x1_0000_0041))),
        Some('A')
    );
    assert_eq!(char::from_value(&vm, Variants(&Value::Byte(65))), None);
}

#[test]
fn strings_come_back() {
    let vm = vm();
    let value = pushed(&vm, "grün");
    assert_eq!(
        String::from_value(&vm, Variants(&value)),
        Some("grün".to_string())
    );
    assert_eq!(<&str>::from_value(&vm, Variants(&value)), Some("grün"));
    assert_eq!(*RootStr::from_value(&vm, Variants(&value)).unwrap().0, "grün");
    assert!(RootStr::from_value(&vm, Variants(&Value::Int(0))).is_none());
    assert_eq!(<&str>::from_value(&vm, Variants(&Value::Int(0))), None);
    let owned = "x".to_string();
    assert!(matches!(pushed(&vm, &owned), Value::String(_)));
    assert!(matches!(pushed(&vm, owned), Value::String(_)));
    let as_ref: PushAsRef<String, str> = PushAsRef::new("by reference".to_string());
    let value = pushed(&vm, as_ref);
    assert_eq!(<&str>::from_value(&vm, Variants(&value)), Some("by reference"));
}

#[test]
fn strings_take_memory() {
    let vm = vm();
    let mut context = Context::new(5);
    assert!("abc".push(&vm, &mut context).is_ok());
    assert_eq!(context.allocated, 3);
    match "abc".push(&vm, &mut context) {
        Err(Error::OutOfMemory { limit, needed }) => {
            assert_eq!((limit, needed), (5, 3));
        }
        _ => panic!("expected to run out of memory"),
    }
    assert_eq!(context.stack.len(), 1);
    assert_eq!(context.allocated, 3);
}

#[test]
fn options_come_back() {
    let vm = vm();
    let none = pushed(&vm, None::<i32>);
    assert!(matches!(none, Value::Tag(0)));
    assert_eq!(Option::<i32>::from_value(&vm, Variants(&none)), Some(None));
    let some = pushed(&vm, Some(3i32));
    match &some {
        Value::Data(data) => {
            assert_eq!(data.tag, 1);
            assert_eq!(data.fields.len(), 1);
        }
        _ => panic!("expected data"),
    }
    assert_eq!(Option::<i32>::from_value(&vm, Variants(&some)), Some(Some(3)));
    assert_eq!(Option::<u8>::from_value(&vm, Variants(&some)), None);
    let nested = pushed(&vm, Some(Some("x".to_string())));
    assert_eq!(
        Option::<Option<String>>::from_value(&vm, Variants(&nested)),
        Some(Some(Some("x".to_string())))
    );
}

#[test]
fn results_come_back() {
    let vm = vm();
    let ok = pushed(&vm, Ok::<i32, String>(4));
    let err = pushed(&vm, Err::<i32, String>("no".to_string()));
    match (&ok, &err) {
        (Value::Data(ok), Value::Data(err)) => {
            assert_eq!(ok.tag, 1);
            assert_eq!(err.tag, 0);
        }
        _ => panic!("expected data"),
    }
    assert_eq!(
        Result::<i32, String>::from_value(&vm, Variants(&ok)),
        Some(Ok(4))
    );
    assert_eq!(
        Result::<i32, String>::from_value(&vm, Variants(&err)),
        Some(Err("no".to_string()))
    );
    let other = Value::Tag(7);
    assert_eq!(Result::<i32, String>::from_value(&vm, Variants(&other)), None);
}

#[test]
fn tuples_come_back() {
    let vm = vm();
    let value = pushed(&vm, (1i32, "two".to_string(), true));
    match &value {
        Value::Data(data) => {
            assert_eq!(data.tag, 0);
            assert_eq!(data.fields.len(), 3);
        }
        _ => panic!("expected data"),
    }
    assert_eq!(
        <(i32, String, bool)>::from_value(&vm, Variants(&value)),
        Some((1, "two".to_string(), true))
    );
    assert_eq!(<(i32, String, u8)>::from_value(&vm, Variants(&value)), None);
    let seven = pushed(&vm, (1u8, 2i16, 3i32, 4i64, 5u16, 6u32, 7u64));
    assert_eq!(
        <(u8, i16, i32, i64, u16, u32, u64)>::from_value(&vm, Variants(&seven)),
        Some((1, 2, 3, 4, 5, 6, 7))
    );
    let pair = pushed(&vm, (1i32, (2i32, 3i32)));
    assert_eq!(
        <(i32, (i32, i32))>::from_value(&vm, Variants(&pair)),
        Some((1, (2, 3)))
    );
}

#[test]
fn arrays_come_back() {
    let vm = vm();
    let value = pushed(&vm, vec![10i32, 20, 30]);
    let array: Array<i32> = Array::from_value(&vm, Variants(&value)).unwrap();
    assert_eq!(array.len(), 3);
    assert_eq!(array.get(0), Some(10));
    assert_eq!(array.get(2), Some(30));
    assert_eq!(array.vm().id, 1);
    assert_eq!(array.get_value_array().values.len(), 3);
    let again = pushed(&vm, array);
    assert!(again.same(&value));
    let wrong: Array<String> = Array::from_value(&vm, Variants(&value)).unwrap();
    assert_eq!(wrong.get(0), None);
    let none = Value::Int(0);
    let no_array: Array<i32> = Array::from_value(&vm, Variants(&none)).unwrap();
    assert_eq!(no_array.get(0), None);
}

#[test]
fn slices_come_back() {
    let vm = vm();
    let bytes: &[u8] = &[1, 2, 3];
    let value = pushed(&vm, bytes);
    assert_eq!(slice_from_value::<u8>(Variants(&value)), Some(vec![1, 2, 3]));
    assert_eq!(slice_from_value::<i64>(Variants(&value)), None);
    assert_eq!(slice_from_value::<u8>(Variants(&Value::Int(1))), None);
    let push: PushAsRef<Vec<i64>, [i64]> = PushAsRef::new(vec![4, 5]);
    let value = pushed(&vm, push);
    assert_eq!(slice_from_value::<i64>(Variants(&value)), Some(vec![4, 5]));
    match value.clone() {
        Value::Array(array) => {
            let array = ArrayRef::new(&array);
            assert_eq!(array.len(), 2);
            assert_eq!(array.as_slice::<i64>(), Some(vec![4, 5]));
            assert!(array.get(1).is_some());
            assert!(array.get(2).is_none());
            assert_eq!(array.iter().len(), 2);
        }
        _ => panic!("expected an array"),
    }
}

#[test]
fn failing_pushes_leave_the_stack_intact() {
    let vm = vm();
    let mut context = Context::new(3);
    context.push_value(Value::Int(1));
    let err = vec!["ab".to_string(), "cd".to_string()].push(&vm, &mut context);
    assert!(matches!(err, Err(Error::OutOfMemory { .. })));
    assert_eq!(context.stack.len(), 1);
    assert_eq!(context.allocated, 2);
    let mut context = Context::new(2);
    let err = (1i32, "abc".to_string()).push(&vm, &mut context);
    assert!(matches!(err, Err(Error::OutOfMemory { .. })));
    assert_eq!(context.stack.len(), 0);
    let err = Some("abc").push(&vm, &mut context);
    assert!(matches!(err, Err(Error::OutOfMemory { .. })));
    assert_eq!(context.stack.len(), 0);
    let mut context = Context::new(1);
    let err = vec![1i32, 2, 3].push(&vm, &mut context);
    assert!(matches!(err, Err(Error::OutOfMemory { .. })));
    assert_eq!(context.stack.len(), 0);
}

#[test]
fn any_error_of_an_element_is_passed_on() {
    let vm = vm();
    let mut context = context();
    let items = vec![
        IO::Value(1i32),
        IO::Exception("broken".to_string()),
        IO::Value(2),
    ];
    match items.push(&vm, &mut context) {
        Err(Error::Message(message)) => assert_eq!(message, "broken"),
        _ => panic!("expected the error of the element"),
    }
    assert_eq!(context.stack.len(), 0);
}

#[test]
fn status_push_reports() {
    let vm = vm();
    let mut context = Context::new(1);
    assert_eq!(5i32.status_push(&vm, &mut context), Status::Success);
    assert_eq!("xyz".status_push(&vm, &mut context), Status::Error);
    assert_eq!(context.stack.len(), 2);
    let message = context.pop_value();
    assert_eq!(
        String::from_value(&vm, Variants(&message)),
        Some("Thread is out of memory".to_string())
    );
    let future: FutureResult<FutureHandle<i32>> = FutureResult(FutureHandle {
        id: 42,
        item: PhantomData,
    });
    assert_eq!(future.status_push(&vm, &mut context), Status::Yield);
    assert_eq!(context.futures, vec![42]);
    assert_eq!(context.stack.len(), 1);
}

#[test]
fn io_and_runtime_results() {
    let vm = vm();
    let mut context = context();
    assert!(IO::Value(1i32).push(&vm, &mut context).is_ok());
    let value = context.pop_value();
    assert_eq!(
        IO::<i32>::from_value(&vm, Variants(&value)),
        Some(IO::Value(1))
    );
    assert_eq!(IO::<u8>::from_value(&vm, Variants(&value)), None);
    match IO::<i32>::Exception("exc".to_string()).push(&vm, &mut context) {
        Err(Error::Message(message)) => assert_eq!(message, "exc"),
        _ => panic!("expected the exception"),
    }
    let ok: RuntimeResult<i32, String> = RuntimeResult::from(Ok(3));
    assert!(ok.push(&vm, &mut context).is_ok());
    let panics: RuntimeResult<i32, String> = RuntimeResult::from(Err("stop".to_string()));
    match panics.push(&vm, &mut context) {
        Err(Error::Message(message)) => assert_eq!(message, "stop"),
        _ => panic!("expected the panic"),
    }
    assert_eq!(context.stack.len(), 1);
}

#[test]
fn values_are_passed_with_the_vm() {
    let vm = vm();
    let value = pushed(
        &vm,
        WithVM {
            vm: &vm,
            value: 9i32,
        },
    );
    let with = WithVM::<i32>::from_value(&vm, Variants(&value)).unwrap();
    assert_eq!(with.vm.id, 1);
    assert_eq!(with.value, 9);
    let with = WithVM::<i32>::from_value_unsafe(&vm, Variants(&value)).unwrap();
    assert_eq!(with.value, 9);
}

#[test]
fn opaque_values_are_shared_or_copied() {
    let first = Thread::new(1, 1);
    let same_heap = Thread::new(2, 1);
    let other_heap = Thread::new(3, 2);
    let value = pushed(&first, vec!["a".to_string(), "bc".to_string()]);
    let opaque: OpaqueValue<&Thread, Vec<String>> =
        OpaqueValue::from_value(&first, Variants(&value)).unwrap();
    assert_eq!(opaque.vm().id, 1);
    assert!(opaque.get_value().same(&value));
    assert!(opaque.get_variants().0.same(&value));
    assert!(matches!(opaque.get_ref(), ValueRef::Array(_)));
    let mut context = Context::new(5);
    opaque.clone().push(&same_heap, &mut context).unwrap();
    assert_eq!(context.allocated, 0);
    opaque.clone().push(&other_heap, &mut context).unwrap();
    assert_eq!(context.allocated, 5);
    assert!(context.pop_value().same(&value));
    let err = opaque.clone().push(&other_heap, &mut context);
    assert!(matches!(err, Err(Error::OutOfMemory { .. })));
    assert_eq!(context.stack.len(), 1);
    let inner = opaque.into_inner();
    assert!(inner.value.same(&value));
}

#[test]
fn opaque_values_can_keep_their_thread() {
    let vm = vm_with(&["std.types.Option"]);
    let value = Value::Int(4);
    let opaque: OpaqueValue<RootedThread, i32> = {
        let borrowed = &vm;
        OpaqueValue::from_value(borrowed, Variants(&value)).unwrap()
    };
    assert_eq!(opaque.vm().id, vm.id);
    assert_eq!(opaque.vm().heap, vm.heap);
    assert!(opaque.vm().find_type_info("std.types.Option").is_some());
    assert!(opaque.vm().get_type("u8").same(&vm.get_type("u8")));
    assert!(opaque.get_value().same(&value));
    let inner = opaque.into_inner();
    assert!(inner.value.same(&value));
    assert_eq!(inner.vm.id, vm.id);
}

#[test]
fn some_values_cannot_be_copied() {
    let mut context = context();
    let thread = Value::Thread(1);
    match context.deep_clone(&thread) {
        Err(err) => assert_eq!(err.show(), "Threads cannot be deep cloned yet"),
        Ok(_) => panic!("expected an error"),
    }
    let sender = gluon::channel::Sender::<i32> {
        channel: 0,
        marker: PhantomData,
    };
    let vm = vm();
    let value = pushed(&vm, sender);
    match context.deep_clone(&value) {
        Err(err) => assert_eq!(err.show(), "Userdata cannot be cloned"),
        Ok(_) => panic!("expected an error"),
    }
    for value in [
        Value::Closure(1),
        Value::PartialApplication(2),
        Value::Tag(1),
        Value::Float(3),
        Value::Byte(4),
    ] {
        assert!(context.deep_clone(&value).unwrap().same(&value));
    }
}

#[test]
fn userdata_comes_back() {
    let vm = vm();
    let sender = gluon::channel::Sender::<i32> {
        channel: 5,
        marker: PhantomData,
    };
    let value = pushed(&vm, sender);
    let root: Root<gluon::channel::Sender<i32>> = Root::from_value(&vm, Variants(&value)).unwrap();
    assert_eq!(root.0.channel, 5);
    let wrong: Option<Root<gluon::channel::Receiver<i32>>> = Root::from_value(&vm, Variants(&value));
    assert!(wrong.is_none());
    let unrooted: Option<UserdataRef<gluon::channel::Sender<i32>>> =
        UserdataRef::from_value(&vm, Variants(&value));
    assert!(unrooted.is_none());
    let rooted: Option<UserdataRef<gluon::channel::Sender<i32>>> =
        UserdataRef::from_value_unsafe(&vm, Variants(&value));
    assert_eq!(rooted.unwrap().0.channel, 5);
}

#[test]
fn generic_values_stay_as_they_are() {
    let vm = vm();
    let value = pushed(&vm, "x");
    let generic: Generic<generic::A> = Generic::from_value(&vm, Variants(&value)).unwrap();
    assert!(generic == Generic::of(value.clone()));
    assert!(generic != Generic::of(Value::Int(0)));
    assert!(pushed(&vm, generic) == value);
    assert!(Value::from_value(&vm, Variants(&value)).unwrap().same(&value));
}

#[test]
fn values_are_compared() {
    let vm = vm();
    let a = pushed(&vm, (1i32, "x".to_string()));
    let b = pushed(&vm, (1i32, "x".to_string()));
    let c = pushed(&vm, (1i32, "y".to_string()));
    assert!(ValueRef::new(&a) == ValueRef::new(&b));
    assert!(ValueRef::new(&a) == b);
    assert!(ValueRef::new(&a) != ValueRef::new(&c));
    let array = pushed(&vm, vec![1i32]);
    assert!(ValueRef::new(&array) != ValueRef::new(&array));
    assert!(array.same(&array));
    let thread = Value::Thread(1);
    assert!(ValueRef::new(&thread) != ValueRef::new(&thread));
    assert!(ValueRef::Int(1) != ValueRef::Byte(1));
    let float = |f: f64| Value::Float(f.to_bits());
    assert!(ValueRef::new(&float(1.5)) == float(1.5));
    assert!(ValueRef::new(&float(0.0)) == float(-0.0));
    assert!(ValueRef::new(&float(f64::NAN)) != float(f64::NAN));
    assert!(ValueRef::new(&float(f64::INFINITY)) == float(f64::INFINITY));
    assert!(ValueRef::new(&Value::Tag(1)) == Value::Tag(1));
    assert!(ValueRef::new(&Value::Tag(1)) != Value::Tag(2));
}

#[test]
fn data_can_be_looked_into() {
    let mut vm = vm();
    let value = pushed(&vm, (7i32, "x".to_string()));
    vm.records = vec![(0, vec!["x".to_string(), "y".to_string()])];
    match ValueRef::new(&value) {
        ValueRef::Data(data) => {
            assert_eq!(data.tag(), 0);
            assert_eq!(data.len(), 2);
            assert!(matches!(data.get(0), Some(ValueRef::Int(7))));
            assert!(matches!(data.get(1), Some(ValueRef::String("x"))));
            assert!(data.get(2).is_none());
            assert!(data.get_variants(2).is_none());
            let y = data.lookup_field(&vm, "y").unwrap();
            assert_eq!(<&str>::from_value(&vm, y), Some("x"));
            assert!(data.lookup_field(&vm, "z").is_none());
        }
        _ => panic!("expected data"),
    }
    match ValueRef::new(&Value::Tag(3)) {
        ValueRef::Data(data) => {
            assert_eq!(data.tag(), 3);
            assert_eq!(data.len(), 0);
            assert!(data.get(0).is_none());
            assert!(data.lookup_field(&vm, "x").is_none());
        }
        _ => panic!("expected data"),
    }
    assert!(matches!(ValueRef::new(&Value::Closure(1)), ValueRef::Internal));
    let array = Value::Array(Arc::new(ValueArray { values: vec![] }));
    assert!(matches!(ValueRef::rooted_new(&array), ValueRef::Array(_)));
}

#[test]
fn types_of_the_host_have_types_in_gluon() {
    let vm = vm_with(&["std.types.Bool", "std.types.Option", "std.types.Result", "IO"]);
    let builtin = |b: BuiltinType| Type::builtin(b);
    assert!(u8::make_type(&vm).same(&builtin(BuiltinType::Byte)));
    assert!(i64::make_type(&vm).same(&builtin(BuiltinType::Int)));
    assert!(usize::make_type(&vm).same(&builtin(BuiltinType::Int)));
    assert!(Float::make_type(&vm).same(&builtin(BuiltinType::Float)));
    assert!(String::make_type(&vm).same(&builtin(BuiltinType::String)));
    assert!(<&str>::make_type(&vm).same(&builtin(BuiltinType::String)));
    assert!(char::make_type(&vm).same(&builtin(BuiltinType::Char)));
    assert!(<()>::make_type(&vm).same(&Type::record(vec![])));
    assert!(Hole::make_type(&vm).same(&Type::hole()));
    assert!(bool::make_type(&vm).same(&alias_type(&vm, "std.types.Bool")));
    let option = Type::app(vec![
        alias_type(&vm, "std.types.Option"),
        builtin(BuiltinType::Int),
    ]);
    assert!(Option::<i32>::make_type(&vm).same(&option));
    let result = Type::app(vec![
        alias_type(&vm, "std.types.Result"),
        builtin(BuiltinType::String),
        builtin(BuiltinType::Int),
    ]);
    assert!(Result::<i32, String>::make_type(&vm).same(&result));
    let io = Type::app(vec![alias_type(&vm, "IO"), builtin(BuiltinType::Int)]);
    assert!(IO::<i32>::make_type(&vm).same(&io));
    assert_eq!(IO::<i32>::extra_args(), 1);
    assert_eq!(i32::extra_args(), 0);
    let array = Type::array(builtin(BuiltinType::Byte));
    assert!(Vec::<u8>::make_type(&vm).same(&array));
    assert!(<&[u8]>::make_type(&vm).same(&array));
    let pair = Type::record(vec![
        TypeField {
            name: "_5".to_string(),
            typ: builtin(BuiltinType::Int),
        },
        TypeField {
            name: "_6".to_string(),
            typ: builtin(BuiltinType::Char),
        },
    ]);
    assert!(<(i32, char)>::make_type(&vm).same(&pair));
}

#[test]
fn generics_are_quantified_once() {
    let vm = vm();
    let a = vm.get_generic('a');
    let b = vm.get_generic('b');
    assert!(!a.same(&b));
    assert!(generic::A::make_type(&vm).same(&a));
    assert!(Generic::<generic::B>::make_type(&vm).same(&b));
    let typ = <(generic::A, generic::B, generic::A)>::make_forall_type(&vm);
    let symbols = vec![vm.generics[0].clone(), vm.generics[1].clone()];
    let plain = <(generic::A, generic::B, generic::A)>::make_type(&vm);
    assert!(typ.same(&Type::quantify(symbols, plain)));
    assert!(i32::make_forall_type(&vm).same(&i32::make_type(&vm)));
}

#[test]
fn rooted_userdata_has_the_registered_type() {
    let mut vm = vm();
    let typ = vm
        .register_type("Sender<A>", "Sender", &vec!['a'])
        .unwrap();
    let made = Root::<gluon::channel::Sender<i32>>::make_type(&vm);
    assert!(made.same(&typ));
}

#[test]
fn generics_are_gathered_in_order_and_once() {
    let vm = vm();
    let typ = <(generic::B, generic::A, generic::B)>::make_type(&vm);
    let mut params = Vec::new();
    gluon::rewrite::gather_generics(&mut params, &typ);
    let names: Vec<&str> = params.iter().map(|p| p.name.as_str()).collect();
    assert_eq!(names, vec!["b", "a"]);
    let closed = <(generic::B, generic::A)>::make_forall_type(&vm);
    let mut none = Vec::new();
    gluon::rewrite::gather_generics(&mut none, &closed);
    assert!(none.is_empty());
}

#[test]
fn equality_of_values_goes_both_ways() {
    let float = |f: f64| Value::Float(f.to_bits());
    let values = [
        Value::Int(1),
        Value::Byte(1),
        Value::Tag(1),
        float(0.0),
        float(-0.0),
        float(f64::NAN),
        Value::Closure(1),
        Value::Thread(1),
        Value::Array(Arc::new(ValueArray {
            values: vec![float(0.0)],
        })),
        Value::Array(Arc::new(ValueArray {
            values: vec![float(f64::NAN)],
        })),
    ];
    for a in &values {
        for b in &values {
            assert_eq!(a.same(b), b.same(a));
        }
    }
    assert!(values[8].same(&values[8]));
    assert!(!values[9].same(&values[9]));
    assert!(values[3].same(&values[4]));
}

#[test]
fn frames_hold_the_values_above_their_offset() {
    let mut context = context();
    context.push_value(Value::Int(1));
    context.push_value(Value::Int(2));
    context.push_value(Value::Int(3));
    assert_eq!(context.frame_values().len(), 3);
    context.enter_scope(2, gluon::machine::State::Unknown);
    let values = context.frame_values();
    assert_eq!(values.len(), 2);
    assert!(values[0].same(&Value::Int(2)));
    assert_eq!(context.frame_offset(), 1);
}
