//! Channels between threads, and running threads.
use vstd::prelude::*;
use crate::alias;
use crate::api;
use crate::api::{AsyncPushable, Pushable, VmType};
use crate::function::{Function, GluonFunction, Signature};
use crate::generic::A;
use crate::globals;
use crate::globals::{Definitions, GlobalModel, Globals};
use crate::machine::{Callable, Context, Error, Failure, FrameModel, Machine, State, Status};
use crate::opaque;
use crate::opaque::{move_value, Generic};
use crate::primitive::{primitive, Primitive};
use crate::record::{Field, Record};
use crate::roles::{RuntimeResult, Userdata, UserdataRef, WithVM};
use crate::substitution::share;
use crate::term::Term;
use crate::text::Show;
use crate::thread;
use crate::thread::{RootedThread, Thread};
use crate::types;
use crate::types::{Op, Type};
use crate::value::{Val, Value, VmIndex};
use frunk_core::hlist::{HCons, HNil};
use std::collections::VecDeque;
use std::marker::PhantomData;

verus! {

/// A queue of values, and the heap that they live in.
#[derive(Debug)]
pub struct Channel<T> {
    pub heap: u64,
    pub queue: VecDeque<T>,
}

/// The model of a [`Channel`].
pub struct ChannelModel<T> {
    pub heap: u64,
    pub queue: Seq<T>,
}

/// All the channels, by their numbers.
#[derive(Debug)]
pub struct Channels<T> {
    pub entries: Vec<Channel<T>>,
}

impl<T> View for Channels<T> {
    type V = Seq<ChannelModel<T>>;

    open spec fn view(&self) -> Seq<ChannelModel<T>> {
        Seq::new(
            self.entries@.len(),
            |i: int|
                ChannelModel { heap: self.entries@[i].heap, queue: self.entries@[i].queue@ },
        )
    }
}

/// The end of a channel that values are sent to.
#[derive(Debug)]
pub struct Sender<T> {
    pub channel: u64,
    pub marker: PhantomData<T>,
}

/// The end of a channel that values are received from.
#[derive(Debug)]
pub struct Receiver<T> {
    pub channel: u64,
    pub marker: PhantomData<T>,
}

/// The number of the type of senders among the types of the host.
pub const SENDER_KIND: u64 = 1;

/// The number of the type of receivers among the types of the host.
pub const RECEIVER_KIND: u64 = 2;

impl<T> Userdata for Sender<T> {
    open spec fn kind() -> u64 {
        SENDER_KIND
    }

    fn type_kind() -> (kind: u64) {
        SENDER_KIND
    }

    open spec fn key() -> Seq<char> {
        "Sender<A>"@
    }

    fn type_key() -> (key: &'static str) {
        "Sender<A>"
    }

    open spec fn handle(&self) -> u64 {
        self.channel
    }

    fn to_handle(&self) -> (handle: u64) {
        self.channel
    }

    fn from_handle(handle: u64) -> (value: Sender<T>) {
        Sender { channel: handle, marker: PhantomData }
    }
}

impl<T> Userdata for Receiver<T> {
    open spec fn kind() -> u64 {
        RECEIVER_KIND
    }

    fn type_kind() -> (kind: u64) {
        RECEIVER_KIND
    }

    open spec fn key() -> Seq<char> {
        "Receiver<A>"@
    }

    fn type_key() -> (key: &'static str) {
        "Receiver<A>"
    }

    open spec fn handle(&self) -> u64 {
        self.channel
    }

    fn to_handle(&self) -> (handle: u64) {
        self.channel
    }

    fn from_handle(handle: u64) -> (value: Receiver<T>) {
        Receiver { channel: handle, marker: PhantomData }
    }
}

/// The channels after a value was put into one of them.
pub open spec fn sent<T>(channels: Seq<ChannelModel<T>>, i: int, value: T) -> Seq<ChannelModel<T>> {
    channels.update(
        i,
        ChannelModel { heap: channels[i].heap, queue: channels[i].queue.push(value) },
    )
}

/// The channels after a value was taken from one of them, and the value, if there was any.
pub open spec fn received<T>(channels: Seq<ChannelModel<T>>, i: int) -> (
    Seq<ChannelModel<T>>,
    Result<T, ()>,
) {
    let queue = channels[i].queue;
    if queue.len() == 0 {
        (channels, Err(()))
    } else {
        (
            channels.update(i, ChannelModel { heap: channels[i].heap, queue: queue.drop_first() }),
            Ok(queue[0]),
        )
    }
}

impl<T> Channels<T> {
    pub fn new() -> (channels: Channels<T>)
        ensures
            channels@ == Seq::<ChannelModel<T>>::empty(),
    {
        let channels = Channels { entries: Vec::new() };
        assert(channels@ =~= Seq::empty());
        channels
    }

    /// Makes an empty channel.
    pub fn create(&mut self, heap: u64) -> (channel: u64)
        ensures
            channel == old(self)@.len(),
            final(self)@ == old(self)@.push(ChannelModel { heap, queue: Seq::empty() }),
    {
        let channel: u64 = self.entries.len() as u64;
        self.entries.push(Channel { heap, queue: VecDeque::new() });
        assert(self@ =~= old(self)@.push(ChannelModel { heap, queue: Seq::empty() }));
        channel
    }
}

impl<T> Sender<T> {
    pub fn send(&self, channels: &mut Channels<T>, value: T)
        requires
            self.channel < old(channels)@.len(),
        ensures
            final(channels)@ == sent(old(channels)@, self.channel as int, value),
    {
        assert(self.channel < channels.entries.len());
        let i: usize = self.channel as usize;
        channels.entries[i].queue.push_back(value);
        assert(channels@ =~= sent(old(channels)@, i as int, value));
    }
}

impl<T> Receiver<T> {
    pub fn try_recv(&self, channels: &mut Channels<T>) -> (result: Result<T, ()>)
        requires
            self.channel < old(channels)@.len(),
        ensures
            (final(channels)@, result) == received(old(channels)@, self.channel as int),
    {
        assert(self.channel < channels.entries.len());
        let i: usize = self.channel as usize;
        match channels.entries[i].queue.pop_front() {
            Some(value) => {
                proof {
                    let queue = old(channels)@[i as int].queue;
                    assert(queue.subrange(1, queue.len() as int) =~= queue.drop_first());
                    assert(channels@ =~= received(old(channels)@, i as int).0);
                }
                Ok(value)
            },
            None => {
                assert(channels@ =~= old(channels)@);
                Err(())
            },
        }
    }
}

/// The values of generic ones.
pub open spec fn values_of<T>(queue: Seq<Generic<T>>) -> Seq<Value> {
    Seq::new(queue.len(), |i: int| queue[i].0)
}

impl<T> Sender<T> {
    /// Adds the values that a sender keeps alive to `reached`: none, as values can only be accessed
    /// through the receiver.
    pub fn traverse(&self, reached: &mut Vec<Value>)
        ensures
            final(reached)@ == old(reached)@,
    {
    }
}

impl<T> Receiver<Generic<T>> {
    /// Adds the values that a receiver keeps alive to `reached`: all that are in its channel.
    pub fn traverse(&self, channels: &Channels<Generic<T>>, reached: &mut Vec<Value>)
        requires
            self.channel < channels@.len(),
        ensures
            final(reached)@ == old(reached)@ + values_of(channels@[self.channel as int].queue),
    {
        assert(self.channel < channels.entries.len());
        let queue = &channels.entries[self.channel as usize].queue;
        let ghost all = values_of(queue@);
        let mut i: usize = 0;
        assert(reached@ =~= old(reached)@ + all.take(0));
        while i < queue.len()
            invariant
                i <= queue@.len(),
                all == values_of(queue@),
                reached@ == old(reached)@ + all.take(i as int),
            decreases queue@.len() - i,
        {
            queue[i].traverse(reached);
            i = i + 1;
            assert(reached@ =~= old(reached)@ + all.take(i as int));
        }
        assert(all.take(i as int) =~= all);
    }
}

/// The type that is named by an alias, applied to one argument.
pub open spec fn named_app(vm: &Thread, name: Seq<char>, arg: Term<Op>) -> Term<Op> {
    Term::Node(
        Op::App,
        seq![alias::leaf(Op::Ident(vm.type_info(name).unwrap().alias.name.model())), arg],
    )
}

/// The type that is named by an alias, applied to one argument. There has to be such an alias.
fn apply_name(vm: &Thread, name: &str, arg: Type) -> (typ: Type)
    requires
        vm.type_info(name@) is Some,
    ensures
        typ.model() == named_app(vm, name@, arg.model()),
{
    let alias = vm.find_type_info(name).unwrap();
    let mut parts: Vec<Type> = Vec::new();
    parts.push(Type::ident(alias.alias.name.clone()));
    parts.push(arg);
    assert(types::models_of(parts@) =~= named_app(vm, name@, arg.model())->Node_1);
    Type::app(parts)
}

impl<T: VmType> VmType for Sender<T> {
    open spec fn typable(vm: &Thread) -> bool {
        vm.type_info("Sender"@) is Some && T::typable(vm)
    }

    open spec fn typ(vm: &Thread) -> Term<Op> {
        named_app(vm, "Sender"@, T::typ(vm))
    }

    open spec fn extra() -> u8 {
        0
    }

    fn make_type(vm: &Thread) -> (typ: Type) {
        apply_name(vm, "Sender", T::make_type(vm))
    }

    fn extra_args() -> (count: VmIndex) {
        0
    }
}

impl<T: VmType> VmType for Receiver<T> {
    open spec fn typable(vm: &Thread) -> bool {
        vm.type_info("Receiver"@) is Some && T::typable(vm)
    }

    open spec fn typ(vm: &Thread) -> Term<Op> {
        named_app(vm, "Receiver"@, T::typ(vm))
    }

    open spec fn extra() -> u8 {
        0
    }

    fn make_type(vm: &Thread) -> (typ: Type) {
        apply_name(vm, "Receiver", T::make_type(vm))
    }

    fn extra_args() -> (count: VmIndex) {
        0
    }
}

/// The name of the field that holds the sender.
#[derive(Debug)]
pub struct SenderField;

/// The name of the field that holds the receiver.
#[derive(Debug)]
pub struct ReceiverField;

impl Default for SenderField {
    fn default() -> (field: SenderField)
        ensures
            field == SenderField,
    {
        SenderField
    }
}

impl Default for ReceiverField {
    fn default() -> (field: ReceiverField)
        ensures
            field == ReceiverField,
    {
        ReceiverField
    }
}

impl Field for SenderField {
    open spec fn label() -> Seq<char> {
        "sender"@
    }

    fn name() -> (name: &'static str) {
        "sender"
    }
}

impl Field for ReceiverField {
    open spec fn label() -> Seq<char> {
        "receiver"@
    }

    fn name() -> (name: &'static str) {
        "receiver"
    }
}

/// The two ends of a channel.
pub type ChannelRecord<S, R> = Record<
    HCons<(SenderField, S), HCons<(ReceiverField, R), HNil>>,
>;

/// Makes a channel. The argument only says which type the channel is for.
pub fn channel<'vm>(
    with: WithVM<'vm, Generic<A>>,
    channels: &mut Channels<Generic<A>>,
) -> (record: ChannelRecord<Sender<Generic<A>>, Receiver<Generic<A>>>)
    ensures
        final(channels)@ == old(channels)@.push(
            ChannelModel { heap: with.vm.heap, queue: Seq::empty() },
        ),
        record.fields.head.1.channel == old(channels)@.len(),
        record.fields.tail.head.1.channel == old(channels)@.len(),
{
    let channel: u64 = channels.create(with.vm.heap);
    let sender = Sender { channel, marker: PhantomData };
    let receiver = Receiver { channel, marker: PhantomData };
    Record {
        fields: HCons {
            head: (SenderField, sender),
            tail: HCons { head: (ReceiverField, receiver), tail: HNil },
        },
    }
}

/// Receives a value.
pub fn recv(
    receiver: &UserdataRef<Receiver<Generic<A>>>,
    channels: &mut Channels<Generic<A>>,
) -> (result: Result<Generic<A>, ()>)
    requires
        receiver.0.channel < old(channels)@.len(),
    ensures
        (final(channels)@, result) == received(old(channels)@, receiver.0.channel as int),
{
    receiver.0.try_recv(channels)
}

/// Sends a value of the thread `vm`. `context` belongs to the thread that made the channel: there
/// the value is moved to.
pub fn send(
    sender: &UserdataRef<Sender<Generic<A>>>,
    value: Generic<A>,
    vm: &Thread,
    context: &mut Context,
    channels: &mut Channels<Generic<A>>,
) -> (result: Result<(), ()>)
    requires
        sender.0.channel < old(channels)@.len(),
    ensures
        ({
            let i = sender.0.channel as int;
            let (heap, outcome) = opaque::moved(
                vm.heap,
                old(channels)@[i].heap,
                old(context)@.heap,
                value.0.model(),
            );
            &&& final(context)@ == old(context)@.with_heap(heap)
            &&& match outcome {
                Ok(val) => result is Ok && exists|moved: Generic<A>|
                    moved.0.model() == val && final(channels)@ == #[trigger] sent(
                        old(channels)@,
                        i,
                        moved,
                    ),
                Err(_) => result is Err && final(channels)@ == old(channels)@,
            }
        }),
{
    assert(sender.0.channel < channels.entries.len());
    let i: usize = sender.0.channel as usize;
    let to: u64 = channels.entries[i].heap;
    match move_value(vm.heap, to, value.0, context) {
        Ok(moved) => {
            let generic: Generic<A> = Generic::of(moved);
            sender.0.send(channels, generic);
            Ok(())
        },
        Err(_) => Err(()),
    }
}

/// The machine after a thread was resumed with that outcome, and the status: a result for the
/// caller is pushed, or else the message of the error.
pub open spec fn resumed(outcome: Result<(), Failure>, vm: &Thread, before: Machine) -> (
    Machine,
    Status,
) {
    match outcome {
        Ok(_) => api::status_pushed(Ok::<(), &'static str>(()).async_pushed(vm, before)),
        Err(Failure::Dead) => api::status_pushed(
            Err::<(), &'static str>("Attempted to resume a dead thread").async_pushed(vm, before),
        ),
        Err(failure) => (
            before.with_heap(before.heap.forced(failure.text().len())).with(
                Val::Text(failure.text()),
            ),
            Status::Error,
        ),
    }
}

/// The thread that is to be resumed: the first argument, which has to be one.
pub fn resume_target(args: &Vec<Value>) -> (thread: u64)
    requires
        args@.len() > 0,
        args@[0] is Thread,
    ensures
        args@[0] == Value::Thread(thread),
{
    match &args[0] {
        Value::Thread(child) => *child,
        _ => vstd::pervasive::unreached(),
    }
}

/// Pushes what resuming a thread came to.
pub fn resume(result: Result<(), Error>, vm: &Thread, context: &mut Context) -> (status: Status)
    ensures
        (final(context)@, status) == resumed(
            match result {
                Ok(_) => Ok(()),
                Err(error) => Err(error.model()),
            },
            vm,
            old(context)@,
        ),
{
    match result {
        Ok(_) => {
            let value: Result<(), &str> = Ok(());
            value.status_push(vm, context)
        },
        Err(Error::Dead) => {
            let value: Result<(), &str> = Err("Attempted to resume a dead thread");
            value.status_push(vm, context)
        },
        Err(error) => {
            let message = context.alloc_ignore_limit(error.show());
            context.push_value(message);
            Status::Error
        },
    }
}

/// Gives way to other threads.
pub fn yield_(vm: &Thread) -> (status: Status)
    ensures
        status == Status::Yield,
{
    Status::Yield
}

/// What a frame belongs to in which the value is called.
pub open spec fn callable_of(function: Val) -> Callable {
    match function {
        Val::Closure(handle) => Callable::Closure(handle),
        Val::Function(id, args, handle) => Callable::Extern(id, args, handle),
        _ => Callable::Unknown,
    }
}

/// The machine of a new thread in which the function is about to be called.
pub open spec fn spawned(function: Val, before: Machine) -> Machine {
    let ready = before.with(function).with(Val::Int(0));
    Machine {
        frames: ready.frames.push(
            FrameModel {
                offset: (ready.stack.len() - 1) as nat,
                callable: callable_of(function),
            },
        ),
        ..ready
    }
}

/// Starts the function in a thread that was made for it, if one could be made; `context` belongs
/// to that thread.
pub fn spawn<'vm>(
    value: WithVM<'vm, Function<&'vm Thread, Signature<((),), ()>>>,
    thread: Result<RootedThread, Error>,
    context: &mut Context,
) -> (result: RuntimeResult<RootedThread, Error>)
    ensures
        match thread {
            Ok(made) => {
                &&& result == RuntimeResult::<RootedThread, Error>::Return(made)
                &&& final(context)@ == spawned(
                    value.value.inner().value.model(),
                    old(context)@,
                )
            },
            Err(error) => {
                &&& result == RuntimeResult::<RootedThread, Error>::Panic(error)
                &&& final(context)@ == old(context)@
            },
        },
{
    match spawn_(value, thread, context) {
        Ok(x) => RuntimeResult::Return(x),
        Err(err) => RuntimeResult::Panic(err),
    }
}

fn spawn_<'vm>(
    value: WithVM<'vm, Function<&'vm Thread, Signature<((),), ()>>>,
    thread: Result<RootedThread, Error>,
    context: &mut Context,
) -> (result: Result<RootedThread, Error>)
    ensures
        result == thread,
        final(context)@ == (match thread {
            Ok(_) => spawned(value.value.inner().value.model(), old(context)@),
            Err(_) => old(context)@,
        }),
{
    let thread = match thread {
        Ok(thread) => thread,
        Err(error) => {
            return Err(error);
        },
    };
    let function = value.value.value();
    let callable = match &function {
        Value::Closure(handle) => State::Closure(*handle),
        Value::Function(function) => State::Extern(share(function)),
        _ => State::Unknown,
    };
    match value.value.push(value.vm, context) {
        Ok(_) => {},
        Err(error) => {
            return Err(error);
        },
    }
    context.push_value(Value::Int(0));
    context.enter_scope(1, callable);
    Ok(thread)
}

/// The functions of this module, by the numbers under which the host knows them.
#[derive(Clone, Copy, Debug)]
pub struct Primitives {
    pub channel: GluonFunction,
    pub recv: GluonFunction,
    pub send: GluonFunction,
    pub resume: GluonFunction,
    pub yield_: GluonFunction,
    pub spawn: GluonFunction,
}

/// The type of [`channel`].
pub type ChannelType<'vm> = Signature<
    (WithVM<'vm, Generic<A>>,),
    ChannelRecord<Sender<Generic<A>>, Receiver<Generic<A>>>,
>;

/// The type of [`recv`].
pub type RecvType = Signature<(UserdataRef<Receiver<Generic<A>>>,), Result<Generic<A>, ()>>;

/// The type of [`send`].
pub type SendType = Signature<
    (UserdataRef<Sender<Generic<A>>>, Generic<A>),
    Result<(), ()>,
>;

/// The type of [`resume`].
pub type ResumeType<'vm> = Signature<(&'vm Thread,), Result<(), String>>;

/// The type of [`yield_`].
pub type YieldType = Signature<((),), ()>;

/// The type of [`spawn`].
pub type SpawnType<'vm> = Signature<
    (WithVM<'vm, Function<&'vm Thread, Signature<((),), ()>>>,),
    RuntimeResult<RootedThread, Error>,
>;

/// The primitive of that name and that number.
pub open spec fn is_primitive<F>(p: Primitive<F>, name: Seq<char>, function: GluonFunction) -> bool {
    p.label() == name && p.handle() == function
}

/// What defining the functions of this module one after the other has led to.
pub open spec fn all_defined(
    before: Definitions,
    vm: &Thread,
    p1: Primitive<ChannelType<'_>>,
    p2: Primitive<RecvType>,
    p3: Primitive<SendType>,
    p4: Primitive<ResumeType<'_>>,
    p5: Primitive<YieldType>,
    p6: Primitive<SpawnType<'_>>,
) -> Definitions {
    let d1 = globals::defined(before, vm, "channel"@, p1);
    let d2 = globals::defined(d1, vm, "recv"@, p2);
    let d3 = globals::defined(d2, vm, "send"@, p3);
    let d4 = globals::defined(d3, vm, "resume"@, p4);
    let d5 = globals::defined(d4, vm, "yield"@, p5);
    globals::defined(d5, vm, "spawn"@, p6)
}

/// The functions of this module, with these numbers, were defined one after the other.
pub open spec fn defines_all(
    primitives: Primitives,
    vm: &Thread,
    globals: Globals,
    globals_after: Globals,
    before: Machine,
    after: Machine,
    result: Result<(), Error>,
) -> bool {
    exists|
        p1: Primitive<ChannelType<'_>>,
        p2: Primitive<RecvType>,
        p3: Primitive<SendType>,
        p4: Primitive<ResumeType<'_>>,
        p5: Primitive<YieldType>,
        p6: Primitive<SpawnType<'_>>,
    |
        {
            let end = #[trigger] all_defined(
                globals.definitions(before.heap),
                vm,
                p1,
                p2,
                p3,
                p4,
                p5,
                p6,
            );
            &&& is_primitive(p1, "channel"@, primitives.channel)
            &&& is_primitive(p2, "recv"@, primitives.recv)
            &&& is_primitive(p3, "send"@, primitives.send)
            &&& is_primitive(p4, "resume"@, primitives.resume)
            &&& is_primitive(p5, "yield"@, primitives.yield_)
            &&& is_primitive(p6, "spawn"@, primitives.spawn)
            &&& globals_after@ == end.globals
            &&& after == before.with_heap(end.heap)
            &&& globals::reports(end, result)
        }
}

/// The type is registered, unless there is one of that name already.
pub open spec fn type_ensured(
    before: &Thread,
    after: &Thread,
    key: Seq<char>,
    name: Seq<char>,
) -> bool {
    if before.type_info(name) is Some {
        *after == *before
    } else {
        thread::type_registered(before, after, key, name, seq!['a'])
    }
}

/// Both types of channels are registered, unless there are types of these names already.
pub open spec fn channel_types_ensured(before: &Thread, after: &Thread) -> bool {
    exists|between: Thread|
        {
            &&& #[trigger] type_ensured(before, &between, "Sender<A>"@, "Sender"@)
            &&& type_ensured(&between, after, "Receiver<A>"@, "Receiver"@)
        }
}

/// Registers the type, unless there is one of that name already.
fn ensure_type(vm: &mut Thread, key: &str, name: &str)
    requires
        old(vm).wf(),
        old(vm).symbols < u64::MAX,
    ensures
        final(vm).wf(),
        final(vm).symbols <= old(vm).symbols + 1,
        type_ensured(old(vm), final(vm), key@, name@),
        final(vm).type_info(name@) is Some,
        forall|other: Seq<char>|
            old(vm).type_info(other) is Some ==> #[trigger] final(vm).type_info(other) is Some,
        forall|other: Seq<char>|
            old(vm).known_type(other) is Some ==> #[trigger] final(vm).known_type(other) is Some,
{
    let params: Vec<char> = vec!['a'];
    assert(params@ =~= seq!['a']);
    match vm.register_type(key, name, &params) {
        Ok(_) => {
            proof {
                thread::law_registering_keeps_other_types(
                    old(vm),
                    vm,
                    key@,
                    name@,
                    seq!['a'],
                );
            }
        },
        Err(_) => {},
    }
}

/// Registers the types of this module, and defines its functions as globals. It stops at the first
/// global that cannot be defined.
pub fn load(
    vm: &mut Thread,
    context: &mut Context,
    globals: &mut Globals,
    primitives: Primitives,
) -> (result: Result<(), Error>)
    requires
        old(vm).wf(),
        old(vm).symbols < u64::MAX - 1,
        old(vm).type_info("std.types.Result"@) is Some,
        old(vm).known_type("()"@) is Some,
        old(vm).known_type("String"@) is Some,
        old(vm).known_type("Thread"@) is Some,
    ensures
        final(vm).wf(),
        channel_types_ensured(old(vm), final(vm)),
        defines_all(
            primitives,
            final(vm),
            *old(globals),
            *final(globals),
            old(context)@,
            final(context)@,
            result,
        ),
{
    ensure_type(vm, "Sender<A>", "Sender");
    let ghost between = *vm;
    ensure_type(vm, "Receiver<A>", "Receiver");
    proof {
        assert(type_ensured(old(vm), &between, "Sender<A>"@, "Sender"@));
        assert(vm.type_info("Sender"@) is Some);
    }
    define_all(vm, context, globals, primitives)
}

/// Defines the functions of this module as globals.
fn define_all(
    vm: &Thread,
    context: &mut Context,
    globals: &mut Globals,
    primitives: Primitives,
) -> (result: Result<(), Error>)
    requires
        vm.wf(),
        vm.type_info("Sender"@) is Some,
        vm.type_info("Receiver"@) is Some,
        vm.type_info("std.types.Result"@) is Some,
        vm.known_type("()"@) is Some,
        vm.known_type("String"@) is Some,
        vm.known_type("Thread"@) is Some,
    ensures
        defines_all(
            primitives,
            vm,
            *old(globals),
            *final(globals),
            old(context)@,
            final(context)@,
            result,
        ),
{
    let p1: Primitive<ChannelType<'_>> = primitive("channel", primitives.channel);
    let p2: Primitive<RecvType> = primitive("recv", primitives.recv);
    let p3: Primitive<SendType> = primitive("send", primitives.send);
    let p4: Primitive<ResumeType<'_>> = primitive("resume", primitives.resume);
    let p5: Primitive<YieldType> = primitive("yield", primitives.yield_);
    let p6: Primitive<SpawnType<'_>> = primitive("spawn", primitives.spawn);
    let ghost after = all_defined(
        old(globals).definitions(old(context)@.heap),
        vm,
        p1,
        p2,
        p3,
        p4,
        p5,
        p6,
    );
    match globals.define_global(vm, context, "channel", p1) {
        Ok(_) => {},
        Err(error) => {
            return Err(error);
        },
    }
    match globals.define_global(vm, context, "recv", p2) {
        Ok(_) => {},
        Err(error) => {
            return Err(error);
        },
    }
    match globals.define_global(vm, context, "send", p3) {
        Ok(_) => {},
        Err(error) => {
            return Err(error);
        },
    }
    match globals.define_global(vm, context, "resume", p4) {
        Ok(_) => {},
        Err(error) => {
            return Err(error);
        },
    }
    match globals.define_global(vm, context, "yield", p5) {
        Ok(_) => {},
        Err(error) => {
            return Err(error);
        },
    }
    globals.define_global(vm, context, "spawn", p6)
}

/// Where none of the names is taken and there is memory for the functions, all of them are defined.
pub proof fn law_load_defines_all(
    before: Definitions,
    vm: &Thread,
    p1: Primitive<ChannelType<'_>>,
    p2: Primitive<RecvType>,
    p3: Primitive<SendType>,
    p4: Primitive<ResumeType<'_>>,
    p5: Primitive<YieldType>,
    p6: Primitive<SpawnType<'_>>,
)
    requires
        before.failure is None,
        before.heap.fits(6),
        !globals::defines(before.globals, "channel"@),
        !globals::defines(before.globals, "recv"@),
        !globals::defines(before.globals, "send"@),
        !globals::defines(before.globals, "resume"@),
        !globals::defines(before.globals, "yield"@),
        !globals::defines(before.globals, "spawn"@),
    ensures
        ({
            let after = all_defined(before, vm, p1, p2, p3, p4, p5, p6);
            let names = seq!["channel"@, "recv"@, "send"@, "resume"@, "yield"@, "spawn"@];
            let n = before.globals.len() as int;
            &&& after.failure is None
            &&& after.heap == before.heap.with(6)
            &&& after.globals.len() == n + 6
            &&& after.globals.take(n) == before.globals
            &&& forall|i: int| 0 <= i < 6 ==> #[trigger] after.globals[n + i].name == names[i]
        }),
{
    reveal_strlit("channel");
    reveal_strlit("recv");
    reveal_strlit("send");
    reveal_strlit("resume");
    reveal_strlit("yield");
    reveal_strlit("spawn");
    assert("channel"@[0] == 'c' && "recv"@[0] == 'r' && "send"@[0] == 's' && "resume"@[0] == 'r'
        && "yield"@[0] == 'y' && "spawn"@[0] == 's');
    assert("send"@[1] == 'e' && "spawn"@[1] == 'p');
    assert("recv"@.len() == 4 && "resume"@.len() == 6);
    let d1 = globals::defined(before, vm, "channel"@, p1);
    lemma_defines_more(before.globals, d1.globals.last());
    let d2 = globals::defined(d1, vm, "recv"@, p2);
    lemma_defines_more(d1.globals, d2.globals.last());
    let d3 = globals::defined(d2, vm, "send"@, p3);
    lemma_defines_more(d2.globals, d3.globals.last());
    let d4 = globals::defined(d3, vm, "resume"@, p4);
    lemma_defines_more(d3.globals, d4.globals.last());
    let d5 = globals::defined(d4, vm, "yield"@, p5);
    lemma_defines_more(d4.globals, d5.globals.last());
    let after = all_defined(before, vm, p1, p2, p3, p4, p5, p6);
    assert(after.globals.take(before.globals.len() as int) =~= before.globals);
}

/// One more global defines its own name and no other.
proof fn lemma_defines_more(globals: Seq<GlobalModel>, more: GlobalModel)
    ensures
        forall|name: Seq<char>| #[trigger]
            globals::defines(globals.push(more), name) == (globals::defines(globals, name)
                || more.name == name),
{
    assert forall|name: Seq<char>| #[trigger]
        globals::defines(globals.push(more), name) == (globals::defines(globals, name) || more.name
            == name) by {
        let all = globals.push(more);
        if globals::defines(globals, name) {
            let i = choose|i: int| 0 <= i < globals.len() && (#[trigger] globals[i]).name == name;
            assert(all[i].name == name);
        }
        if more.name == name {
            assert(all[globals.len() as int].name == name);
        }
        if globals::defines(all, name) {
            let i = choose|i: int| 0 <= i < all.len() && (#[trigger] all[i]).name == name;
            if i < globals.len() {
                assert(globals[i].name == name);
            }
        }
    }
}

/// The channels after several values were put into one of them.
pub open spec fn all_sent<T>(channels: Seq<ChannelModel<T>>, i: int, values: Seq<T>) -> Seq<
    ChannelModel<T>,
>
    decreases values.len(),
{
    if values.len() == 0 {
        channels
    } else {
        sent(all_sent(channels, i, values.drop_last()), i, values.last())
    }
}

/// The channels after taking a value from one of them was tried `count` times, and what came out.
pub open spec fn all_received<T>(channels: Seq<ChannelModel<T>>, i: int, count: nat) -> (
    Seq<ChannelModel<T>>,
    Seq<Result<T, ()>>,
)
    decreases count,
{
    if count == 0 {
        (channels, Seq::empty())
    } else {
        let (before, results) = all_received(channels, i, (count - 1) as nat);
        let (after, result) = received(before, i);
        (after, results.push(result))
    }
}

/// What was put into a channel stands behind what was there, in the order in which it was put.
proof fn lemma_all_sent<T>(channels: Seq<ChannelModel<T>>, i: int, values: Seq<T>)
    requires
        0 <= i < channels.len(),
    ensures
        all_sent(channels, i, values).len() == channels.len(),
        all_sent(channels, i, values)[i].queue == channels[i].queue + values,
        all_sent(channels, i, values)[i].heap == channels[i].heap,
        forall|j: int|
            0 <= j < channels.len() && j != i ==> #[trigger] all_sent(channels, i, values)[j]
                == channels[j],
    decreases values.len(),
{
    if values.len() > 0 {
        lemma_all_sent(channels, i, values.drop_last());
        assert(all_sent(channels, i, values)[i].queue =~= channels[i].queue + values);
    } else {
        assert(channels[i].queue + values =~= channels[i].queue);
    }
}

/// What is taken from a channel is what stands in front.
proof fn lemma_all_received<T>(channels: Seq<ChannelModel<T>>, i: int, count: nat)
    requires
        0 <= i < channels.len(),
        count <= channels[i].queue.len(),
    ensures
        all_received(channels, i, count).0.len() == channels.len(),
        all_received(channels, i, count).0[i].queue == channels[i].queue.skip(count as int),
        all_received(channels, i, count).1.len() == count,
        forall|k: int|
            0 <= k < count ==> #[trigger] all_received(channels, i, count).1[k] == Ok::<T, ()>(
                channels[i].queue[k],
            ),
        forall|j: int|
            0 <= j < channels.len() && j != i ==> #[trigger] all_received(channels, i, count).0[j]
                == channels[j],
    decreases count,
{
    if count > 0 {
        lemma_all_received(channels, i, (count - 1) as nat);
        let before = all_received(channels, i, (count - 1) as nat).0;
        assert(before[i].queue[0] == channels[i].queue[count - 1]);
        assert(before[i].queue.drop_first() =~= channels[i].queue.skip(count as int));
    } else {
        assert(channels[i].queue.skip(0) =~= channels[i].queue);
    }
}

/// What is sent over an empty channel is received in the order in which it was sent, and then the
/// channel is empty again.
pub proof fn law_first_in_first_out<T>(channels: Seq<ChannelModel<T>>, i: int, values: Seq<T>)
    requires
        0 <= i < channels.len(),
        channels[i].queue.len() == 0,
    ensures
        ({
            let (after, results) = all_received(
                all_sent(channels, i, values),
                i,
                values.len(),
            );
            &&& results == Seq::new(values.len(), |k: int| Ok::<T, ()>(values[k]))
            &&& after[i].queue.len() == 0
            &&& received(after, i).1 is Err
        }),
{
    let full = all_sent(channels, i, values);
    lemma_all_sent(channels, i, values);
    assert(full[i].queue =~= values);
    lemma_all_received(full, i, values.len());
    let (after, results) = all_received(full, i, values.len());
    assert(results =~= Seq::new(values.len(), |k: int| Ok::<T, ()>(values[k])));
}

/// Sending and receiving over one channel changes no other.
pub proof fn law_channels_are_independent<T>(
    channels: Seq<ChannelModel<T>>,
    i: int,
    j: int,
    value: T,
)
    requires
        0 <= i < channels.len(),
        0 <= j < channels.len(),
        i != j,
    ensures
        sent(channels, i, value)[j] == channels[j],
        received(channels, i).0[j] == channels[j],
{
}

} // verus!
