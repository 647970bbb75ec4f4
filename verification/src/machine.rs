//! The state of a running thread: its stack and its memory.
use vstd::prelude::*;
use crate::text::Show;
use crate::value;
use crate::value::{DataStruct, ExternFunction, UserdataPtr, Val, Value, ValueArray, VmIndex, VmTag};
use std::sync::Arc;
use vstd::string::{StrSliceExecFns, StringExecFns};

verus! {

/// Why the virtual machine could not go on.
#[derive(Debug, PartialEq)]
pub enum Error {
    /// The thread has run to its end.
    Dead,
    /// An allocation of `needed` units would have exceeded the `limit`.
    OutOfMemory { limit: usize, needed: usize },
    /// There is a global of that name already.
    GlobalAlreadyExists(String),
    /// There is a type of that name already.
    TypeAlreadyExists(String),
    Message(String),
}

/// The model of an [`Error`].
pub enum Failure {
    Dead,
    OutOfMemory(usize, usize),
    GlobalAlreadyExists(Seq<char>),
    TypeAlreadyExists(Seq<char>),
    Message(Seq<char>),
}

impl Failure {
    /// The text that a user is shown.
    pub open spec fn text(self) -> Seq<char> {
        match self {
            Failure::Dead => "The gluon thread is dead"@,
            Failure::OutOfMemory(..) => "Thread is out of memory"@,
            Failure::GlobalAlreadyExists(name) => "Global `"@ + name + "` already exists"@,
            Failure::TypeAlreadyExists(name) => "Type `"@ + name + "` already exists"@,
            Failure::Message(message) => message,
        }
    }
}

impl Error {
    pub open spec fn model(self) -> Failure {
        match self {
            Error::Dead => Failure::Dead,
            Error::OutOfMemory { limit, needed } => Failure::OutOfMemory(limit, needed),
            Error::GlobalAlreadyExists(name) => Failure::GlobalAlreadyExists(name@),
            Error::TypeAlreadyExists(name) => Failure::TypeAlreadyExists(name@),
            Error::Message(message) => Failure::Message(message@),
        }
    }
}

impl Show for Error {
    open spec fn text(&self) -> Seq<char> {
        self.model().text()
    }

    fn show(&self) -> (text: String) {
        match self {
            Error::Dead => "The gluon thread is dead".to_owned(),
            Error::OutOfMemory { .. } => "Thread is out of memory".to_owned(),
            Error::GlobalAlreadyExists(name) => {
                let text = "Global `".to_owned().concat(name.as_str()).concat("` already exists");
                assert(text@ =~= self.text());
                text
            },
            Error::TypeAlreadyExists(name) => {
                let text = "Type `".to_owned().concat(name.as_str()).concat("` already exists");
                assert(text@ =~= self.text());
                text
            },
            Error::Message(message) => message.clone(),
        }
    }
}

/// How the call of a function of the host ended.
#[derive(Clone, Copy, Debug, PartialEq, Eq, Structural)]
pub enum Status {
    /// The result is on top of the stack.
    Success,
    /// The call has to be continued later.
    Yield,
    /// The message of an error is on top of the stack.
    Error,
}

/// What a frame of the stack belongs to.
#[derive(Debug)]
pub enum State {
    Unknown,
    /// A function of the language.
    Closure(u64),
    /// A function of the host.
    Extern(Arc<ExternFunction>),
}

/// The model of a [`State`].
pub enum Callable {
    Unknown,
    Closure(u64),
    Extern(Seq<char>, VmIndex, u64),
}

impl State {
    pub open spec fn model(self) -> Callable {
        match self {
            State::Unknown => Callable::Unknown,
            State::Closure(handle) => Callable::Closure(handle),
            State::Extern(function) => Callable::Extern(
                function.id@,
                function.args,
                function.function,
            ),
        }
    }
}

/// A part of the stack that belongs to one call.
#[derive(Debug)]
pub struct Frame {
    pub offset: usize,
    pub state: State,
}

/// How much memory is in use, and how much may be.
pub struct Heap {
    pub allocated: nat,
    pub limit: nat,
}

impl Heap {
    /// There is room for `size` more units.
    pub open spec fn fits(self, size: nat) -> bool {
        self.allocated + size <= self.limit
    }

    /// The heap with `size` more units in use.
    pub open spec fn with(self, size: nat) -> Heap {
        Heap { allocated: self.allocated + size, ..self }
    }

    /// The heap with `size` more units in use, regardless of the limit. The count stops at what the
    /// machine can count to.
    pub open spec fn forced(self, size: nat) -> Heap {
        Heap {
            allocated: if self.allocated + size <= usize::MAX {
                self.allocated + size
            } else {
                usize::MAX as nat
            },
            ..self
        }
    }

    /// `after` is a later state of the heap: nothing was given back, and the limit was not exceeded
    /// if it was not before.
    pub open spec fn grows_to(self, after: Heap) -> bool {
        &&& after.limit == self.limit
        &&& self.allocated <= after.allocated
        &&& self.allocated <= self.limit ==> after.allocated <= after.limit
    }

    /// Why there is no room for `size` more units.
    pub open spec fn refusal(self, size: nat) -> Failure {
        Failure::OutOfMemory(self.limit as usize, size as usize)
    }

    /// Allocating `size` units for a value.
    pub open spec fn placed(self, size: nat, value: Val) -> (Heap, Result<Val, Failure>) {
        if self.fits(size) {
            (self.with(size), Ok(value))
        } else {
            (self, Err(self.refusal(size)))
        }
    }
}

/// The model of a [`Frame`].
pub struct FrameModel {
    pub offset: nat,
    pub callable: Callable,
}

/// The model of a [`Context`].
pub struct Machine {
    pub stack: Seq<Val>,
    pub frames: Seq<FrameModel>,
    pub heap: Heap,
    pub futures: Seq<u64>,
}

impl Machine {
    /// Where the current frame starts.
    pub open spec fn offset(self) -> nat {
        if self.frames.len() == 0 {
            0
        } else {
            self.frames.last().offset
        }
    }

    /// The machine with a value on top of the stack.
    pub open spec fn with(self, value: Val) -> Machine {
        Machine { stack: self.stack.push(value), ..self }
    }

    /// The machine with another heap.
    pub open spec fn with_heap(self, heap: Heap) -> Machine {
        Machine { heap, ..self }
    }

    /// The machine after an attempt to push a value: with one more element on the stack if it
    /// succeeded, and with the same stack if it did not.
    pub open spec fn after(self, outcome: (Heap, Result<Val, Failure>)) -> Machine {
        match outcome.1 {
            Ok(value) => self.with_heap(outcome.0).with(value),
            Err(_) => self.with_heap(outcome.0),
        }
    }
}

/// The result is the one that the outcome calls for.
pub open spec fn agrees(outcome: Result<Val, Failure>, result: Result<(), Error>) -> bool {
    match (outcome, result) {
        (Ok(_), Ok(_)) => true,
        (Err(failure), Err(error)) => error.model() == failure,
        _ => false,
    }
}

/// The result is the value that the outcome calls for, or its failure.
pub open spec fn yields(outcome: Result<Val, Failure>, result: Result<Value, Error>) -> bool {
    match (outcome, result) {
        (Ok(val), Ok(value)) => value.model() == val,
        (Err(failure), Err(error)) => error.model() == failure,
        _ => false,
    }
}

/// The models of frames.
pub open spec fn frames_of(frames: Seq<Frame>) -> Seq<FrameModel> {
    Seq::new(
        frames.len(),
        |i: int|
            FrameModel { offset: frames[i].offset as nat, callable: frames[i].state.model() },
    )
}

/// The state of a running thread. Memory is counted in units: one for each field, each element and
/// each character, and one for a function and for a value of the host.
#[derive(Debug)]
pub struct Context {
    pub stack: Vec<Value>,
    pub frames: Vec<Frame>,
    pub allocated: usize,
    pub memory_limit: usize,
    /// The futures, by the numbers under which the host holds them, whose values are awaited.
    pub futures: Vec<u64>,
}

impl View for Context {
    type V = Machine;

    open spec fn view(&self) -> Machine {
        Machine {
            stack: value::models_of(self.stack@),
            frames: frames_of(self.frames@),
            heap: Heap { allocated: self.allocated as nat, limit: self.memory_limit as nat },
            futures: self.futures@,
        }
    }
}

impl Context {
    /// The state of a thread that has not run yet.
    pub fn new(memory_limit: usize) -> (context: Context)
        ensures
            context@ == (Machine {
                stack: Seq::empty(),
                frames: Seq::empty(),
                heap: Heap { allocated: 0, limit: memory_limit as nat },
                futures: Seq::empty(),
            }),
    {
        let context = Context {
            stack: Vec::new(),
            frames: Vec::new(),
            allocated: 0,
            memory_limit,
            futures: Vec::new(),
        };
        assert(context@.stack =~= Seq::empty());
        assert(context@.frames =~= Seq::empty());
        context
    }

    /// Pushes a value.
    pub fn push_value(&mut self, value: Value)
        ensures
            final(self)@ == old(self)@.with(value.model()),
            final(self).stack@ == old(self).stack@.push(value),
    {
        self.stack.push(value);
        assert(self@.stack =~= old(self)@.stack.push(value.model()));
    }

    /// Takes the topmost value.
    pub fn pop_value(&mut self) -> (value: Value)
        requires
            old(self)@.stack.len() > 0,
        ensures
            value.model() == old(self)@.stack.last(),
            final(self)@ == (Machine { stack: old(self)@.stack.drop_last(), ..old(self)@ }),
            final(self).stack@ == old(self).stack@.drop_last(),
            value == old(self).stack@.last(),
    {
        let value = self.stack.pop().unwrap();
        assert(self@.stack =~= old(self)@.stack.drop_last());
        value
    }

    /// Takes the topmost `count` values, the lowest of them first.
    pub fn pop_values(&mut self, count: usize) -> (values: Vec<Value>)
        requires
            count <= old(self)@.stack.len(),
        ensures
            value::models_of(values@) == old(self)@.stack.skip(old(self)@.stack.len() - count),
            final(self)@ == (Machine {
                stack: old(self)@.stack.take(old(self)@.stack.len() - count),
                ..old(self)@
            }),
    {
        let at: usize = self.stack.len() - count;
        let values = self.stack.split_off(at);
        assert(value::models_of(values@) =~= old(self)@.stack.skip(at as int));
        assert(self@.stack =~= old(self)@.stack.take(at as int));
        values
    }

    /// Drops all values above the first `length`.
    pub fn truncate(&mut self, length: usize)
        requires
            length <= old(self)@.stack.len(),
        ensures
            final(self)@ == (Machine { stack: old(self)@.stack.take(length as int), ..old(self)@ }),
    {
        self.stack.truncate(length);
        assert(self@.stack =~= old(self)@.stack.take(length as int));
    }

    /// Where the current frame starts.
    pub fn frame_offset(&self) -> (offset: usize)
        ensures
            offset == self@.offset(),
    {
        let count: usize = self.frames.len();
        if count == 0 {
            0
        } else {
            assert(self@.frames.last() == frames_of(self.frames@)[count - 1]);
            self.frames[count - 1].offset
        }
    }

    /// The values of the current frame, which are kept alive for as long as they are held.
    pub fn frame_values(&self) -> (values: Vec<Value>)
        requires
            self@.offset() <= self@.stack.len(),
        ensures
            value::models_of(values@) == self@.stack.skip(self@.offset() as int),
    {
        let offset: usize = self.frame_offset();
        let mut values: Vec<Value> = Vec::new();
        let mut i: usize = offset;
        while i < self.stack.len()
            invariant
                offset <= i <= self.stack@.len(),
                values@.len() == i - offset,
                forall|k: int|
                    0 <= k < i - offset ==> #[trigger] values@[k] == self.stack@[offset + k],
            decreases self.stack@.len() - i,
        {
            values.push(self.stack[i].clone());
            i = i + 1;
        }
        assert(value::models_of(values@) =~= self@.stack.skip(offset as int));
        values
    }

    /// Starts a frame whose arguments are the topmost `args` values.
    pub fn enter_scope(&mut self, args: usize, state: State)
        requires
            args <= old(self)@.stack.len(),
        ensures
            final(self)@ == (Machine {
                frames: old(self)@.frames.push(
                    FrameModel {
                        offset: (old(self)@.stack.len() - args) as nat,
                        callable: state.model(),
                    },
                ),
                ..old(self)@
            }),
    {
        let offset: usize = self.stack.len() - args;
        self.frames.push(Frame { offset, state });
        assert(self@.frames =~= old(self)@.frames.push(
            FrameModel { offset: offset as nat, callable: state.model() },
        ));
    }

    /// Awaits the value of a future.
    pub fn return_future(&mut self, future: u64)
        ensures
            final(self)@ == (Machine { futures: old(self)@.futures.push(future), ..old(self)@ }),
    {
        self.futures.push(future);
    }

    /// Makes room for `size` units.
    pub fn reserve(&mut self, size: usize) -> (result: Result<(), Error>)
        ensures
            final(self).stack@ == old(self).stack@,
            match result {
                Ok(_) => old(self)@.heap.fits(size as nat) && final(self)@ == old(self)@.with_heap(
                    old(self)@.heap.with(size as nat),
                ),
                Err(error) => !old(self)@.heap.fits(size as nat) && final(self)@ == old(self)@
                    && error.model() == old(self)@.heap.refusal(size as nat),
            },
    {
        match self.allocated.checked_add(size) {
            Some(total) => {
                if total <= self.memory_limit {
                    self.allocated = total;
                    return Ok(());
                }
            },
            None => {},
        }
        Err(Error::OutOfMemory { limit: self.memory_limit, needed: size })
    }

    /// Makes a string, regardless of the memory limit.
    pub fn alloc_ignore_limit(&mut self, text: String) -> (value: Value)
        ensures
            value.model() == Val::Text(text@),
            final(self)@ == old(self)@.with_heap(old(self)@.heap.forced(text@.len())),
    {
        let size: usize = text.as_str().unicode_len();
        self.allocated = self.allocated.saturating_add(size);
        Value::String(Arc::new(text))
    }

    /// Makes a string.
    pub fn alloc_string(&mut self, text: String) -> (result: Result<Value, Error>)
        ensures
            final(self)@ == old(self)@.with_heap(text_placed(old(self)@.heap, text@).0),
            yields(text_placed(old(self)@.heap, text@).1, result),
    {
        let size: usize = text.as_str().unicode_len();
        match self.reserve(size) {
            Ok(_) => Ok(Value::String(Arc::new(text))),
            Err(error) => Err(error),
        }
    }

    /// Makes data with fields.
    pub fn alloc_data(&mut self, tag: VmTag, fields: Vec<Value>) -> (result: Result<Value, Error>)
        ensures
            final(self)@ == old(self)@.with_heap(
                data_placed(old(self)@.heap, tag, value::models_of(fields@)).0,
            ),
            yields(data_placed(old(self)@.heap, tag, value::models_of(fields@)).1, result),
    {
        match self.reserve(fields.len()) {
            Ok(_) => {
                let value = Value::Data(Arc::new(DataStruct { tag, fields }));
                proof {
                    value::lemma_data_model(value);
                }
                Ok(value)
            },
            Err(error) => Err(error),
        }
    }

    /// Makes an array.
    pub fn alloc_array(&mut self, values: Vec<Value>) -> (result: Result<Value, Error>)
        ensures
            final(self)@ == old(self)@.with_heap(
                array_placed(old(self)@.heap, value::models_of(values@)).0,
            ),
            yields(array_placed(old(self)@.heap, value::models_of(values@)).1, result),
    {
        match self.reserve(values.len()) {
            Ok(_) => {
                let value = Value::Array(Arc::new(ValueArray { values }));
                proof {
                    value::lemma_array_model(value);
                }
                Ok(value)
            },
            Err(error) => Err(error),
        }
    }

    /// Makes a function of the host.
    pub fn alloc_function(&mut self, id: String, args: VmIndex, function: u64) -> (result: Result<
        Value,
        Error,
    >)
        ensures
            final(self)@ == old(self)@.with_heap(
                function_placed(old(self)@.heap, id@, args, function).0,
            ),
            yields(function_placed(old(self)@.heap, id@, args, function).1, result),
    {
        match self.reserve(1) {
            Ok(_) => Ok(Value::Function(Arc::new(ExternFunction { id, args, function }))),
            Err(error) => Err(error),
        }
    }

    /// Makes a value of the host.
    pub fn alloc_userdata(&mut self, userdata: UserdataPtr) -> (result: Result<Value, Error>)
        ensures
            final(self)@ == old(self)@.with_heap(
                userdata_placed(old(self)@.heap, userdata).0,
            ),
            yields(userdata_placed(old(self)@.heap, userdata).1, result),
    {
        match self.reserve(1) {
            Ok(_) => Ok(Value::Userdata(userdata)),
            Err(error) => Err(error),
        }
    }
}

/// Making a string.
pub open spec fn text_placed(heap: Heap, text: Seq<char>) -> (Heap, Result<Val, Failure>) {
    heap.placed(text.len(), Val::Text(text))
}

/// Making data with fields.
pub open spec fn data_placed(heap: Heap, tag: VmTag, fields: Seq<Val>) -> (
    Heap,
    Result<Val, Failure>,
) {
    heap.placed(fields.len(), Val::Data(tag, fields))
}

/// Making an array.
pub open spec fn array_placed(heap: Heap, values: Seq<Val>) -> (Heap, Result<Val, Failure>) {
    heap.placed(values.len(), Val::Array(values))
}

/// Making a function of the host.
pub open spec fn function_placed(heap: Heap, id: Seq<char>, args: VmIndex, function: u64) -> (
    Heap,
    Result<Val, Failure>,
) {
    heap.placed(1, Val::Function(id, args, function))
}

/// Making a value of the host.
pub open spec fn userdata_placed(heap: Heap, userdata: UserdataPtr) -> (
    Heap,
    Result<Val, Failure>,
) {
    heap.placed(1, Val::Userdata(userdata))
}

} // verus!
