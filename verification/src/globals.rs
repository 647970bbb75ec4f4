//! The values that every module can refer to.
use vstd::prelude::*;
use crate::api::{Pushable, VmType};
use crate::machine::{Context, Error, Failure, Heap};
use crate::term::Term;
use crate::text::same_text;
use crate::thread::{RootedThread, Thread};
use crate::type_cache;
use crate::types::{Op, Type};
use crate::value::{Val, Value, VmIndex};

verus! {

/// A value that every module can refer to.
#[derive(Debug)]
pub struct Global {
    pub name: String,
    pub typ: Type,
    pub value: Value,
}

/// The model of a [`Global`].
pub struct GlobalModel {
    pub name: Seq<char>,
    pub typ: Term<Op>,
    pub value: Val,
}

impl Global {
    pub open spec fn model(self) -> GlobalModel {
        GlobalModel { name: self.name@, typ: self.typ.model(), value: self.value.model() }
    }
}

/// All the globals, in the order in which they were defined.
#[derive(Debug)]
pub struct Globals {
    pub entries: Vec<Global>,
}

impl View for Globals {
    type V = Seq<GlobalModel>;

    open spec fn view(&self) -> Seq<GlobalModel> {
        Seq::new(self.entries@.len(), |i: int| self.entries@[i].model())
    }
}

/// There is a global of that name.
pub open spec fn defines(globals: Seq<GlobalModel>, name: Seq<char>) -> bool {
    exists|i: int| 0 <= i < globals.len() && (#[trigger] globals[i]).name == name
}

/// What defining globals one after the other has led to: where one failed, why.
pub struct Definitions {
    pub globals: Seq<GlobalModel>,
    pub heap: Heap,
    pub failure: Option<Failure>,
}

/// One more global, unless there was a failure before.
pub open spec fn defined<'vm, T: Pushable<'vm> + VmType>(
    before: Definitions,
    vm: &Thread,
    name: Seq<char>,
    value: T,
) -> Definitions {
    if before.failure is Some {
        before
    } else if defines(before.globals, name) {
        Definitions { failure: Some(Failure::GlobalAlreadyExists(name)), ..before }
    } else {
        let (heap, outcome) = value.pushed(vm, before.heap);
        match outcome {
            Ok(val) => Definitions {
                globals: before.globals.push(
                    GlobalModel { name, typ: type_cache::forall_type(T::typ(vm)), value: val },
                ),
                heap,
                failure: None,
            },
            Err(failure) => Definitions { heap, failure: Some(failure), ..before },
        }
    }
}

/// The result is the one that the definitions call for.
pub open spec fn reports(definitions: Definitions, result: Result<(), Error>) -> bool {
    match (definitions.failure, result) {
        (None, Ok(_)) => true,
        (Some(failure), Err(error)) => error.model() == failure,
        _ => false,
    }
}

impl Globals {
    pub fn new() -> (globals: Globals)
        ensures
            globals@ == Seq::<GlobalModel>::empty(),
    {
        let globals = Globals { entries: Vec::new() };
        assert(globals@ =~= Seq::empty());
        globals
    }

    /// What has been defined so far, without a failure.
    pub open spec fn definitions(&self, heap: Heap) -> Definitions {
        Definitions { globals: self@, heap, failure: None }
    }

    /// Whether there is a global of that name.
    pub fn global_exists(&self, name: &str) -> (found: bool)
        ensures
            found == defines(self@, name@),
    {
        let mut i: usize = 0;
        while i < self.entries.len()
            invariant
                i <= self.entries@.len(),
                forall|k: int| 0 <= k < i ==> (#[trigger] self@[k]).name != name@,
            decreases self.entries@.len() - i,
        {
            if same_text(self.entries[i].name.as_str(), name) {
                assert(self@[i as int].name == name@);
                return true;
            }
            i = i + 1;
        }
        false
    }

    /// Sets a global that may be there already, which the new one then hides. `setting` says
    /// whether the environment takes it; an error is handed on, and nothing is set then.
    pub fn set_global<E>(
        &mut self,
        name: String,
        typ: Type,
        value: Value,
        setting: Result<(), E>,
    ) -> (result: Result<(), E>)
        ensures
            result == setting,
            final(self)@ == (if setting is Ok {
                old(self)@.push(
                    GlobalModel { name: name@, typ: typ.model(), value: value.model() },
                )
            } else {
                old(self)@
            }),
    {
        if setting.is_ok() {
            self.add(name, typ, value);
        }
        setting
    }

    /// One more global, which hides those that have its name.
    fn add(&mut self, name: String, typ: Type, value: Value)
        ensures
            final(self)@ == old(self)@.push(
                GlobalModel { name: name@, typ: typ.model(), value: value.model() },
            ),
    {
        self.entries.push(Global { name, typ, value });
        assert(self@ =~= old(self)@.push(
            GlobalModel { name: name@, typ: typ.model(), value: value.model() },
        ));
    }

    /// Defines a global.
    pub fn define_global<'vm, T: Pushable<'vm> + VmType>(
        &mut self,
        vm: &'vm Thread,
        context: &mut Context,
        name: &str,
        value: T,
    ) -> (result: Result<(), Error>)
        requires
            vm.wf(),
            T::typable(vm),
        ensures
            ({
                let after = defined(
                    old(self).definitions(old(context)@.heap),
                    vm,
                    name@,
                    value,
                );
                &&& final(self)@ == after.globals
                &&& final(context)@ == old(context)@.with_heap(after.heap)
                &&& reports(after, result)
            }),
    {
        if self.global_exists(name) {
            return Err(Error::GlobalAlreadyExists(name.to_owned()));
        }
        match value.push(vm, context) {
            Ok(_) => {
                let val = context.pop_value();
                assert(context@.stack =~= old(context)@.stack);
                self.add(name.to_owned(), T::make_forall_type(vm), val);
                Ok(())
            },
            Err(error) => Err(error),
        }
    }
}

impl VmType for Thread {
    open spec fn typable(vm: &Thread) -> bool {
        vm.known_type("Thread"@) is Some
    }

    open spec fn typ(vm: &Thread) -> Term<Op> {
        vm.known_type("Thread"@).unwrap()
    }

    open spec fn extra() -> u8 {
        0
    }

    fn make_type(vm: &Thread) -> (typ: Type) {
        vm.get_type("Thread")
    }

    fn extra_args() -> (count: VmIndex) {
        0
    }
}

impl VmType for RootedThread {
    open spec fn typable(vm: &Thread) -> bool {
        Thread::typable(vm)
    }

    open spec fn typ(vm: &Thread) -> Term<Op> {
        Thread::typ(vm)
    }

    open spec fn extra() -> u8 {
        0
    }

    fn make_type(vm: &Thread) -> (typ: Type) {
        Thread::make_type(vm)
    }

    fn extra_args() -> (count: VmIndex) {
        0
    }
}

impl<'vm> Pushable<'vm> for RootedThread {
    open spec fn pushed(self, vm: &Thread, heap: Heap) -> (Heap, Result<Val, Failure>) {
        (heap, Ok(Val::Thread(self.id)))
    }

    proof fn law_memory_is_bounded(self, vm: &Thread, heap: Heap) {
    }

    fn push(self, vm: &'vm Thread, context: &mut Context) -> (result: Result<(), Error>) {
        context.push_value(Value::Thread(self.id));
        Ok(())
    }
}

} // verus!
