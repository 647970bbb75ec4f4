//! Records: lists of named fields of different types.
use vstd::prelude::*;
use crate::api::{Getable, Marshalled, Pushable, VmType};
use crate::compound;
use crate::compound::{pack_parts, Parts};
use crate::machine::{Context, Error, Failure, Heap};
use crate::term::Term;
use crate::thread::Thread;
use crate::type_cache;
use crate::type_cache::TypeField;
use crate::types::{Op, Type};
use crate::value;
use crate::value::{Val, Value, VmIndex};
use crate::value_ref::Variants;
use frunk_core::hlist::{HCons, HNil};
use vstd::slice::slice_subrange;

verus! {

/// `frunk_core::hlist::HNil`: the list without elements.
#[verifier::external_type_specification]
pub struct ExHNil(HNil);

/// `frunk_core::hlist::HCons`: an element in front of a list.
#[verifier::external_type_specification]
#[verifier::reject_recursive_types(Head)]
#[verifier::reject_recursive_types(Tail)]
pub struct ExHCons<Head, Tail>(HCons<Head, Tail>);

/// A record of the host: a list of fields, each with its name.
#[derive(Debug)]
pub struct Record<T> {
    pub fields: T,
}

/// Trait for the types that stand for the name of a field.
pub trait Field: Default {
    /// The name.
    spec fn label() -> Seq<char>;

    fn name() -> (name: &'static str)
        ensures
            name@ == Self::label(),
    ;
}

/// Trait for lists of fields whose types are known.
pub trait FieldTypes {
    /// The thread knows the names that the types are made of.
    spec fn typable(vm: &Thread) -> bool;

    /// The names of the fields.
    spec fn names() -> Seq<Seq<char>>;

    /// The types of the fields.
    spec fn typs(vm: &Thread) -> Seq<Term<Op>>;

    /// Adds the names and the types of the fields to `fields`.
    fn field_types(vm: &Thread, fields: &mut Vec<TypeField>)
        requires
            vm.wf(),
            Self::typable(vm),
        ensures
            type_cache::field_names(final(fields)@) == type_cache::field_names(old(fields)@)
                + Self::names(),
            type_cache::field_types(final(fields)@) == type_cache::field_types(old(fields)@)
                + Self::typs(vm),
    ;
}

/// Trait for lists of fields that can be pushed.
pub trait PushableFieldList<'vm>: Sized {
    /// The values of the fields, or why they could not be pushed, and the memory afterwards.
    spec fn all_pushed(self, vm: &Thread, heap: Heap) -> Parts;

    /// Pushing takes memory within the limit, and gives none back.
    proof fn law_memory_is_bounded(self, vm: &Thread, heap: Heap)
        ensures
            heap.grows_to(self.all_pushed(vm, heap).0),
    ;

    /// Pushes the fields, the first one first. The stack is left intact where one of them fails.
    fn push(self, vm: &'vm Thread, fields: &mut Context) -> (result: Result<(), Error>)
        ensures
            final(fields)@ == compound::holding(
                old(fields)@,
                self.all_pushed(vm, old(fields)@.heap),
            ),
            match result {
                Ok(_) => self.all_pushed(vm, old(fields)@.heap).1 is Ok,
                Err(error) => self.all_pushed(vm, old(fields)@.heap).1 == Err::<
                    Seq<Val>,
                    Failure,
                >(error.model()),
            },
    ;
}

/// Trait for lists of fields that can be retrieved.
pub trait GetableFieldList<'vm>: Sized {
    /// What the host sees of the fields.
    type Image;

    spec fn image(self) -> Self::Image;

    /// What the fields hold of a thread, if anything, is this thread.
    open spec fn of_thread(self, vm: &Thread) -> bool {
        true
    }

    /// The values have the shape that is taken for granted.
    spec fn gettable(values: Seq<Val>) -> bool;

    /// What the values are for the host.
    spec fn got(values: Seq<Val>) -> Option<Self::Image>;

    fn from_value(vm: &'vm Thread, values: &'vm [Value]) -> (found: Option<Self>)
        requires
            Self::gettable(value::models_of(values@)),
        ensures
            match found {
                Some(fields) => Self::got(value::models_of(values@)) == Some(fields.image())
                    && fields.of_thread(vm),
                None => Self::got(value::models_of(values@)) is None,
            },
    ;
}

/// Trait for lists of fields that the virtual machine gives back as it got them.
pub trait MarshalledFieldList<'vm>: PushableFieldList<'vm> + GetableFieldList<'vm> {
    /// Fields that were pushed are read back as they were.
    proof fn law_read_back(self, vm: &Thread, heap: Heap)
        ensures
            self.all_pushed(vm, heap).1 matches Ok(values) ==> Self::gettable(values) && Self::got(
                values,
            ) == Some(self.image()),
    ;
}

impl FieldTypes for HNil {
    open spec fn typable(vm: &Thread) -> bool {
        true
    }

    open spec fn names() -> Seq<Seq<char>> {
        Seq::empty()
    }

    open spec fn typs(vm: &Thread) -> Seq<Term<Op>> {
        Seq::empty()
    }

    fn field_types(vm: &Thread, fields: &mut Vec<TypeField>) {
        assert(type_cache::field_names(fields@) =~= type_cache::field_names(old(fields)@)
            + Self::names());
        assert(type_cache::field_types(fields@) =~= type_cache::field_types(old(fields)@)
            + Self::typs(vm));
    }
}

impl<N: Field, V: VmType, Rest: FieldTypes> FieldTypes for HCons<(N, V), Rest> {
    open spec fn typable(vm: &Thread) -> bool {
        V::typable(vm) && Rest::typable(vm)
    }

    open spec fn names() -> Seq<Seq<char>> {
        seq![N::label()] + Rest::names()
    }

    open spec fn typs(vm: &Thread) -> Seq<Term<Op>> {
        seq![type_cache::forall_type(V::typ(vm))] + Rest::typs(vm)
    }

    fn field_types(vm: &Thread, fields: &mut Vec<TypeField>) {
        fields.push(TypeField { name: N::name().to_owned(), typ: V::make_forall_type(vm) });
        proof {
            assert(type_cache::field_names(fields@) =~= type_cache::field_names(old(fields)@)
                + seq![N::label()]);
            assert(type_cache::field_types(fields@) =~= type_cache::field_types(old(fields)@)
                + seq![type_cache::forall_type(V::typ(vm))]);
        }
        Rest::field_types(vm, fields);
        proof {
            assert(type_cache::field_names(fields@) =~= type_cache::field_names(old(fields)@)
                + Self::names());
            assert(type_cache::field_types(fields@) =~= type_cache::field_types(old(fields)@)
                + Self::typs(vm));
        }
    }
}

impl<'vm> PushableFieldList<'vm> for HNil {
    open spec fn all_pushed(self, vm: &Thread, heap: Heap) -> Parts {
        compound::no_parts(heap)
    }

    proof fn law_memory_is_bounded(self, vm: &Thread, heap: Heap) {
    }

    fn push(self, vm: &'vm Thread, fields: &mut Context) -> (result: Result<(), Error>) {
        assert(fields@.stack =~= fields@.stack + Seq::<Val>::empty());
        Ok(())
    }
}

impl<'vm, N: Field, V: Pushable<'vm>, Rest: PushableFieldList<'vm>> PushableFieldList<
    'vm,
> for HCons<(N, V), Rest> {
    open spec fn all_pushed(self, vm: &Thread, heap: Heap) -> Parts {
        let (after, outcome) = self.head.1.pushed(vm, heap);
        match outcome {
            Ok(value) => {
                let rest = self.tail.all_pushed(vm, after);
                match rest.1 {
                    Ok(values) => (rest.0, Ok(seq![value] + values)),
                    Err(failure) => (rest.0, Err(failure)),
                }
            },
            Err(failure) => (after, Err(failure)),
        }
    }

    proof fn law_memory_is_bounded(self, vm: &Thread, heap: Heap) {
        self.head.1.law_memory_is_bounded(vm, heap);
        let (after, outcome) = self.head.1.pushed(vm, heap);
        self.tail.law_memory_is_bounded(vm, after);
    }

    fn push(self, vm: &'vm Thread, fields: &mut Context) -> (result: Result<(), Error>) {
        let base: usize = fields.stack.len();
        let HCons { head, tail } = self;
        match head.1.push(vm, fields) {
            Ok(_) => {},
            Err(error) => {
                return Err(error);
            },
        }
        let ghost before = old(fields)@;
        let ghost (after, outcome) = head.1.pushed(vm, before.heap);
        match tail.push(vm, fields) {
            Ok(_) => {
                proof {
                    let rest = tail.all_pushed(vm, after);
                    assert(fields@.stack =~= before.stack + (seq![outcome->Ok_0] + rest.1->Ok_0));
                }
                Ok(())
            },
            Err(error) => {
                fields.truncate(base);
                assert(fields@.stack =~= before.stack);
                Err(error)
            },
        }
    }
}

impl<'vm> GetableFieldList<'vm> for HNil {
    type Image = ();

    open spec fn image(self) -> () {
        ()
    }

    open spec fn gettable(values: Seq<Val>) -> bool {
        values.len() == 0
    }

    open spec fn got(values: Seq<Val>) -> Option<()> {
        Some(())
    }

    fn from_value(vm: &'vm Thread, values: &'vm [Value]) -> (found: Option<HNil>) {
        Some(HNil)
    }
}

impl<'vm, N: Field, V: Getable<'vm>, Rest: GetableFieldList<'vm>> GetableFieldList<'vm> for HCons<
    (N, V),
    Rest,
> {
    type Image = (V::Image, Rest::Image);

    open spec fn image(self) -> (V::Image, Rest::Image) {
        (self.head.1.image(), self.tail.image())
    }

    open spec fn of_thread(self, vm: &Thread) -> bool {
        self.head.1.of_thread(vm) && self.tail.of_thread(vm)
    }

    open spec fn gettable(values: Seq<Val>) -> bool {
        &&& values.len() > 0
        &&& V::gettable(values[0])
        &&& V::got(values[0]) is Some ==> Rest::gettable(values.drop_first())
    }

    open spec fn got(values: Seq<Val>) -> Option<(V::Image, Rest::Image)> {
        match V::got(values[0]) {
            Some(head) => match Rest::got(values.drop_first()) {
                Some(tail) => Some((head, tail)),
                None => None,
            },
            None => None,
        }
    }

    fn from_value(vm: &'vm Thread, values: &'vm [Value]) -> (found: Option<HCons<(N, V), Rest>>) {
        match V::from_value(vm, Variants::new(&values[0])) {
            Some(head) => {
                let rest = slice_subrange(values, 1, values.len());
                assert(value::models_of(rest@) =~= value::models_of(values@).drop_first());
                match Rest::from_value(vm, rest) {
                    Some(tail) => Some(HCons { head: (N::default(), head), tail }),
                    None => None,
                }
            },
            None => None,
        }
    }
}

impl<'vm> MarshalledFieldList<'vm> for HNil {
    proof fn law_read_back(self, vm: &Thread, heap: Heap) {
    }
}

impl<'vm, N: Field, V: Marshalled<'vm>, Rest: MarshalledFieldList<'vm>> MarshalledFieldList<
    'vm,
> for HCons<(N, V), Rest> {
    proof fn law_read_back(self, vm: &Thread, heap: Heap) {
        let (after, outcome) = self.head.1.pushed(vm, heap);
        self.head.1.law_read_back(vm, heap);
        self.tail.law_read_back(vm, after);
        if let Ok(values) = self.all_pushed(vm, heap).1 {
            assert(values.drop_first() =~= self.tail.all_pushed(vm, after).1->Ok_0);
        }
    }
}

impl<T: FieldTypes> VmType for Record<T> {
    open spec fn typable(vm: &Thread) -> bool {
        T::typable(vm)
    }

    open spec fn typ(vm: &Thread) -> Term<Op> {
        type_cache::record_type(T::names(), T::typs(vm))
    }

    open spec fn extra() -> u8 {
        0
    }

    fn make_type(vm: &Thread) -> (typ: Type) {
        let mut fields: Vec<TypeField> = Vec::new();
        assert(type_cache::field_names(fields@) =~= Seq::empty());
        assert(type_cache::field_types(fields@) =~= Seq::empty());
        T::field_types(vm, &mut fields);
        assert(type_cache::field_names(fields@) =~= T::names());
        assert(type_cache::field_types(fields@) =~= T::typs(vm));
        Type::record(fields)
    }

    fn extra_args() -> (count: VmIndex) {
        0
    }
}

impl<'vm, T: PushableFieldList<'vm>> Pushable<'vm> for Record<T> {
    open spec fn pushed(self, vm: &Thread, heap: Heap) -> (Heap, Result<Val, Failure>) {
        compound::packed(self.fields.all_pushed(vm, heap), 0)
    }

    proof fn law_memory_is_bounded(self, vm: &Thread, heap: Heap) {
        self.fields.law_memory_is_bounded(vm, heap);
    }

    fn push(self, vm: &'vm Thread, context: &mut Context) -> (result: Result<(), Error>) {
        let base: usize = context.stack.len();
        let ghost before = context@;
        let ghost parts = self.fields.all_pushed(vm, before.heap);
        match self.fields.push(vm, context) {
            Ok(_) => {},
            Err(error) => {
                return Err(error);
            },
        }
        pack_parts(context, base, 0, Ghost(before), Ghost(parts))
    }
}

impl<'vm, T: GetableFieldList<'vm>> Getable<'vm> for Record<T> {
    type Image = T::Image;

    open spec fn image(self) -> T::Image {
        self.fields.image()
    }

    open spec fn of_thread(self, vm: &Thread) -> bool {
        self.fields.of_thread(vm)
    }

    open spec fn gettable(value: Val) -> bool {
        match value {
            Val::Data(_, fields) => T::gettable(fields),
            _ => true,
        }
    }

    open spec fn got(value: Val) -> Option<T::Image> {
        match value {
            Val::Data(_, fields) => T::got(fields),
            _ => None,
        }
    }

    open spec fn got_rooted(value: Val) -> Option<T::Image> {
        Self::got(value)
    }

    fn from_value_unsafe(vm: &'vm Thread, value: Variants<'vm>) -> (found: Option<Record<T>>) {
        Self::from_value(vm, value)
    }

    fn from_value(vm: &'vm Thread, value: Variants<'vm>) -> (found: Option<Record<T>>) {
        match value.0 {
            Value::Data(data) => {
                proof {
                    value::lemma_data_model(*value.0);
                }
                match T::from_value(vm, data.fields.as_slice()) {
                    Some(fields) => Some(Record { fields }),
                    None => None,
                }
            },
            _ => None,
        }
    }
}

impl<'vm, T: MarshalledFieldList<'vm>> Marshalled<'vm> for Record<T> {
    proof fn law_read_back(self, vm: &Thread, heap: Heap) {
        self.fields.law_read_back(vm, heap);
    }
}

} // verus!
