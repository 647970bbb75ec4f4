//! Copying values from one heap to another.
use vstd::prelude::*;
use crate::compound;
use crate::compound::Parts;
use crate::machine;
use crate::machine::{Context, Error, Failure, Heap};
use crate::value;
use crate::value::{Val, Value};

verus! {

/// The copy of a value and of everything in it, or why there is none, and the memory afterwards.
/// Values of the host and threads cannot be copied.
pub open spec fn cloned(heap: Heap, val: Val) -> (Heap, Result<Val, Failure>)
    decreases val,
{
    match val {
        Val::Byte(_) => (heap, Ok(val)),
        Val::Int(_) => (heap, Ok(val)),
        Val::Float(_) => (heap, Ok(val)),
        Val::Tag(_) => (heap, Ok(val)),
        Val::Text(text) => machine::text_placed(heap, text),
        Val::Data(tag, fields) => {
            let parts = cloned_list(heap, fields);
            match parts.1 {
                Ok(copies) => machine::data_placed(parts.0, tag, copies),
                Err(failure) => (parts.0, Err(failure)),
            }
        },
        Val::Array(values) => {
            let parts = cloned_list(heap, values);
            match parts.1 {
                Ok(copies) => machine::array_placed(parts.0, copies),
                Err(failure) => (parts.0, Err(failure)),
            }
        },
        Val::Function(id, args, function) => machine::function_placed(heap, id, args, function),
        Val::Closure(_) => heap.placed(1, val),
        Val::PartialApplication(_) => heap.placed(1, val),
        Val::Userdata(_) => (heap, Err(Failure::Message("Userdata cannot be cloned"@))),
        Val::Thread(_) => (heap, Err(Failure::Message("Threads cannot be deep cloned yet"@))),
    }
}

/// The copies of several values.
pub open spec fn cloned_list(heap: Heap, vals: Seq<Val>) -> Parts
    decreases vals,
{
    if vals.len() == 0 {
        compound::no_parts(heap)
    } else {
        let parts = cloned_list(heap, vals.drop_last());
        match parts.1 {
            Ok(copies) => {
                let (after, outcome) = cloned(parts.0, vals.last());
                match outcome {
                    Ok(copy) => (after, Ok(copies.push(copy))),
                    Err(failure) => (after, Err(failure)),
                }
            },
            Err(_) => parts,
        }
    }
}

/// A copy is equal to what it was made of.
pub proof fn law_clones_are_equal(heap: Heap, val: Val)
    ensures
        cloned(heap, val).1 matches Ok(copy) ==> copy == val,
    decreases val,
{
    match val {
        Val::Data(_, fields) => {
            lemma_cloned_lists_are_equal(heap, fields);
        },
        Val::Array(values) => {
            lemma_cloned_lists_are_equal(heap, values);
        },
        _ => {},
    }
}

proof fn lemma_cloned_lists_are_equal(heap: Heap, vals: Seq<Val>)
    ensures
        cloned_list(heap, vals).1 matches Ok(copies) ==> copies == vals,
    decreases vals,
{
    if vals.len() > 0 {
        lemma_cloned_lists_are_equal(heap, vals.drop_last());
        let parts = cloned_list(heap, vals.drop_last());
        law_clones_are_equal(parts.0, vals.last());
        if cloned_list(heap, vals).1 is Ok {
            assert(cloned_list(heap, vals).1->Ok_0 =~= vals);
        }
    }
}

/// Copying takes memory within the limit.
pub proof fn lemma_cloned_memory(heap: Heap, val: Val)
    ensures
        heap.grows_to(cloned(heap, val).0),
    decreases val,
{
    match val {
        Val::Data(_, fields) => {
            lemma_cloned_list_memory(heap, fields);
        },
        Val::Array(values) => {
            lemma_cloned_list_memory(heap, values);
        },
        _ => {},
    }
}

proof fn lemma_cloned_list_memory(heap: Heap, vals: Seq<Val>)
    ensures
        heap.grows_to(cloned_list(heap, vals).0),
    decreases vals,
{
    if vals.len() > 0 {
        lemma_cloned_list_memory(heap, vals.drop_last());
        lemma_cloned_memory(cloned_list(heap, vals.drop_last()).0, vals.last());
    }
}

/// What failed once stays failed.
proof fn lemma_failed_early(heap: Heap, vals: Seq<Val>, n: int)
    requires
        0 <= n <= vals.len(),
        cloned_list(heap, vals.take(n)).1 is Err,
    ensures
        cloned_list(heap, vals) == cloned_list(heap, vals.take(n)),
    decreases vals.len(),
{
    if n < vals.len() {
        assert(vals.drop_last().take(n) =~= vals.take(n));
        lemma_failed_early(heap, vals.drop_last(), n);
    } else {
        assert(vals.take(n) =~= vals);
    }
}

impl Context {
    /// Copies a value and everything in it.
    pub fn deep_clone(&mut self, value: &Value) -> (result: Result<Value, Error>)
        ensures
            final(self)@ == old(self)@.with_heap(cloned(old(self)@.heap, value.model()).0),
            machine::yields(cloned(old(self)@.heap, value.model()).1, result),
        decreases value,
    {
        match value {
            Value::Byte(b) => Ok(Value::Byte(*b)),
            Value::Int(i) => Ok(Value::Int(*i)),
            Value::Float(bits) => Ok(Value::Float(*bits)),
            Value::Tag(tag) => Ok(Value::Tag(*tag)),
            Value::String(s) => {
                let text: &String = s;
                self.alloc_string(text.clone())
            },
            Value::Data(data) => {
                proof {
                    value::lemma_data_model(*value);
                }
                match self.deep_clone_all(&data.fields) {
                    Ok(copies) => self.alloc_data(data.tag, copies),
                    Err(error) => Err(error),
                }
            },
            Value::Array(array) => {
                proof {
                    value::lemma_array_model(*value);
                }
                match self.deep_clone_all(&array.values) {
                    Ok(copies) => self.alloc_array(copies),
                    Err(error) => Err(error),
                }
            },
            Value::Function(function) => self.alloc_function(
                function.id.clone(),
                function.args,
                function.function,
            ),
            Value::Closure(handle) => match self.reserve(1) {
                Ok(_) => Ok(Value::Closure(*handle)),
                Err(error) => Err(error),
            },
            Value::PartialApplication(handle) => match self.reserve(1) {
                Ok(_) => Ok(Value::PartialApplication(*handle)),
                Err(error) => Err(error),
            },
            Value::Userdata(_) => Err(Error::Message("Userdata cannot be cloned".to_owned())),
            Value::Thread(_) => Err(Error::Message("Threads cannot be deep cloned yet".to_owned())),
        }
    }

    /// Copies several values.
    fn deep_clone_all(&mut self, values: &Vec<Value>) -> (result: Result<Vec<Value>, Error>)
        ensures
            final(self)@ == old(self)@.with_heap(
                cloned_list(old(self)@.heap, value::models_of(values@)).0,
            ),
            match (cloned_list(old(self)@.heap, value::models_of(values@)).1, result) {
                (Ok(vals), Ok(copies)) => value::models_of(copies@) == vals,
                (Err(failure), Err(error)) => error.model() == failure,
                _ => false,
            },
        decreases values,
    {
        let ghost vals = value::models_of(values@);
        let ghost heap = self@.heap;
        let mut copies: Vec<Value> = Vec::new();
        let mut i: usize = 0;
        assert(vals.take(0) =~= Seq::empty());
        assert(value::models_of(copies@) =~= Seq::empty());
        while i < values.len()
            invariant
                i <= values@.len(),
                vals == value::models_of(values@),
                heap == old(self)@.heap,
                cloned_list(heap, vals.take(i as int)).1 is Ok,
                value::models_of(copies@) == cloned_list(heap, vals.take(i as int)).1->Ok_0,
                self@ == old(self)@.with_heap(cloned_list(heap, vals.take(i as int)).0),
                forall|k: int| 0 <= k < values@.len() ==> decreases_to!(values => #[trigger] values@[k]),
            decreases values@.len() - i,
        {
            proof {
                assert(vals.take(i + 1).drop_last() =~= vals.take(i as int));
                assert(vals.take(i + 1).last() == values@[i as int].model());
            }
            match self.deep_clone(&values[i]) {
                Ok(copy) => {
                    let ghost before = copies@;
                    copies.push(copy);
                    assert(value::models_of(copies@) =~= value::models_of(before).push(
                        copy.model(),
                    ));
                },
                Err(error) => {
                    proof {
                        lemma_failed_early(heap, vals, i + 1);
                    }
                    return Err(error);
                },
            }
            i = i + 1;
        }
        assert(vals.take(i as int) =~= vals);
        Ok(copies)
    }
}

} // verus!
