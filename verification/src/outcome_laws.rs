//! What results tell of what has happened.
use vstd::prelude::*;
use crate::api;
use crate::api::VmType;
use crate::call_laws;
use crate::channel;
use crate::channel::{
    ChannelType, Primitives, RecvType, ResumeType, SendType, SpawnType, YieldType,
};
use crate::constraints;
use crate::constraints::Outcome;
use crate::function;
use crate::function::{FunctionType, HostFunction, Progress, VmFunction};
use crate::globals;
use crate::globals::{Definitions, Globals};
use crate::machine;
use crate::machine::{Callable, Context, Error, Failure, Frame, Machine, State, Status};
use crate::opaque::Generic;
use crate::rewrite;
use crate::roles::RuntimeResult;
use crate::substitution;
use crate::substitution::Substitutable;
use crate::symbol::{Symbol, SymbolModel};
use crate::term::Term;
use crate::text;
use crate::text::Show;
use crate::thread::Thread;
use crate::thread_laws;
use crate::type_cache;
use crate::type_cache::TypeField;
use crate::types;
use crate::types::{Op, Type};
use crate::value;
use crate::value::{Val, Value};
use crate::value_ref;
use crate::value_ref::{Data, ValueRef};
use futures::Async;
use vstd::std_specs::convert::FromSpec;

verus! {

/// A push reports success if and only if there is a value, and else the failure itself.
pub proof fn law_pushes_report_their_outcome(
    outcome: Result<Val, Failure>,
    result: Result<(), Error>,
)
    ensures
        machine::agrees(outcome, result) <==> match outcome {
            Ok(_) => result is Ok,
            Err(failure) => result matches Err(error) && error.model() == failure,
        },
{
}

/// What gives a value gives the one that there is, or else the failure itself.
pub proof fn law_values_report_their_outcome(
    outcome: Result<Val, Failure>,
    result: Result<Value, Error>,
)
    ensures
        machine::yields(outcome, result) <==> match outcome {
            Ok(val) => result matches Ok(value) && value.model() == val,
            Err(failure) => result matches Err(error) && error.model() == failure,
        },
{
}

/// A push that may have to wait reports whether the value is there, or else the failure itself.
pub proof fn law_waiting_pushes_report_their_outcome(
    outcome: Result<bool, Failure>,
    result: Result<Async<()>, Error>,
)
    ensures
        api::async_agrees(outcome, result) <==> match outcome {
            Ok(ready) => result matches Ok(found) && (found is Ready <==> ready),
            Err(failure) => result matches Err(error) && error.model() == failure,
        },
{
}

/// Several pushes, and several definitions, report success if and only if none has failed, and else
/// the failure itself.
pub proof fn law_sequences_report_their_failure(
    progress: Progress,
    definitions: Definitions,
    result: Result<(), Error>,
)
    ensures
        function::reports(progress, result) <==> match progress.failure {
            None => result is Ok,
            Some(failure) => result matches Err(error) && error.model() == failure,
        },
        globals::reports(definitions, result) <==> match definitions.failure {
            None => result is Ok,
            Some(failure) => result matches Err(error) && error.model() == failure,
        },
{
}

/// What became of a union is told apart by its kind and by the types that it names.
pub proof fn law_outcomes_of_unions<T: Substitutable>(
    result: Result<Option<T>, substitution::Error<T>>,
)
    ensures
        match constraints::outcome_of(result) {
            Outcome::Same(None) => result matches Ok(None),
            Outcome::Same(Some(t)) => result matches Ok(Some(typ)) && typ.term() == t,
            Outcome::Occurs(v, t) => result matches Err(substitution::Error::Occurs(var, typ))
                && var.term() == v && typ.term() == t,
            Outcome::Constraint(t, list) => result matches Err(
                substitution::Error::Constraint(typ, candidates),
            ) && typ.term() == t && candidates@.len() == list.len() && forall|i: int|
                0 <= i < list.len() ==> (#[trigger] candidates@[i]).term() == list[i],
        },
{
}

/// A result of the host becomes a value that is returned, or a panic.
pub proof fn law_results_become_returns_or_panics<T, E>(ok: T, err: E)
    ensures
        <RuntimeResult<T, E> as FromSpec<Result<T, E>>>::from_spec(Ok(ok))
            == RuntimeResult::<T, E>::Return(ok),
        <RuntimeResult<T, E> as FromSpec<Result<T, E>>>::from_spec(Err(err))
            == RuntimeResult::<T, E>::Panic(err),
{
}

/// A value becomes a generic value that holds it.
pub proof fn law_values_become_generic<T>(v: Value)
    ensures
        <Generic<T> as FromSpec<Value>>::from_spec(v).0 == v,
{
}

/// The host function takes what the arguments on the stack are, and what it returns is pushed:
/// where a function gives just one result for an argument, the call ends with that one.
pub proof fn law_host_functions_push_their_result<F>(
    host: HostFunction<F, (i64,), i64>,
    result_of: spec_fn(i64) -> i64,
    vm: &Thread,
    x: i64,
    before: Machine,
    after: Machine,
    status: Status,
) where F: Fn((i64,)) -> i64
    requires
        forall|arg: (i64,), result: i64| #[trigger]
            call_ensures(host.function, (arg,), result) ==> result == result_of(arg.0),
        host.may_end(vm, seq![Val::Int(x)], before, after, status),
    ensures
        status == Status::Success,
        after == call_laws::grown(before, seq![Val::Int(result_of(x))], before.heap),
{
    let (taken, result) = choose|taken: (i64,), result: i64|
        {
            &&& #[trigger] function::GetableArguments::taken_from(taken, seq![Val::Int(x)])
            &&& function::GetableArguments::of_thread(taken, vm)
            &&& #[trigger] call_ensures(host.function, (taken,), result)
            &&& (after, status) == api::status_pushed(
                api::AsyncPushable::async_pushed(result, vm, before),
            )
        };
    assert(seq![Val::Int(x)][0] == Val::Int(x));
    assert(taken.0 == x);
    call_laws::law_failures_leave_their_message(result, vm, before);
}

/// The types of channels are registered under their names, with one parameter, where there were
/// none of these names.
pub proof fn law_channel_types_are_registered(before: &Thread, after: &Thread)
    requires
        before.wf(),
        channel::channel_types_ensured(before, after),
        before.type_info("Sender"@) is None,
        before.type_info("Receiver"@) is None,
        before.known_type("Sender<A>"@) is None,
        before.known_type("Receiver<A>"@) is None,
    ensures
        ({
            let sender = SymbolModel { id: before.symbols, name: "Sender"@ };
            let receiver = SymbolModel { id: (before.symbols + 1) as u64, name: "Receiver"@ };
            let a = before.generic('a');
            &&& after.known_type("Sender<A>"@) == Some(
                Term::Node(Op::App, seq![Term::Node(Op::Ident(sender), Seq::empty()), a]),
            )
            &&& after.known_type("Receiver<A>"@) == Some(
                Term::Node(Op::App, seq![Term::Node(Op::Ident(receiver), Seq::empty()), a]),
            )
            &&& after.type_info("Sender"@) matches Some(found) && found.alias.name.model() == sender
            &&& after.type_info("Receiver"@) matches Some(found) && found.alias.name.model()
                == receiver
        }),
{
    reveal_strlit("Sender");
    reveal_strlit("Receiver");
    reveal_strlit("Sender<A>");
    reveal_strlit("Receiver<A>");
    assert("Sender"@[0] != "Receiver"@[0]);
    assert("Sender<A>"@[0] != "Receiver<A>"@[0]);
    let between = choose|between: Thread|
        {
            &&& #[trigger] channel::type_ensured(before, &between, "Sender<A>"@, "Sender"@)
            &&& channel::type_ensured(&between, after, "Receiver<A>"@, "Receiver"@)
        };
    let letters = seq!['a'];
    crate::thread::law_registering_keeps_other_types(
        before,
        &between,
        "Sender<A>"@,
        "Sender"@,
        letters,
    );
    thread_laws::law_registered_types_are_known(
        before,
        &between,
        "Sender<A>"@,
        "Sender"@,
        letters,
    );
    assert(between.type_info("Receiver"@) is None);
    assert(between.known_type("Receiver<A>"@) is None);
    assert(between.type_info("Sender"@) is Some);
    lemma_registering_keeps_wf(before, &between);
    crate::thread::law_registering_keeps_other_types(
        &between,
        after,
        "Receiver<A>"@,
        "Receiver"@,
        letters,
    );
    thread_laws::law_registered_types_are_known(
        &between,
        after,
        "Receiver<A>"@,
        "Receiver"@,
        letters,
    );
    let args = Seq::new(letters.len(), |i: int| before.generic(letters[i]));
    let again = Seq::new(letters.len(), |i: int| between.generic(letters[i]));
    assert(args =~= seq![before.generic('a')]);
    assert(again =~= seq![before.generic('a')]);
    let sender = Term::Node(
        Op::Ident(SymbolModel { id: before.symbols, name: "Sender"@ }),
        Seq::<Term<Op>>::empty(),
    );
    let receiver = Term::Node(
        Op::Ident(SymbolModel { id: between.symbols, name: "Receiver"@ }),
        Seq::<Term<Op>>::empty(),
    );
    assert(seq![sender] + args =~= seq![sender, before.generic('a')]);
    assert(seq![receiver] + again =~= seq![receiver, before.generic('a')]);
}

/// Types of these names that were there already stay, and the thread with them.
pub proof fn law_existing_types_stay(before: &Thread, after: &Thread)
    requires
        channel::channel_types_ensured(before, after),
        before.type_info("Sender"@) is Some,
        before.type_info("Receiver"@) is Some,
    ensures
        *after == *before,
{
}

/// Registering a type keeps a thread well formed.
proof fn lemma_registering_keeps_wf(before: &Thread, after: &Thread)
    requires
        before.wf(),
        crate::thread::type_registered(before, after, "Sender<A>"@, "Sender"@, seq!['a']),
    ensures
        after.wf(),
{
    assert forall|i: int| 0 <= i < after.aliases@.len() implies (
    #[trigger] after.aliases@[i]).alias.name.id < after.symbols by {
        if i < before.aliases@.len() {
            assert(after.aliases@.drop_last()[i] == after.aliases@[i]);
            assert(before.aliases@[i].alias.name.id < before.symbols);
        }
    }
    assert forall|i: int| 0 <= i < crate::thread::LETTERS implies (
    #[trigger] after.generics@[i]).name@ == seq![crate::thread::letter(i)]
        && after.generics@[i].id < after.symbols by {
        assert(before.generics@[i].id < before.symbols);
    }
}

/// A value that the module for threads and channels defines.
pub open spec fn is_function<F: FunctionType + VmType>(
    global: globals::GlobalModel,
    vm: &Thread,
    name: Seq<char>,
    number: u64,
) -> bool {
    &&& global.name == name
    &&& global.typ == type_cache::forall_type(F::typ(vm))
    &&& global.value == Val::Function(name, F::arity(), number)
}

/// Loading the module for threads and channels defines its six functions, in order, each with its
/// own type, number of arguments and number, where none of the names is taken and there is memory.
pub proof fn law_loading_defines_the_functions(
    primitives: Primitives,
    vm: &Thread,
    globals: Globals,
    globals_after: Globals,
    before: Machine,
    after: Machine,
    result: Result<(), Error>,
)
    requires
        channel::defines_all(primitives, vm, globals, globals_after, before, after, result),
        before.heap.allocated + 6 <= before.heap.limit,
        !globals::defines(globals@, "channel"@),
        !globals::defines(globals@, "recv"@),
        !globals::defines(globals@, "send"@),
        !globals::defines(globals@, "resume"@),
        !globals::defines(globals@, "yield"@),
        !globals::defines(globals@, "spawn"@),
    ensures
        result is Ok,
        after == before.with_heap(after.heap),
        after.heap.allocated == before.heap.allocated + 6,
        after.heap.limit == before.heap.limit,
        globals_after@.len() == globals@.len() + 6,
        globals_after@.take(globals@.len() as int) == globals@,
        ({
            let n = globals@.len() as int;
            &&& is_function::<ChannelType<'_>>(
                globals_after@[n],
                vm,
                "channel"@,
                primitives.channel,
            )
            &&& is_function::<RecvType>(globals_after@[n + 1], vm, "recv"@, primitives.recv)
            &&& is_function::<SendType>(globals_after@[n + 2], vm, "send"@, primitives.send)
            &&& is_function::<ResumeType<'_>>(
                globals_after@[n + 3],
                vm,
                "resume"@,
                primitives.resume,
            )
            &&& is_function::<YieldType>(globals_after@[n + 4], vm, "yield"@, primitives.yield_)
            &&& is_function::<SpawnType<'_>>(
                globals_after@[n + 5],
                vm,
                "spawn"@,
                primitives.spawn,
            )
        }),
{
    reveal_strlit("channel");
    reveal_strlit("recv");
    reveal_strlit("send");
    reveal_strlit("resume");
    reveal_strlit("yield");
    reveal_strlit("spawn");
    let start = globals.definitions(before.heap);
    let (p1, p2, p3, p4, p5, p6) = choose|
        p1: crate::primitive::Primitive<ChannelType<'_>>,
        p2: crate::primitive::Primitive<RecvType>,
        p3: crate::primitive::Primitive<SendType>,
        p4: crate::primitive::Primitive<ResumeType<'_>>,
        p5: crate::primitive::Primitive<YieldType>,
        p6: crate::primitive::Primitive<SpawnType<'_>>,
    |
        {
            let end = #[trigger] channel::all_defined(start, vm, p1, p2, p3, p4, p5, p6);
            &&& channel::is_primitive(p1, "channel"@, primitives.channel)
            &&& channel::is_primitive(p2, "recv"@, primitives.recv)
            &&& channel::is_primitive(p3, "send"@, primitives.send)
            &&& channel::is_primitive(p4, "resume"@, primitives.resume)
            &&& channel::is_primitive(p5, "yield"@, primitives.yield_)
            &&& channel::is_primitive(p6, "spawn"@, primitives.spawn)
            &&& globals_after@ == end.globals
            &&& after == before.with_heap(end.heap)
            &&& globals::reports(end, result)
        };
    channel::law_load_defines_all(start, vm, p1, p2, p3, p4, p5, p6);
    let d1 = globals::defined(start, vm, "channel"@, p1);
    let d2 = globals::defined(d1, vm, "recv"@, p2);
    let d3 = globals::defined(d2, vm, "send"@, p3);
    let d4 = globals::defined(d3, vm, "resume"@, p4);
    let d5 = globals::defined(d4, vm, "yield"@, p5);
    assert(d1.failure is None && d2.failure is None && d3.failure is None && d4.failure is None
        && d5.failure is None);
    crate::primitive::law_other_names_stay("channel"@);
    crate::primitive::law_other_names_stay("recv"@);
    crate::primitive::law_other_names_stay("send"@);
    crate::primitive::law_other_names_stay("resume"@);
    crate::primitive::law_other_names_stay("yield"@);
    crate::primitive::law_other_names_stay("spawn"@);
}

/// Lists are seen in models as they are: as long, and in order.
pub proof fn law_lists_keep_their_order<T: Substitutable>(
    texts: Seq<String>,
    symbols: Seq<Symbol>,
    typs: Seq<Type>,
    values: Seq<Value>,
    rules: Seq<(rewrite::Leaf, Type)>,
    terms: Seq<T>,
    frames: Seq<Frame>,
    i: int,
)
    ensures
        text::texts_of(texts).len() == texts.len(),
        0 <= i < texts.len() ==> text::texts_of(texts)[i] == texts[i]@,
        types::symbols_of(symbols).len() == symbols.len(),
        0 <= i < symbols.len() ==> types::symbols_of(symbols)[i] == (SymbolModel {
            id: symbols[i].id,
            name: symbols[i].name@,
        }),
        types::models_of(typs).len() == typs.len(),
        0 <= i < typs.len() ==> types::models_of(typs)[i] == typs[i].model(),
        value::models_of(values).len() == values.len(),
        0 <= i < values.len() ==> value::models_of(values)[i] == values[i].model(),
        rewrite::rules_of(rules).len() == rules.len(),
        0 <= i < rules.len() ==> rewrite::rules_of(rules)[i] == (rules[i].0, rules[i].1.model()),
        substitution::terms_of(terms).len() == terms.len(),
        0 <= i < terms.len() ==> substitution::terms_of(terms)[i] == terms[i].term(),
        machine::frames_of(frames).len() == frames.len(),
        0 <= i < frames.len() ==> machine::frames_of(frames)[i].offset == frames[i].offset,
        0 <= i < frames.len() ==> machine::frames_of(frames)[i].callable == (match frames[i].state {
            State::Unknown => Callable::Unknown,
            State::Closure(handle) => Callable::Closure(handle),
            State::Extern(function) => Callable::Extern(
                function.id@,
                function.args,
                function.function,
            ),
        }),
{
}

/// A text is shown as it is, and a symbol by its name.
pub proof fn law_names_are_shown(text: String, symbol: Symbol)
    ensures
        text.text() == text@,
        symbol.text() == symbol.name@,
{
}

/// The context is seen with its stack from the bottom to the top, its frames, its memory and the
/// futures that it awaits.
pub proof fn law_contexts_are_machines(context: Context, i: int)
    ensures
        context@.stack.len() == context.stack@.len(),
        0 <= i < context.stack@.len() ==> context@.stack[i] == context.stack@[i].model(),
        context@.frames.len() == context.frames@.len(),
        context@.heap.allocated == context.allocated,
        context@.heap.limit == context.memory_limit,
        context@.futures == context.futures@,
{
}

/// The globals are seen in the order in which they were defined.
pub proof fn law_globals_keep_their_order(globals: Globals, i: int)
    ensures
        globals@.len() == globals.entries@.len(),
        0 <= i < globals.entries@.len() ==> {
            let entry = globals.entries@[i];
            &&& globals@[i].name == entry.name@
            &&& globals@[i].typ == entry.typ.model()
            &&& globals@[i].value == entry.value.model()
        },
{
}

/// The fields of a record type have the names and the types that they were given, in order.
pub proof fn law_fields_have_their_names(fields: Seq<TypeField>, i: int)
    requires
        0 <= i < fields.len(),
    ensures
        type_cache::field_names(fields).len() == fields.len(),
        type_cache::field_types(fields).len() == fields.len(),
        type_cache::field_names(fields)[i] == fields[i].name@,
        type_cache::field_types(fields)[i] == fields[i].typ.model(),
{
}

/// A type is quantified over parameters by binding just these, if there are any.
pub proof fn law_parameters_are_bound(params: Seq<SymbolModel>, t: Term<Op>)
    ensures
        params.len() == 0 ==> type_cache::quantified_over(params, t) == t,
        params.len() > 0 ==> type_cache::quantified_over(params, t) == Term::Node(
            Op::Forall(params),
            seq![t],
        ),
{
}

/// Values are compared by what they are, whichever way the host holds them.
pub proof fn law_comparisons_go_by_the_value<'a, 'b, T>(
    a: Value,
    b: Value,
    c: Generic<T>,
    d: Generic<T>,
    e: Data<'a>,
    f: Data<'b>,
    g: ValueRef<'a>,
    h: ValueRef<'b>,
)
    ensures
        vstd::std_specs::cmp::PartialEqSpec::eq_spec(&a, &b) <==> value::same_val(
            a.model(),
            b.model(),
        ),
        vstd::std_specs::cmp::PartialEqSpec::eq_spec(&c, &d) <==> value::same_val(
            c.0.model(),
            d.0.model(),
        ),
        vstd::std_specs::cmp::PartialEqSpec::eq_spec(&e, &f) <==> value::same_val(
            e.model(),
            f.model(),
        ),
        vstd::std_specs::cmp::PartialEqSpec::eq_spec(&g, &h) <==> value_ref::same_shown(
            g.model(),
            h.model(),
        ),
        vstd::std_specs::cmp::PartialEqSpec::eq_spec(&g, &a) <==> value_ref::same_shown(
            g.model(),
            value_ref::shown(a.model()),
        ),
{
}

} // verus!
