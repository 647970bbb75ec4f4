//! What a thread knows.
use vstd::prelude::*;
use crate::symbol::SymbolModel;
use crate::term::Term;
use crate::thread;
use crate::thread::Thread;
use crate::types::{AliasRef, Op, Type};
use crate::value::{Val, VmTag};

verus! {

/// The first type under a key is the one that is known.
pub proof fn law_first_type_of_a_key_counts(known: Seq<(String, Type)>, i: int)
    requires
        0 <= i < known.len(),
        forall|j: int| 0 <= j < i ==> (#[trigger] known[j]).0@ != known[i].0@,
    ensures
        thread::type_for(known, known[i].0@) == Some(known[i].1.model()),
    decreases known.len(),
{
    if i > 0 {
        assert(known[0].0@ != known[i].0@);
        let rest = known.drop_first();
        assert(rest[i - 1] == known[i]);
        assert forall|j: int| 0 <= j < i - 1 implies (#[trigger] rest[j]).0@ != rest[i - 1].0@ by {
            assert(rest[j] == known[j + 1]);
        }
        law_first_type_of_a_key_counts(rest, i - 1);
    }
}

/// Under any other key no type is known.
pub proof fn law_other_keys_are_unknown(known: Seq<(String, Type)>, key: Seq<char>)
    requires
        forall|j: int| 0 <= j < known.len() ==> (#[trigger] known[j]).0@ != key,
    ensures
        thread::type_for(known, key) is None,
    decreases known.len(),
{
    if known.len() > 0 {
        assert(known[0].0@ != key);
        let rest = known.drop_first();
        assert forall|j: int| 0 <= j < rest.len() implies (#[trigger] rest[j]).0@ != key by {
            assert(rest[j] == known[j + 1]);
        }
        law_other_keys_are_unknown(rest, key);
    }
}

/// The first alias of a name is the one that is found.
pub proof fn law_first_alias_counts(aliases: Seq<AliasRef>, i: int)
    requires
        0 <= i < aliases.len(),
        forall|j: int|
            0 <= j < i ==> (#[trigger] aliases[j]).alias.name.name@ != aliases[i].alias.name.name@,
    ensures
        thread::alias_for(aliases, aliases[i].alias.name.name@) == Some(aliases[i]),
    decreases aliases.len(),
{
    if i > 0 {
        assert(aliases[0].alias.name.name@ != aliases[i].alias.name.name@);
        let rest = aliases.drop_first();
        assert(rest[i - 1] == aliases[i]);
        assert forall|j: int| 0 <= j < i - 1 implies (#[trigger] rest[j]).alias.name.name@ != rest[i
            - 1].alias.name.name@ by {
            assert(rest[j] == aliases[j + 1]);
        }
        law_first_alias_counts(rest, i - 1);
    }
}

/// A name that no alias has is not found.
pub proof fn law_other_aliases_are_unknown(aliases: Seq<AliasRef>, name: Seq<char>)
    requires
        forall|j: int| 0 <= j < aliases.len() ==> (#[trigger] aliases[j]).alias.name.name@ != name,
    ensures
        thread::alias_for(aliases, name) is None,
    decreases aliases.len(),
{
    if aliases.len() > 0 {
        assert(aliases[0].alias.name.name@ != name);
        let rest = aliases.drop_first();
        assert forall|j: int| 0 <= j < rest.len() implies (#[trigger] rest[j]).alias.name.name@
            != name by {
            assert(rest[j] == aliases[j + 1]);
        }
        law_other_aliases_are_unknown(rest, name);
    }
}

/// The position of a name is the first at which it stands.
proof fn lemma_position(names: Seq<String>, name: Seq<char>)
    ensures
        match thread::position_of(names, name) {
            Some(i) => i < names.len() && names[i as int]@ == name && forall|k: int|
                0 <= k < i ==> (#[trigger] names[k])@ != name,
            None => forall|k: int| 0 <= k < names.len() ==> (#[trigger] names[k])@ != name,
        },
    decreases names.len(),
{
    if names.len() > 0 && names[0]@ != name {
        let rest = names.drop_first();
        lemma_position(rest, name);
        assert forall|k: int| 0 < k < names.len() implies #[trigger] names[k] == rest[k - 1] by {}
        if let Some(i) = thread::position_of(rest, name) {
            assert(names[i as int + 1] == rest[i as int]);
        }
    }
}

/// The layout for a tag is the first one that has the tag.
proof fn lemma_layout(records: Seq<(VmTag, Vec<String>)>, tag: VmTag)
    ensures
        match thread::layout_of(records, tag) {
            Some(names) => exists|i: int|
                #![trigger records[i]]
                0 <= i < records.len() && records[i] == (tag, names) && forall|k: int|
                    0 <= k < i ==> (#[trigger] records[k]).0 != tag,
            None => forall|k: int| 0 <= k < records.len() ==> (#[trigger] records[k]).0 != tag,
        },
    decreases records.len(),
{
    if records.len() > 0 {
        if records[0].0 == tag {
            assert(records[0] == (tag, records[0].1));
        } else {
            let rest = records.drop_first();
            lemma_layout(rest, tag);
            assert forall|k: int| 0 < k < records.len() implies #[trigger] records[k] == rest[k
                - 1] by {}
            if let Some(names) = thread::layout_of(rest, tag) {
                let i = choose|i: int|
                    #![trigger rest[i]]
                    0 <= i < rest.len() && rest[i] == (tag, names) && forall|k: int|
                        0 <= k < i ==> (#[trigger] rest[k]).0 != tag;
                assert(records[i + 1] == rest[i]);
                assert forall|k: int| 0 <= k < i + 1 implies (#[trigger] records[k]).0 != tag by {
                    if k > 0 {
                        assert(rest[k - 1].0 != tag);
                    }
                }
            }
        }
    }
}

/// A field of a record is found at the position of its name among the names that belong to the tag
/// of the record; where the name is not among them, or the record has no such position, it is not
/// found.
pub proof fn law_fields_are_found_by_name(vm: &Thread, tag: VmTag, fields: Seq<Val>, name: Seq<char>)
    ensures
        match vm.field(Val::Data(tag, fields), name) {
            Some(found) => exists|i: int, k: int|
                #![trigger vm.records@[i], fields[k]]
                {
                    &&& 0 <= i < vm.records@.len()
                    &&& vm.records@[i].0 == tag
                    &&& 0 <= k < vm.records@[i].1@.len()
                    &&& vm.records@[i].1@[k]@ == name
                    &&& k < fields.len()
                    &&& fields[k] == found
                },
            None => forall|i: int, k: int|
                #![trigger vm.records@[i], fields[k]]
                0 <= i < vm.records@.len() && 0 <= k < vm.records@[i].1@.len() && k < fields.len()
                    && vm.records@[i].0 == tag && vm.records@[i].1@[k]@ == name ==> {
                    ||| exists|j: int| 0 <= j < i && (#[trigger] vm.records@[j]).0 == tag
                    ||| exists|j: int| 0 <= j < k && (#[trigger] vm.records@[i].1@[j])@ == name
                },
        },
{
    lemma_layout(vm.records@, tag);
    match thread::layout_of(vm.records@, tag) {
        Some(names) => {
            lemma_position(names@, name);
            let i = choose|i: int|
                #![trigger vm.records@[i]]
                0 <= i < vm.records@.len() && vm.records@[i] == (tag, names) && forall|k: int|
                    0 <= k < i ==> (#[trigger] vm.records@[k]).0 != tag;
            if let Some(k) = thread::position_of(names@, name) {
                assert(vm.records@[i].1@[k as int]@ == name);
                if k < fields.len() {
                    assert(fields[k as int] == fields[k as int]);
                }
            }
            if vm.field(Val::Data(tag, fields), name) is None {
                assert forall|a: int, k: int|
                    #![trigger vm.records@[a], fields[k]]
                    0 <= a < vm.records@.len() && 0 <= k < vm.records@[a].1@.len() && k
                        < fields.len() && vm.records@[a].0 == tag && vm.records@[a].1@[k]@ == name implies {
                    ||| exists|j: int| 0 <= j < a && (#[trigger] vm.records@[j]).0 == tag
                    ||| exists|j: int| 0 <= j < k && (#[trigger] vm.records@[a].1@[j])@ == name
                } by {
                    if a < i {
                        assert(vm.records@[a].0 != tag);
                    } else if a > i {
                        assert(vm.records@[i].0 == tag);
                    } else {
                        match thread::position_of(names@, name) {
                            Some(p) => {
                                assert(names@[p as int]@ == name);
                            },
                            None => {
                                assert(names@[k]@ != name);
                            },
                        }
                    }
                }
            }
        },
        None => {
            if vm.field(Val::Data(tag, fields), name) is None {
                assert(forall|a: int| 0 <= a < vm.records@.len() ==> (#[trigger] vm.records@[a]).0
                    != tag);
            }
        },
    }
}

/// A field at its first position, of the first layout for the tag, is found.
pub proof fn law_named_fields_are_found(
    vm: &Thread,
    i: int,
    k: int,
    fields: Seq<Val>,
)
    requires
        0 <= i < vm.records@.len(),
        forall|j: int| 0 <= j < i ==> (#[trigger] vm.records@[j]).0 != vm.records@[i].0,
        0 <= k < vm.records@[i].1@.len(),
        k < fields.len(),
        forall|j: int|
            0 <= j < k ==> (#[trigger] vm.records@[i].1@[j])@ != vm.records@[i].1@[k]@,
    ensures
        vm.field(Val::Data(vm.records@[i].0, fields), vm.records@[i].1@[k]@) == Some(fields[k]),
{
    let tag = vm.records@[i].0;
    let names = vm.records@[i].1;
    let name = names@[k]@;
    lemma_layout(vm.records@, tag);
    lemma_position(names@, name);
    match thread::layout_of(vm.records@, tag) {
        Some(found) => {
            let a = choose|a: int|
                #![trigger vm.records@[a]]
                0 <= a < vm.records@.len() && vm.records@[a] == (tag, found) && forall|j: int|
                    0 <= j < a ==> (#[trigger] vm.records@[j]).0 != tag;
            if a < i {
                assert(vm.records@[a].0 != tag);
            }
            if i < a {
                assert(vm.records@[i].0 != tag);
            }
            assert(found == names);
            match thread::position_of(names@, name) {
                Some(p) => {
                    if p < k {
                        assert(names@[p as int]@ != name);
                    }
                    if k < p {
                        assert(names@[k]@ != name);
                    }
                },
                None => {
                    assert(names@[k]@ != name);
                },
            }
        },
        None => {
            assert(vm.records@[i].0 != tag);
        },
    }
}

/// Values that are no records have no fields.
pub proof fn law_other_values_have_no_fields(vm: &Thread, val: Val, name: Seq<char>)
    requires
        !(val is Data),
    ensures
        vm.field(val, name) is None,
{
}

/// The type variable of a letter is a generic that has the letter as its name, and different
/// letters have different type variables.
pub proof fn law_letters_have_type_variables(vm: &Thread, c: char, d: char)
    requires
        vm.wf(),
        'a' <= c <= 'z',
        'a' <= d <= 'z',
    ensures
        vm.generic(c) matches Term::Node(Op::Generic(symbol), kids) && kids.len() == 0
            && symbol.name == seq![c],
        c != d ==> (vm.generic(c)->Node_0->Generic_0).id != (vm.generic(d)->Node_0->Generic_0).id,
{
    let i = c as int - 'a' as int;
    let j = d as int - 'a' as int;
    assert(vm.generics@[i].name@ == seq![thread::letter(i)]);
    assert(vm.generics@[j].name@ == seq![thread::letter(j)]);
    if i < j {
        assert(vm.generics@[i].id != vm.generics@[j].id);
    } else if j < i {
        assert(vm.generics@[j].id != vm.generics@[i].id);
    }
}

/// A registered type is known under its key as the name applied to its parameters, and the name is
/// an alias for an opaque type that binds just these parameters.
pub proof fn law_registered_types_are_known(
    before: &Thread,
    after: &Thread,
    key: Seq<char>,
    name: Seq<char>,
    params: Seq<char>,
)
    requires
        before.wf(),
        forall|i: int| 0 <= i < params.len() ==> 'a' <= #[trigger] params[i] <= 'z',
        thread::type_registered(before, after, key, name, params),
        before.known_type(key) is None,
        before.type_info(name) is None,
    ensures
        ({
            let symbol = SymbolModel { id: before.symbols, name };
            let head = Term::Node(Op::Ident(symbol), Seq::empty());
            let args = Seq::new(params.len(), |i: int| before.generic(params[i]));
            let opaque = Term::Node(Op::Opaque, Seq::empty());
            &&& after.known_type(key) == Some(
                if params.len() == 0 {
                    head
                } else {
                    Term::Node(Op::App, seq![head] + args)
                },
            )
            &&& after.symbols == before.symbols + 1
            &&& after.id == before.id
            &&& after.heap == before.heap
            &&& after.generics == before.generics
            &&& after.records == before.records
            &&& after.aliases@ == before.aliases@ + seq![after.aliases@.last()]
            &&& after.types@ == before.types@ + seq![after.types@.last()]
            &&& after.type_info(name) matches Some(found) && found.alias.name.model() == symbol
                && found.group@ == seq![found.alias] && (
            if params.len() == 0 {
                found.alias.typ.model() == opaque
            } else {
                found.alias.typ.model() matches Term::Node(Op::Forall(bound), kids) && kids
                    == seq![opaque] && bound.len() == params.len() && forall|i: int|
                    0 <= i < params.len() ==> before.generic(#[trigger] params[i]) == Term::Node(
                        Op::Generic(bound[i]),
                        Seq::empty(),
                    )
            })
        }),
{
    assert(after.types@ =~= before.types@.push(after.types@.last()));
    assert(after.aliases@ =~= before.aliases@.push(after.aliases@.last()));
    assert(after.types@ =~= before.types@ + seq![after.types@.last()]);
    assert(after.aliases@ =~= before.aliases@ + seq![after.aliases@.last()]);
    assert(after.aliases@.last().group@ =~= seq![after.aliases@.last().alias]);
    thread::lemma_type_stays(before.types@, after.types@.last(), key);
    thread::lemma_alias_stays(before.aliases@, after.aliases@.last(), name);
    let symbol = SymbolModel { id: before.symbols, name };
    let head = Term::Node(Op::Ident(symbol), Seq::empty());
    let args = Seq::new(params.len(), |i: int| before.generic(params[i]));
    assert(thread::generic_types(before, params) =~= args);
    assert((seq![head] + args)[0] == head);
    assert(after.aliases@.last().alias.name.model() =~= symbol);
    if params.len() == 0 {
        assert(thread::generic_symbols(before, params) =~= Seq::empty());
    }
}

} // verus!
