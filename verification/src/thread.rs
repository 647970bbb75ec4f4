//! Threads: what is known of types and globals, whatever is running.
use vstd::prelude::*;
use crate::alias;
use crate::machine::{Error, Failure};
use crate::substitution::share;
use crate::symbol::{Symbol, SymbolModel};
use crate::term::Term;
use crate::text;
use crate::text::{duplicate_texts, same_text};
use crate::type_cache;
use crate::type_cache::TypeField;
use crate::types;
use crate::types::{AliasData, AliasRef, BuiltinType, Op, Type};
use crate::value;
use crate::value::{DataStruct, Val, Value, VmTag};
use std::sync::Arc;
use vstd::pervasive::unreached;

verus! {

/// A thread of the virtual machine.
#[derive(Debug)]
pub struct Thread {
    /// Tells threads apart.
    pub id: u64,
    /// Tells heaps apart; threads with one heap can share values.
    pub heap: u64,
    /// The types that stand for types of the host, by the names of those.
    pub types: Vec<(String, Type)>,
    /// The type aliases, by name.
    pub aliases: Vec<AliasRef>,
    /// The type variables `a` to `z`.
    pub generics: Vec<Symbol>,
    /// The number of the next symbol.
    pub symbols: u64,
    /// The names of the fields of records, by their tags.
    pub records: Vec<(VmTag, Vec<String>)>,
}

/// A thread that is kept alive.
pub type RootedThread = Arc<Thread>;

/// A reference to a thread.
pub trait ThreadRef: Sized {
    /// The thread.
    spec fn thread(&self) -> Thread;

    fn vm(&self) -> (vm: &Thread)
        ensures
            *vm == self.thread(),
    ;

    /// A reference to the same thread.
    fn duplicate(&self) -> (copy: Self)
        ensures
            copy.thread() == self.thread(),
    ;
}

impl<'vm> ThreadRef for &'vm Thread {
    open spec fn thread(&self) -> Thread {
        **self
    }

    fn vm(&self) -> (vm: &Thread) {
        self
    }

    fn duplicate(&self) -> (copy: &'vm Thread) {
        self
    }
}

impl ThreadRef for RootedThread {
    open spec fn thread(&self) -> Thread {
        **self
    }

    fn vm(&self) -> (vm: &Thread) {
        self
    }

    fn duplicate(&self) -> (copy: RootedThread) {
        share(self)
    }
}

/// How many type variables a thread has names for.
pub const LETTERS: usize = 26;

/// The `i`th letter.
pub open spec fn letter(i: int) -> char {
    ('a' as int + i) as char
}

/// The type that stands for a type of the host.
pub open spec fn type_for(known: Seq<(String, Type)>, key: Seq<char>) -> Option<Term<Op>>
    decreases known.len(),
{
    if known.len() == 0 {
        None
    } else if known[0].0@ == key {
        Some(known[0].1.model())
    } else {
        type_for(known.drop_first(), key)
    }
}

/// The first alias of that name.
pub open spec fn alias_for(aliases: Seq<AliasRef>, name: Seq<char>) -> Option<AliasRef>
    decreases aliases.len(),
{
    if aliases.len() == 0 {
        None
    } else if aliases[0].alias.name.name@ == name {
        Some(aliases[0])
    } else {
        alias_for(aliases.drop_first(), name)
    }
}

/// Where the first of several names that reads `name` stands.
pub open spec fn position_of(names: Seq<String>, name: Seq<char>) -> Option<nat>
    decreases names.len(),
{
    if names.len() == 0 {
        None
    } else if names[0]@ == name {
        Some(0)
    } else {
        match position_of(names.drop_first(), name) {
            Some(i) => Some(i + 1),
            None => None,
        }
    }
}

/// The names of the fields of the records with a tag.
pub open spec fn layout_of(records: Seq<(VmTag, Vec<String>)>, tag: VmTag) -> Option<Vec<String>>
    decreases records.len(),
{
    if records.len() == 0 {
        None
    } else if records[0].0 == tag {
        Some(records[0].1)
    } else {
        layout_of(records.drop_first(), tag)
    }
}

/// The first entry under a name decides.
proof fn lemma_type_at(known: Seq<(String, Type)>, i: int, key: Seq<char>)
    requires
        0 <= i < known.len(),
        known[i].0@ == key,
        forall|k: int| 0 <= k < i ==> (#[trigger] known[k]).0@ != key,
    ensures
        type_for(known, key) == Some(known[i].1.model()),
    decreases i,
{
    if i > 0 {
        assert(known[0].0@ != key);
        let rest = known.drop_first();
        assert forall|k: int| 0 <= k < i - 1 implies (#[trigger] rest[k]).0@ != key by {
            assert(rest[k] == known[k + 1]);
        }
        lemma_type_at(rest, i - 1, key);
    }
}

impl Thread {
    /// What every operation of a thread keeps: there is a type variable for each letter, and every
    /// symbol is older than the next one.
    pub open spec fn wf(&self) -> bool {
        &&& self.generics@.len() == LETTERS
        &&& forall|i: int|
            0 <= i < LETTERS ==> (#[trigger] self.generics@[i]).name@ == seq![letter(i)]
                && self.generics@[i].id < self.symbols
        &&& forall|i: int, j: int|
            0 <= i < j < LETTERS ==> (#[trigger] self.generics@[i]).id != (
            #[trigger] self.generics@[j]).id
        &&& forall|i: int|
            0 <= i < self.aliases@.len() ==> (#[trigger] self.aliases@[i]).alias.name.id
                < self.symbols
    }

    /// The type that stands for a type of the host.
    pub open spec fn known_type(&self, key: Seq<char>) -> Option<Term<Op>> {
        type_for(self.types@, key)
    }

    /// The alias of that name.
    pub open spec fn type_info(&self, name: Seq<char>) -> Option<AliasRef> {
        alias_for(self.aliases@, name)
    }

    /// The type variable of that letter.
    pub open spec fn generic(&self, c: char) -> Term<Op> {
        alias::leaf(Op::Generic(self.generics@[c as int - 'a' as int].model()))
    }

    /// A thread that knows the types that are built into the language.
    pub fn new(id: u64, heap: u64) -> (vm: Thread)
        ensures
            vm.wf(),
            vm.id == id,
            vm.heap == heap,
            vm.known_type("()"@) == Some(type_cache::record_type(Seq::empty(), Seq::empty())),
            vm.known_type("u8"@) == Some(alias::leaf(Op::Builtin(BuiltinType::Byte))),
            vm.known_type("VmInt"@) == Some(alias::leaf(Op::Builtin(BuiltinType::Int))),
            vm.known_type("f64"@) == Some(alias::leaf(Op::Builtin(BuiltinType::Float))),
            vm.known_type("String"@) == Some(alias::leaf(Op::Builtin(BuiltinType::String))),
            vm.known_type("char"@) == Some(alias::leaf(Op::Builtin(BuiltinType::Char))),
            vm.aliases@ == Seq::<AliasRef>::empty(),
            vm.records@ == Seq::<(VmTag, Vec<String>)>::empty(),
    {
        let mut generics: Vec<Symbol> = Vec::new();
        let mut i: u8 = 0;
        while i < 26
            invariant
                i <= 26,
                generics@.len() == i,
                forall|k: int|
                    0 <= k < i ==> (#[trigger] generics@[k]).name@ == seq![letter(k)]
                        && generics@[k].id == k,
            decreases 26 - i,
        {
            let c: char = (97 + i) as char;
            generics.push(Symbol::new(i as u64, text_of_char(c)));
            i = i + 1;
        }
        let mut types: Vec<(String, Type)> = Vec::new();
        let unit: Vec<TypeField> = Vec::new();
        types.push(("()".to_owned(), Type::record(unit)));
        types.push(("u8".to_owned(), Type::builtin(BuiltinType::Byte)));
        types.push(("VmInt".to_owned(), Type::builtin(BuiltinType::Int)));
        types.push(("f64".to_owned(), Type::builtin(BuiltinType::Float)));
        types.push(("String".to_owned(), Type::builtin(BuiltinType::String)));
        types.push(("char".to_owned(), Type::builtin(BuiltinType::Char)));
        proof {
            assert(type_cache::field_names(unit@) =~= Seq::empty());
            assert(type_cache::field_types(unit@) =~= Seq::empty());
            reveal_strlit("()");
            reveal_strlit("u8");
            reveal_strlit("VmInt");
            reveal_strlit("f64");
            reveal_strlit("String");
            reveal_strlit("char");
            assert("()"@[0] == '(' && "u8"@[0] == 'u' && "VmInt"@[0] == 'V' && "f64"@[0] == 'f'
                && "String"@[0] == 'S' && "char"@[0] == 'c');
            lemma_type_at(types@, 0, "()"@);
            lemma_type_at(types@, 1, "u8"@);
            lemma_type_at(types@, 2, "VmInt"@);
            lemma_type_at(types@, 3, "f64"@);
            lemma_type_at(types@, 4, "String"@);
            lemma_type_at(types@, 5, "char"@);
        }
        Thread {
            id,
            heap,
            types,
            aliases: Vec::new(),
            generics,
            symbols: 26,
            records: Vec::new(),
        }
    }

    /// The type that stands for a type of the host. It has to be registered.
    pub fn get_type(&self, key: &str) -> (typ: Type)
        requires
            self.known_type(key@) is Some,
        ensures
            Some(typ.model()) == self.known_type(key@),
    {
        let mut i: usize = 0;
        assert(self.types@.skip(0) =~= self.types@);
        while i < self.types.len()
            invariant
                i <= self.types@.len(),
                type_for(self.types@.skip(i as int), key@) == self.known_type(key@),
            decreases self.types@.len() - i,
        {
            assert(self.types@.skip(i as int)[0] == self.types@[i as int]);
            assert(self.types@.skip(i as int).drop_first() =~= self.types@.skip(i + 1));
            if same_text(self.types[i].0.as_str(), key) {
                return self.types[i].1.duplicate();
            }
            i = i + 1;
        }
        unreached()
    }

    /// The alias of that name.
    pub fn find_type_info(&self, name: &str) -> (found: Option<&AliasRef>)
        ensures
            match found {
                Some(alias) => self.type_info(name@) == Some(*alias),
                None => self.type_info(name@) is None,
            },
    {
        let mut i: usize = 0;
        assert(self.aliases@.skip(0) =~= self.aliases@);
        while i < self.aliases.len()
            invariant
                i <= self.aliases@.len(),
                alias_for(self.aliases@.skip(i as int), name@) == self.type_info(name@),
            decreases self.aliases@.len() - i,
        {
            assert(self.aliases@.skip(i as int)[0] == self.aliases@[i as int]);
            assert(self.aliases@.skip(i as int).drop_first() =~= self.aliases@.skip(i + 1));
            if same_text(self.aliases[i].alias.name.name.as_str(), name) {
                return Some(&self.aliases[i]);
            }
            i = i + 1;
        }
        None
    }

    /// The type variable of that letter.
    pub fn get_generic(&self, c: char) -> (typ: Type)
        requires
            self.wf(),
            'a' <= c <= 'z',
        ensures
            typ.model() == self.generic(c),
    {
        let i: u32 = c as u32 - 97;
        Type::generic(self.generics[i as usize].clone())
    }

    /// Where the field `name` stands in records with a tag.
    pub open spec fn field_position(&self, tag: VmTag, name: Seq<char>) -> Option<nat> {
        match layout_of(self.records@, tag) {
            Some(names) => position_of(names@, name),
            None => None,
        }
    }

    /// The field `name` of a record.
    pub open spec fn field(&self, data: Val, name: Seq<char>) -> Option<Val> {
        match data {
            Val::Data(tag, fields) => match self.field_position(tag, name) {
                Some(i) => if i < fields.len() {
                    Some(fields[i as int])
                } else {
                    None
                },
                None => None,
            },
            _ => None,
        }
    }

    /// The names of the fields of the records with a tag.
    fn layout(&self, tag: VmTag) -> (found: Option<&Vec<String>>)
        ensures
            match found {
                Some(names) => layout_of(self.records@, tag) == Some(*names),
                None => layout_of(self.records@, tag) is None,
            },
    {
        let mut i: usize = 0;
        assert(self.records@.skip(0) =~= self.records@);
        while i < self.records.len()
            invariant
                i <= self.records@.len(),
                layout_of(self.records@.skip(i as int), tag) == layout_of(self.records@, tag),
            decreases self.records@.len() - i,
        {
            assert(self.records@.skip(i as int)[0] == self.records@[i as int]);
            assert(self.records@.skip(i as int).drop_first() =~= self.records@.skip(i + 1));
            if self.records[i].0 == tag {
                return Some(&self.records[i].1);
            }
            i = i + 1;
        }
        None
    }

    /// Looks up the field `name` of a record.
    pub fn lookup_field<'d>(&self, data: &'d DataStruct, name: &str) -> (found: Option<&'d Value>)
        ensures
            ({
                let record = Val::Data(data.tag, value::models_of(data.fields@));
                match found {
                    Some(value) => self.field(record, name@) == Some(value.model()),
                    None => self.field(record, name@) is None,
                }
            }),
    {
        let names = match self.layout(data.tag) {
            Some(names) => names,
            None => {
                return None;
            },
        };
        let mut i: usize = 0;
        assert(names@.skip(0) =~= names@);
        while i < names.len()
            invariant
                i <= names@.len(),
                layout_of(self.records@, data.tag) == Some(*names),
                position_of(names@, name@) == (match position_of(names@.skip(i as int), name@) {
                    Some(k) => Some(k + i as nat),
                    None => None,
                }),
            decreases names@.len() - i,
        {
            assert(names@.skip(i as int)[0] == names@[i as int]);
            assert(names@.skip(i as int).drop_first() =~= names@.skip(i + 1));
            if same_text(names[i].as_str(), name) {
                assert(position_of(names@, name@) == Some(i as nat));
                if i < data.fields.len() {
                    return Some(&data.fields[i]);
                }
                return None;
            }
            i = i + 1;
        }
        assert(position_of(names@.skip(i as int), name@) is None);
        None
    }
}

/// The symbols of the type variables of letters.
pub open spec fn generic_symbols(vm: &Thread, letters: Seq<char>) -> Seq<SymbolModel> {
    Seq::new(letters.len(), |i: int| vm.generics@[letters[i] as int - 'a' as int].model())
}

/// The type variables of letters.
pub open spec fn generic_types(vm: &Thread, letters: Seq<char>) -> Seq<Term<Op>> {
    Seq::new(letters.len(), |i: int| vm.generic(letters[i]))
}

/// The alias is the one that a new type is known by: it has a new symbol, and nothing is known of
/// the type but its parameters.
pub open spec fn is_new_alias(
    before: &Thread,
    alias: AliasRef,
    name: Seq<char>,
    params: Seq<char>,
) -> bool {
    &&& alias.alias.name.name@ == name
    &&& alias.alias.name.id == before.symbols
    &&& alias.alias.typ.model() == type_cache::quantified_over(
        generic_symbols(before, params),
        alias::leaf(Op::Opaque),
    )
    &&& alias.group@.len() == 1
    &&& alias.group@[0] == alias.alias
}

/// What `after` knows more than `before`, where the type `name` with the parameters `params` was
/// registered as the one that stands for the type `key` of the host.
pub open spec fn type_registered(
    before: &Thread,
    after: &Thread,
    key: Seq<char>,
    name: Seq<char>,
    params: Seq<char>,
) -> bool {
    &&& after.id == before.id
    &&& after.heap == before.heap
    &&& after.generics == before.generics
    &&& after.records == before.records
    &&& after.symbols == before.symbols + 1
    &&& after.aliases@.len() == before.aliases@.len() + 1
    &&& after.aliases@.drop_last() == before.aliases@
    &&& is_new_alias(before, after.aliases@.last(), name, params)
    &&& after.types@.len() == before.types@.len() + 1
    &&& after.types@.drop_last() == before.types@
    &&& after.types@.last().0@ == key
    &&& after.types@.last().1.model() == alias::application(
        seq![alias::leaf(Op::Ident(SymbolModel { id: before.symbols, name }))] + generic_types(
            before,
            params,
        ),
    )
}

/// An alias that was found is found among more of them.
pub proof fn lemma_alias_stays(aliases: Seq<AliasRef>, more: AliasRef, name: Seq<char>)
    ensures
        alias_for(aliases.push(more), name) == (match alias_for(aliases, name) {
            Some(found) => Some(found),
            None => if more.alias.name.name@ == name {
                Some(more)
            } else {
                None
            },
        }),
    decreases aliases.len(),
{
    if aliases.len() > 0 {
        lemma_alias_stays(aliases.drop_first(), more, name);
        assert(aliases.push(more)[0] == aliases[0]);
        assert(aliases.push(more).drop_first() =~= aliases.drop_first().push(more));
    } else {
        assert(alias_for(aliases.push(more).drop_first(), name) is None);
    }
}

/// A type that was found is found among more of them.
pub proof fn lemma_type_stays(known: Seq<(String, Type)>, more: (String, Type), key: Seq<char>)
    ensures
        type_for(known.push(more), key) == (match type_for(known, key) {
            Some(found) => Some(found),
            None => if more.0@ == key {
                Some(more.1.model())
            } else {
                None
            },
        }),
    decreases known.len(),
{
    if known.len() > 0 {
        lemma_type_stays(known.drop_first(), more, key);
        assert(known.push(more)[0] == known[0]);
        assert(known.push(more).drop_first() =~= known.drop_first().push(more));
    } else {
        assert(type_for(known.push(more).drop_first(), key) is None);
    }
}

/// Registering a type leaves every other name with the meaning that it had.
pub proof fn law_registering_keeps_other_types(
    before: &Thread,
    after: &Thread,
    key: Seq<char>,
    name: Seq<char>,
    params: Seq<char>,
)
    requires
        type_registered(before, after, key, name, params),
    ensures
        forall|other: Seq<char>|
            other != name || before.type_info(other) is Some ==> #[trigger] after.type_info(other)
                == before.type_info(other),
        forall|other: Seq<char>|
            other != key || before.known_type(other) is Some ==> #[trigger] after.known_type(other)
                == before.known_type(other),
        before.type_info(name) is None ==> after.type_info(name) == Some(after.aliases@.last()),
{
    assert(after.aliases@ =~= before.aliases@.push(after.aliases@.last()));
    assert(after.types@ =~= before.types@.push(after.types@.last()));
    assert forall|other: Seq<char>|
        other != name || before.type_info(other) is Some implies #[trigger] after.type_info(other)
        == before.type_info(other) by {
        lemma_alias_stays(before.aliases@, after.aliases@.last(), other);
    }
    assert forall|other: Seq<char>|
        other != key || before.known_type(other) is Some implies #[trigger] after.known_type(other)
        == before.known_type(other) by {
        lemma_type_stays(before.types@, after.types@.last(), other);
    }
    lemma_alias_stays(before.aliases@, after.aliases@.last(), name);
}

impl Thread {
    /// Registers the type `name` with the parameters `params` as the one that stands for the type
    /// `key` of the host.
    pub fn register_type(&mut self, key: &str, name: &str, params: &Vec<char>) -> (result: Result<
        Type,
        Error,
    >)
        requires
            old(self).wf(),
            old(self).symbols < u64::MAX,
            forall|i: int| 0 <= i < params@.len() ==> 'a' <= #[trigger] params@[i] <= 'z',
        ensures
            final(self).wf(),
            match result {
                Ok(typ) => {
                    &&& old(self).type_info(name@) is None
                    &&& type_registered(old(self), final(self), key@, name@, params@)
                    &&& typ.model() == final(self).types@.last().1.model()
                },
                Err(error) => {
                    &&& old(self).type_info(name@) is Some
                    &&& *final(self) == *old(self)
                    &&& error.model() == Failure::TypeAlreadyExists(name@)
                },
            },
    {
        if let Some(_) = self.find_type_info(name) {
            return Err(Error::TypeAlreadyExists(name.to_owned()));
        }
        let symbol = Symbol::new(self.symbols, name.to_owned());
        let mut parts: Vec<Type> = Vec::new();
        parts.push(Type::ident(symbol.clone()));
        let mut binders: Vec<Symbol> = Vec::new();
        let mut i: usize = 0;
        while i < params.len()
            invariant
                i <= params@.len(),
                self.wf(),
                *self == *old(self),
                forall|k: int| 0 <= k < params@.len() ==> 'a' <= #[trigger] params@[k] <= 'z',
                parts@.len() == i + 1,
                parts@[0].model() == alias::leaf(Op::Ident(symbol.model())),
                forall|k: int|
                    0 <= k < i ==> #[trigger] parts@[k + 1].model() == self.generic(params@[k]),
                binders@.len() == i,
                forall|k: int|
                    0 <= k < i ==> (#[trigger] binders@[k]).model() == self.generics@[params@[k] as int
                        - 'a' as int].model(),
            decreases params@.len() - i,
        {
            let c: char = params[i];
            assert('a' <= params@[i as int] <= 'z');
            let at: u32 = c as u32 - 97;
            binders.push(self.generics[at as usize].clone());
            parts.push(self.get_generic(c));
            i = i + 1;
        }
        proof {
            assert(types::symbols_of(binders@) =~= generic_symbols(self, params@));
            assert(types::models_of(parts@) =~= seq![alias::leaf(Op::Ident(symbol.model()))]
                + generic_types(self, params@)) by {
                assert forall|k: int| 0 <= k < parts@.len() implies types::models_of(parts@)[k]
                    == (seq![alias::leaf(Op::Ident(symbol.model()))] + generic_types(
                    self,
                    params@,
                ))[k] by {
                    if k > 0 {
                        assert(parts@[(k - 1) + 1].model() == self.generic(params@[k - 1]));
                    }
                }
            }
        }
        let typ = Type::app(parts);
        let data = Arc::new(
            AliasData { name: symbol, typ: Type::quantify(binders, Type::opaque()) },
        );
        let mut group: Vec<Arc<AliasData>> = Vec::new();
        group.push(share(&data));
        self.aliases.push(AliasRef { alias: data, group: Arc::new(group) });
        self.types.push((key.to_owned(), typ.duplicate()));
        self.symbols = self.symbols + 1;
        proof {
            assert(self.aliases@.drop_last() =~= old(self).aliases@);
            assert(self.types@.drop_last() =~= old(self).types@);
            assert forall|k: int|
                0 <= k < self.aliases@.len() implies (#[trigger] self.aliases@[k]).alias.name.id
                < self.symbols by {
                if k < old(self).aliases@.len() {
                    assert(self.aliases@[k] == old(self).aliases@[k]);
                }
            }
        }
        Ok(typ)
    }
}

impl Thread {
    /// Both are the same thread, with the same knowledge of types.
    pub open spec fn knows_the_same(&self, other: &Thread) -> bool {
        &&& self.id == other.id
        &&& self.heap == other.heap
        &&& self.symbols == other.symbols
        &&& self.generics@ == other.generics@
        &&& self.aliases@ == other.aliases@
        &&& forall|key: Seq<char>| #[trigger] self.known_type(key) == other.known_type(key)
        &&& forall|tag: VmTag, name: Seq<char>| #[trigger]
            self.field_position(tag, name) == other.field_position(tag, name)
    }

    /// A counted reference to the thread, which keeps what the thread knows at this point.
    pub fn root_thread(&self) -> (rooted: RootedThread)
        ensures
            self.knows_the_same(&rooted),
            self.wf() ==> rooted.wf(),
    {
        let mut types: Vec<(String, Type)> = Vec::new();
        let mut i: usize = 0;
        while i < self.types.len()
            invariant
                i <= self.types@.len(),
                types@.len() == i,
                forall|k: int|
                    0 <= k < i ==> (#[trigger] types@[k]).0 == self.types@[k].0
                        && types@[k].1.model() == self.types@[k].1.model(),
            decreases self.types@.len() - i,
        {
            types.push((self.types[i].0.clone(), self.types[i].1.duplicate()));
            i = i + 1;
        }
        let mut aliases: Vec<AliasRef> = Vec::new();
        let mut i: usize = 0;
        while i < self.aliases.len()
            invariant
                i <= self.aliases@.len(),
                aliases@ == self.aliases@.take(i as int),
            decreases self.aliases@.len() - i,
        {
            aliases.push(self.aliases[i].duplicate());
            i = i + 1;
            assert(aliases@ =~= self.aliases@.take(i as int));
        }
        let mut records: Vec<(VmTag, Vec<String>)> = Vec::new();
        let mut i: usize = 0;
        while i < self.records.len()
            invariant
                i <= self.records@.len(),
                records@.len() == i,
                forall|k: int|
                    0 <= k < i ==> (#[trigger] records@[k]).0 == self.records@[k].0
                        && text::texts_of(records@[k].1@) == text::texts_of(self.records@[k].1@),
            decreases self.records@.len() - i,
        {
            records.push((self.records[i].0, duplicate_texts(&self.records[i].1)));
            i = i + 1;
        }
        let rooted = Arc::new(
            Thread {
                id: self.id,
                heap: self.heap,
                types,
                aliases,
                generics: types::duplicate_symbols(&self.generics),
                symbols: self.symbols,
                records,
            },
        );
        proof {
            assert(rooted.aliases@ =~= self.aliases@);
            assert forall|key: Seq<char>| #[trigger] self.known_type(key) == rooted.known_type(key) by {
                lemma_types_alike(self.types@, rooted.types@, key);
            }
            assert forall|tag: VmTag, name: Seq<char>| #[trigger]
                self.field_position(tag, name) == rooted.field_position(tag, name) by {
                lemma_records_alike(self.records@, rooted.records@, tag);
                if let Some(names) = layout_of(self.records@, tag) {
                    let copied = layout_of(rooted.records@, tag).unwrap();
                    lemma_positions_alike(names@, copied@, name);
                }
            }
        }
        rooted
    }
}

proof fn lemma_types_alike(a: Seq<(String, Type)>, b: Seq<(String, Type)>, key: Seq<char>)
    requires
        a.len() == b.len(),
        forall|k: int|
            0 <= k < a.len() ==> (#[trigger] b[k]).0 == a[k].0 && b[k].1.model() == a[k].1.model(),
    ensures
        type_for(a, key) == type_for(b, key),
    decreases a.len(),
{
    if a.len() > 0 {
        assert(b[0].0 == a[0].0);
        assert forall|k: int| 0 <= k < a.len() - 1 implies (#[trigger] b.drop_first()[k]).0
            == a.drop_first()[k].0 && b.drop_first()[k].1.model() == a.drop_first()[k].1.model() by {
            assert(b[k + 1].0 == a[k + 1].0);
        }
        lemma_types_alike(a.drop_first(), b.drop_first(), key);
    }
}

proof fn lemma_records_alike(
    a: Seq<(VmTag, Vec<String>)>,
    b: Seq<(VmTag, Vec<String>)>,
    tag: VmTag,
)
    requires
        a.len() == b.len(),
        forall|k: int|
            0 <= k < a.len() ==> (#[trigger] b[k]).0 == a[k].0 && text::texts_of(b[k].1@)
                == text::texts_of(a[k].1@),
    ensures
        match (layout_of(a, tag), layout_of(b, tag)) {
            (Some(x), Some(y)) => text::texts_of(x@) == text::texts_of(y@),
            (None, None) => true,
            _ => false,
        },
    decreases a.len(),
{
    if a.len() > 0 {
        assert(b[0].0 == a[0].0);
        assert forall|k: int| 0 <= k < a.len() - 1 implies (#[trigger] b.drop_first()[k]).0
            == a.drop_first()[k].0 && text::texts_of(b.drop_first()[k].1@) == text::texts_of(
            a.drop_first()[k].1@,
        ) by {
            assert(b[k + 1].0 == a[k + 1].0);
        }
        lemma_records_alike(a.drop_first(), b.drop_first(), tag);
    }
}

proof fn lemma_positions_alike(a: Seq<String>, b: Seq<String>, name: Seq<char>)
    requires
        text::texts_of(a) == text::texts_of(b),
    ensures
        position_of(a, name) == position_of(b, name),
    decreases a.len(),
{
    assert(text::texts_of(a).len() == a.len() && text::texts_of(b).len() == b.len());
    if a.len() > 0 {
        assert(text::texts_of(a)[0] == text::texts_of(b)[0]);
        assert(text::texts_of(a.drop_first()) =~= text::texts_of(a).drop_first());
        assert(text::texts_of(b.drop_first()) =~= text::texts_of(b).drop_first());
        lemma_positions_alike(a.drop_first(), b.drop_first(), name);
    }
}

/// The string of one character.
fn text_of_char(c: char) -> (text: String)
    ensures
        text@ == seq![c],
{
    let mut text = String::new();
    push_char(&mut text, c);
    assert(text@ =~= seq![c]);
    text
}

/// `String::push`: appends the character to the string.
#[verifier::external_body]
fn push_char(text: &mut String, c: char)
    ensures
        final(text)@ == old(text)@.push(c),
{
    text.push(c)
}

} // verus!
