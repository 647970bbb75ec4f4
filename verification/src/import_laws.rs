//! What importing a module comes to.
use vstd::prelude::*;
use crate::globals;
use crate::globals::GlobalModel;
use crate::import;
use crate::import::{
    Action, Argument, CheckImporter, Checked, DefaultImporter, Error, Importer, Phase, Reading,
    Refusal, Span, Work,
};
use crate::text;
use crate::value::Val;

verus! {

/// A module that was checked is the last global: it has the name of the module and the type that
/// was found for it, and hides no other global but those of its name.
pub proof fn law_checked_modules_are_published(
    modulename: Seq<char>,
    output: Checked,
    globals: Seq<GlobalModel>,
)
    ensures
        ({
            let after = CheckImporter::published(modulename, output, globals);
            &&& after.len() == globals.len() + 1
            &&& after.drop_last() == globals
            &&& after.last().name == modulename
            &&& after.last().typ == output.typ.model()
            &&& after.last().value == Val::Int(0)
            &&& forall|name: Seq<char>|
                globals::defines(after, name) <==> globals::defines(globals, name) || name
                    == modulename
        }),
{
    let after = CheckImporter::published(modulename, output, globals);
    assert(after.drop_last() =~= globals);
    assert forall|name: Seq<char>|
        globals::defines(after, name) <==> globals::defines(globals, name) || name == modulename by {
        if globals::defines(after, name) {
            let i = choose|i: int| 0 <= i < after.len() && (#[trigger] after[i]).name == name;
            if i < globals.len() {
                assert(globals[i].name == name);
            }
        }
        if globals::defines(globals, name) {
            let i = choose|i: int| 0 <= i < globals.len() && (#[trigger] globals[i]).name == name;
            assert(after[i].name == name);
        }
        if name == modulename {
            assert(after[globals.len() as int].name == name);
        }
    }
}

/// The expression of a module that was checked is remembered under the name of the module, and
/// those of other modules stay.
pub proof fn law_checked_expressions_are_remembered(
    before: CheckImporter,
    modulename: Seq<char>,
    output: Checked,
    after: CheckImporter,
    other: Seq<char>,
)
    requires
        before.done(modulename, output, &after),
    ensures
        after@.contains_key(modulename),
        after@[modulename] == output.expr,
        other != modulename ==> after@.contains_key(other) == before@.contains_key(other),
        other != modulename && before@.contains_key(other) ==> after@[other] == before@[other],
{
}

/// The default importer runs modules, which sets their globals; the other one checks them, and
/// sets a global itself.
pub proof fn law_importers_differ(
    loader: DefaultImporter,
    checker: CheckImporter,
    modulename: Seq<char>,
    globals: Seq<GlobalModel>,
)
    ensures
        loader.wanted() == Work::LoadScript,
        checker.wanted() == Work::Typecheck,
        !loader.publishes(),
        checker.publishes(),
        DefaultImporter::published(modulename, (), globals) == globals,
        loader.done(modulename, (), &loader),
{
}

/// Texts that are joined in two groups have the separator between the groups, too.
pub proof fn law_separators_stand_between(
    first: Seq<Seq<char>>,
    last: Seq<Seq<char>>,
    separator: Seq<char>,
)
    requires
        first.len() > 0,
        last.len() > 0,
    ensures
        import::joined_with(first + last, separator) == import::joined_with(first, separator)
            + separator + import::joined_with(last, separator),
    decreases last.len(),
{
    let all = first + last;
    assert(all.last() == last.last());
    assert(all.drop_last() =~= first + last.drop_last());
    if last.len() == 1 {
        assert(all.drop_last() =~= first);
    } else {
        law_separators_stand_between(first, last.drop_last(), separator);
        let start = import::joined_with(first, separator) + separator;
        let middle = import::joined_with(last.drop_last(), separator);
        assert(start + middle + separator + last.last() =~= start + (middle + separator
            + last.last()));
    }
}

/// A single text is joined to itself, without a separator; none give the empty text.
pub proof fn law_single_texts_stay(text: Seq<char>, separator: Seq<char>)
    ensures
        import::joined_with(seq![text], separator) == text,
        import::joined_with(Seq::empty(), separator) == Seq::<char>::empty(),
{
}

/// The error for a cycle names the module, and shows the way from it back to it.
pub proof fn law_cycles_are_shown(module: String, cycle: Vec<String>, step: String)
    requires
        cycle@ == seq![module, step],
    ensures
        text::Show::text(&Error::CyclicDependency(module, cycle)) == "Module '"@ + module@
            + "' occurs in a cyclic dependency: `"@ + (module@ + " -> "@ + step@ + " -> "@ + module@)
            + "`"@,
{
    let arrow = " -> "@;
    let parts = seq![module@, step@, module@];
    assert(text::texts_of(cycle@).push(module@) =~= parts);
    assert(parts =~= seq![module@] + (seq![step@] + seq![module@]));
    law_separators_stand_between(seq![step@], seq![module@], arrow);
    law_separators_stand_between(seq![module@], seq![step@] + seq![module@], arrow);
    law_single_texts_stay(module@, arrow);
    law_single_texts_stay(step@, arrow);
    assert(import::joined_with(parts, arrow) =~= module@ + arrow + step@ + arrow + module@);
}

/// The number of a file in the standard library is that of the first module that it is the file of.
proof fn lemma_first_index(modules: Seq<Seq<char>>, filename: Seq<char>)
    ensures
        match import::first_index(modules, filename) {
            Some(i) => {
                &&& i < modules.len()
                &&& filename == "std/"@ + modules[i as int] + ".glu"@
                &&& forall|k: int|
                    0 <= k < i ==> filename != "std/"@ + (#[trigger] modules[k]) + ".glu"@
            },
            None => forall|k: int|
                0 <= k < modules.len() ==> filename != "std/"@ + (#[trigger] modules[k]) + ".glu"@,
        },
    decreases modules.len(),
{
    if modules.len() > 0 && import::std_file(modules[0]) != filename {
        let rest = modules.drop_first();
        lemma_first_index(rest, filename);
        assert forall|k: int| 0 < k < modules.len() implies #[trigger] modules[k] == rest[k - 1] by {}
        match import::first_index(rest, filename) {
            Some(i) => {
                assert(modules[i as int + 1] == rest[i as int]);
            },
            None => {},
        }
    }
}

/// A file is in the standard library if and only if it is that of one of its modules, in the
/// directory `std`, and it has the number of the first such module.
pub proof fn law_standard_files_are_found(filename: Seq<char>)
    ensures
        match import::std_index(filename) {
            Some(i) => {
                &&& i < import::std_modules().len()
                &&& filename == "std/"@ + import::std_modules()[i as int] + ".glu"@
                &&& forall|k: int|
                    0 <= k < i ==> filename != "std/"@ + (#[trigger] import::std_modules()[k])
                        + ".glu"@
            },
            None => forall|k: int|
                0 <= k < import::std_modules().len() ==> filename != "std/"@ + (
                #[trigger] import::std_modules()[k]) + ".glu"@,
        },
{
    lemma_first_index(import::std_modules(), filename);
}

/// The file of each module of the standard library has the number of that module: no two modules
/// have the same file.
pub proof fn law_standard_modules_are_numbered(i: int)
    requires
        0 <= i < import::std_modules().len(),
    ensures
        import::std_index("std/"@ + import::std_modules()[i] + ".glu"@) == Some(i as nat),
{
    let modules = import::std_modules();
    let filename = "std/"@ + modules[i] + ".glu"@;
    law_standard_files_are_found(filename);
    lemma_modules_differ();
    if let Some(k) = import::std_index(filename) {
        let start = "std/"@.len() as int;
        let found = "std/"@ + modules[k as int] + ".glu"@;
        assert(found.len() == filename.len());
        assert(found.subrange(start, start + modules[k as int].len()) =~= modules[k as int]);
        assert(filename.subrange(start, start + modules[i].len()) =~= modules[i]);
        assert(modules[k as int] == modules[i]);
    } else {
        assert(modules[i] == modules[i]);
    }
}

/// No two modules of the standard library have the same name.
proof fn lemma_modules_differ()
    ensures
        forall|i: int, j: int|
            0 <= i < j < import::std_modules().len() ==> import::std_modules()[i]
                != import::std_modules()[j],
{
    reveal_strlit("prelude");
    reveal_strlit("types");
    reveal_strlit("function");
    reveal_strlit("bool");
    reveal_strlit("float");
    reveal_strlit("int");
    reveal_strlit("char");
    reveal_strlit("io");
    reveal_strlit("list");
    reveal_strlit("map");
    reveal_strlit("option");
    reveal_strlit("parser");
    reveal_strlit("result");
    reveal_strlit("state");
    reveal_strlit("stream");
    reveal_strlit("string");
    reveal_strlit("test");
    reveal_strlit("unit");
    reveal_strlit("writer");
    let modules = import::std_modules();
    assert forall|i: int, j: int| 0 <= i < j < modules.len() implies modules[i] != modules[j] by {
        assert(modules[i].len() != modules[j].len() || modules[i][0] != modules[j][0]
            || modules[i][1] != modules[j][1] || modules[i][2] != modules[j][2]
            || modules[i][3] != modules[j][3]);
    }
}

/// These are the modules of the standard library, by their numbers.
pub proof fn law_the_standard_library()
    ensures
        import::std_modules().len() == 19,
        import::std_modules()[0] == "prelude"@,
        import::std_modules()[1] == "types"@,
        import::std_modules()[2] == "function"@,
        import::std_modules()[3] == "bool"@,
        import::std_modules()[4] == "float"@,
        import::std_modules()[5] == "int"@,
        import::std_modules()[6] == "char"@,
        import::std_modules()[7] == "io"@,
        import::std_modules()[8] == "list"@,
        import::std_modules()[9] == "map"@,
        import::std_modules()[10] == "option"@,
        import::std_modules()[11] == "parser"@,
        import::std_modules()[12] == "result"@,
        import::std_modules()[13] == "state"@,
        import::std_modules()[14] == "stream"@,
        import::std_modules()[15] == "string"@,
        import::std_modules()[16] == "test"@,
        import::std_modules()[17] == "unit"@,
        import::std_modules()[18] == "writer"@,
{
}

/// Directories are tried in order; when none is left, the error names the file.
pub proof fn law_directories_are_tried_in_order(
    step: Reading,
    paths: Seq<String>,
    filename: Seq<char>,
    i: int,
)
    requires
        0 <= i <= paths.len() <= usize::MAX,
        import::is_attempt(step, paths, filename, i),
    ensures
        i < paths.len() ==> (step matches Reading::Open(k) && k == i),
        i == paths.len() ==> (step matches Reading::Failed(Error::String(message)) && message@
            == "Could not find file '"@ + filename + "'"@),
{
}

/// Where no directory has the file, none is chosen.
pub proof fn law_missing_files_are_nowhere(opens: Seq<bool>, from: int)
    requires
        0 <= from <= opens.len(),
        forall|k: int| from <= k < opens.len() ==> !opens[k],
    ensures
        import::first_open(opens, from) is None,
    decreases opens.len() - from,
{
    if from < opens.len() {
        law_missing_files_are_nowhere(opens, from + 1);
    }
}

/// A message is an error with just that text.
pub proof fn law_messages_have_their_text(message: String, text: Seq<char>)
    ensures
        import::is_message(Error::String(message), text) <==> message@ == text,
        !import::is_message(Error::IO(message), text),
{
}

/// The macro takes one argument, a string literal, which is the file as it is written; anything
/// else is refused with the reason.
pub proof fn law_one_literal_names_the_file(args: Seq<Argument>)
    ensures
        match import::named_file(args) {
            Ok(name) => args.len() == 1 && (args[0] matches Argument::StringLiteral(filename, span)
                && name.0 == filename@ && name.1 == span),
            Err(reason) => {
                ||| args.len() != 1 && reason == "Expected import to get 1 argument"@
                ||| args.len() == 1 && args[0] is Other && reason
                    == "Expected a string literal to import"@
            },
        },
        args.len() == 1 && args[0] is StringLiteral ==> import::named_file(args) is Ok,
{
}

/// A file takes the implicit prelude unless it starts with the mark that turns it off.
pub proof fn law_the_mark_turns_the_prelude_off(contents: Seq<char>)
    ensures
        import::takes_prelude(contents) <==> !exists|rest: Seq<char>|
            contents == #[trigger] ("//@NO-IMPLICIT-PRELUDE"@ + rest),
{
    let mark = "//@NO-IMPLICIT-PRELUDE"@;
    if mark.is_prefix_of(contents) {
        let rest = contents.skip(mark.len() as int);
        assert(contents.subrange(0, mark.len() as int) =~= mark);
        assert(contents =~= mark + rest);
    }
    if exists|rest: Seq<char>| contents == #[trigger] (mark + rest) {
        let rest = choose|rest: Seq<char>| contents == #[trigger] (mark + rest);
        assert(contents.subrange(0, mark.len() as int) =~= mark);
    }
}

/// Leaving undoes entering.
pub proof fn law_the_last_module_is_left(visited: Seq<String>, filename: String)
    ensures
        import::without_last(visited.push(filename)) == visited,
        import::without_last(Seq::empty()) == Seq::<String>::empty(),
{
    assert(visited.push(filename).drop_last() =~= visited);
}

/// What comes of asking for a module: one that exists is referred to by its name, in the place of
/// the macro; one that is being imported is a cycle, from that module on; any other is read, under
/// the name of its file.
pub proof fn law_modules_are_read_once<E>(
    visited: Seq<Seq<char>>,
    filename: Seq<char>,
    span: Span,
    modulename: Seq<char>,
    exists: bool,
    action: Action<E>,
)
    requires
        import::asked(visited, filename, span, modulename, exists, action),
    ensures
        exists ==> (action matches Action::Refer(name, place) && name@ == modulename && place
            == span),
        !exists && visited.contains(filename) ==> (action matches Action::Fail(
            Refusal::Import(Error::CyclicDependency(module, cycle)),
        ) && module@ == filename && cycle@.len() > 0 && cycle@[0]@ == filename && cycle@.last()@
            == visited.last()),
        !exists && !visited.contains(filename) ==> (action matches Action::ReadFile(
            Phase::Reading { filename: file, modulename: name, span: place },
        ) && file@ == filename && name@ == modulename && place == span),
{
    import::law_cycles_are_real(visited, filename);
    if !exists && visited.contains(filename) {
        if let Action::Fail(Refusal::Import(Error::CyclicDependency(module, cycle))) = action {
            let shown = text::texts_of(cycle@);
            assert(shown.len() == cycle@.len());
            assert(shown[0] == cycle@[0]@);
            assert(shown.last() == cycle@.last()@);
        }
    }
}

/// A file that was read has its macros expanded, with its own text and the errors counted so far;
/// one that could not be read ends the import with that error.
pub proof fn law_files_are_expanded<E>(
    filename: String,
    modulename: String,
    span: Span,
    count: nat,
    outcome: Result<String, Error>,
    action: Action<E>,
)
    requires
        import::read(filename, modulename, span, count, outcome, action),
        count <= usize::MAX,
    ensures
        outcome matches Ok(text) ==> (action matches Action::Expand(
            Phase::Expanding {
                filename: file,
                modulename: name,
                contents,
                implicit_prelude,
                count: before,
                span: place,
            },
        ) && file == filename && name == modulename && contents == text && before == count && place
            == span && (implicit_prelude <==> !"//@NO-IMPLICIT-PRELUDE"@.is_prefix_of(text@))),
        outcome matches Err(error) ==> action == Action::<E>::Fail(Refusal::Import(error)),
{
}

/// The host works on the module that was expanded, with its text and its expression, as the
/// importer wants it.
pub proof fn law_the_host_works_on_the_module<E>(
    work: Work,
    modulename: Seq<char>,
    contents: String,
    implicit_prelude: bool,
    expr: u64,
    span: Span,
    action: Action<E>,
)
    requires
        import::works(work, modulename, contents, implicit_prelude, expr, span, action),
    ensures
        action matches Action::Work(Phase::Working { modulename: name, span: place }, job)
            && name@ == modulename && place == span && job.work == work && job.modulename@
            == modulename && job.input == contents && job.expr == expr && job.implicit_prelude
            == implicit_prelude,
{
}

} // verus!
