//! Implementation of the `import!` macro.
use vstd::prelude::*;
use crate::globals;
use crate::globals::{GlobalModel, Globals};
use crate::text;
use crate::text::{duplicate_texts, same_text, Show};
use crate::types::Type;
use crate::value::{Val, Value};
use fnv::FnvHashMap;
use itertools::Itertools;
use vstd::string::{StrSliceExecFns, StringExecFns};

verus! {

/// Error type for the import macro
#[derive(Debug)]
pub enum Error {
    /// The importer found a cyclic dependency when loading files
    CyclicDependency(String, Vec<String>),
    /// Generic message error
    String(String),
    /// The importer could not load the imported file
    IO(String),
}

/// The parts one after the other, with the separator between each two.
pub open spec fn joined_with(parts: Seq<Seq<char>>, separator: Seq<char>) -> Seq<char>
    decreases parts.len(),
{
    if parts.len() == 0 {
        Seq::empty()
    } else if parts.len() == 1 {
        parts[0]
    } else {
        joined_with(parts.drop_last(), separator) + separator + parts.last()
    }
}

/// `Itertools::format`: the parts one after the other, with the separator between each two.
#[verifier::external_body]
fn format_joined(parts: &Vec<String>, separator: &str) -> (joined: String)
    ensures
        joined@ == joined_with(text::texts_of(parts@), separator@),
{
    parts.iter().format(separator).to_string()
}

impl Show for Error {
    open spec fn text(&self) -> Seq<char> {
        match self {
            Error::CyclicDependency(module, cycle) => "Module '"@ + module@
                + "' occurs in a cyclic dependency: `"@ + joined_with(
                text::texts_of(cycle@).push(module@),
                " -> "@,
            ) + "`"@,
            Error::String(message) => message@,
            Error::IO(message) => message@,
        }
    }

    fn show(&self) -> (text: String) {
        match self {
            Error::CyclicDependency(module, cycle) => {
                let mut parts = duplicate_texts(cycle);
                parts.push(module.clone());
                assert(text::texts_of(parts@) =~= text::texts_of(cycle@).push(module@));
                let path = format_joined(&parts, " -> ");
                let mut text = String::new();
                text.append("Module '");
                text.append(module.as_str());
                text.append("' occurs in a cyclic dependency: `");
                text.append(path.as_str());
                text.append("`");
                assert(text@ =~= self.text());
                text
            },
            Error::String(message) => message.clone(),
            Error::IO(message) => message.clone(),
        }
    }
}

impl Error {
    /// What kind of error it is, in a few words.
    pub fn description(&self) -> (text: String)
        ensures
            text@ == (match self {
                Error::CyclicDependency(..) => "Cyclic dependency"@,
                Error::String(message) => message@,
                Error::IO(message) => message@,
            }),
    {
        match self {
            Error::CyclicDependency(..) => "Cyclic dependency".to_owned(),
            Error::String(message) => message.clone(),
            Error::IO(message) => message.clone(),
        }
    }
}

/// The modules of the standard library.
pub open spec fn std_modules() -> Seq<Seq<char>> {
    seq![
        "prelude"@,
        "types"@,
        "function"@,
        "bool"@,
        "float"@,
        "int"@,
        "char"@,
        "io"@,
        "list"@,
        "map"@,
        "option"@,
        "parser"@,
        "result"@,
        "state"@,
        "stream"@,
        "string"@,
        "test"@,
        "unit"@,
        "writer"@,
    ]
}

/// The file of a module of the standard library.
pub open spec fn std_file(module: Seq<char>) -> Seq<char> {
    "std/"@ + module + ".glu"@
}

/// The number of the module of the standard library that a file is.
pub open spec fn std_index(filename: Seq<char>) -> Option<nat> {
    first_index(std_modules(), filename)
}

/// The number of the first of several modules that a file is.
pub open spec fn first_index(modules: Seq<Seq<char>>, filename: Seq<char>) -> Option<nat>
    decreases modules.len(),
{
    if modules.len() == 0 {
        None
    } else if std_file(modules[0]) == filename {
        Some(0)
    } else {
        match first_index(modules.drop_first(), filename) {
            Some(i) => Some(i + 1),
            None => None,
        }
    }
}

/// The modules of the standard library, in order.
fn std_module_names() -> (modules: Vec<String>)
    ensures
        text::texts_of(modules@) == std_modules(),
{
    let mut modules: Vec<String> = Vec::new();
    modules.push("prelude".to_owned());
    modules.push("types".to_owned());
    modules.push("function".to_owned());
    modules.push("bool".to_owned());
    modules.push("float".to_owned());
    modules.push("int".to_owned());
    modules.push("char".to_owned());
    modules.push("io".to_owned());
    modules.push("list".to_owned());
    modules.push("map".to_owned());
    modules.push("option".to_owned());
    modules.push("parser".to_owned());
    modules.push("result".to_owned());
    modules.push("state".to_owned());
    modules.push("stream".to_owned());
    modules.push("string".to_owned());
    modules.push("test".to_owned());
    modules.push("unit".to_owned());
    modules.push("writer".to_owned());
    assert(text::texts_of(modules@) =~= std_modules());
    modules
}

/// Looks a file up in the standard library.
pub fn find_std_file(filename: &str) -> (found: Option<usize>)
    ensures
        match found {
            Some(i) => std_index(filename@) == Some(i as nat),
            None => std_index(filename@) is None,
        },
{
    let modules = std_module_names();
    let ghost all = std_modules();
    let mut i: usize = 0;
    assert(all.skip(0) =~= all);
    while i < modules.len()
        invariant
            i <= modules@.len(),
            all == std_modules(),
            all == text::texts_of(modules@),
            std_index(filename@) == (match first_index(all.skip(i as int), filename@) {
                Some(k) => Some(k + i as nat),
                None => None,
            }),
        decreases modules@.len() - i,
    {
        proof {
            assert(all.skip(i as int)[0] == modules@[i as int]@);
            assert(all.skip(i as int).drop_first() =~= all.skip(i + 1));
        }
        let file = "std/".to_owned().concat(modules[i].as_str()).concat(".glu");
        assert(file@ =~= std_file(modules@[i as int]@));
        if same_text(file.as_str(), filename) {
            return Some(i);
        }
        i = i + 1;
    }
    assert(first_index(all.skip(i as int), filename@) is None);
    None
}

/// Macro which rewrites occurances of `import! "filename"` to a load of that file if it is not
/// already loaded and then a global access to the loaded module
#[derive(Debug)]
pub struct Import<I = DefaultImporter> {
    /// The directories in which files are looked for, from the first to the last.
    pub paths: Vec<String>,
    pub importer: I,
}

/// What has to be done next to read a file.
#[derive(Debug)]
pub enum Reading {
    /// The file is a module of the standard library, by its number.
    Standard(usize),
    /// Open the file in the directory of that number.
    Open(usize),
    /// Read the file that was opened in the directory of that number.
    Read(usize),
    /// The file is nowhere.
    Failed(Error),
}

/// The step that comes when the directories before the `i`th were tried.
pub open spec fn is_attempt(step: Reading, paths: Seq<String>, filename: Seq<char>, i: int) -> bool {
    if i < paths.len() {
        step == Reading::Open(i as usize)
    } else {
        step matches Reading::Failed(Error::String(message)) && message@ == "Could not find file '"@
            + filename + "'"@
    }
}

impl<I> Import<I> {
    /// Creates a new import macro
    pub fn new(importer: I) -> (import: Import<I>)
        ensures
            text::texts_of(import.paths@) == seq!["."@],
            import.importer == importer,
    {
        let mut paths: Vec<String> = Vec::new();
        paths.push(".".to_owned());
        assert(text::texts_of(paths@) =~= seq!["."@]);
        Import { paths, importer }
    }

    /// Adds a path to the list of paths which the importer uses to find files
    pub fn add_path(&mut self, path: String)
        ensures
            final(self).paths@ == old(self).paths@.push(path),
            final(self).importer == old(self).importer,
    {
        self.paths.push(path);
    }

    /// Starts to read a file: the standard library comes before the directories.
    pub fn read_file(&self, filename: &str) -> (step: Reading)
        ensures
            match std_index(filename@) {
                Some(i) => step == Reading::Standard(i as usize),
                None => is_attempt(step, self.paths@, filename@, 0),
            },
    {
        match find_std_file(filename) {
            Some(i) => Reading::Standard(i),
            None => self.attempt(filename, 0),
        }
    }

    /// Goes on after an attempt to open the file in the directory of that number.
    pub fn opened(&self, filename: &str, i: usize, found: bool) -> (step: Reading)
        requires
            i < self.paths@.len(),
        ensures
            if found {
                step == Reading::Read(i)
            } else {
                is_attempt(step, self.paths@, filename@, i + 1)
            },
    {
        if found {
            Reading::Read(i)
        } else {
            assert(i < self.paths.len());
            self.attempt(filename, i + 1)
        }
    }

    fn attempt(&self, filename: &str, i: usize) -> (step: Reading)
        ensures
            is_attempt(step, self.paths@, filename@, i as int),
    {
        if i < self.paths.len() {
            Reading::Open(i)
        } else {
            let message = "Could not find file '".to_owned().concat(filename).concat("'");
            assert(message@ =~= "Could not find file '"@ + filename@ + "'"@);
            Reading::Failed(Error::String(message))
        }
    }
}

/// What reading an opened file gives: its text, or the message of the error.
pub fn contents(read: Result<String, String>) -> (result: Result<String, Error>)
    ensures
        match read {
            Ok(text) => result == Ok::<String, Error>(text),
            Err(message) => result == Err::<String, Error>(Error::IO(message)),
        },
{
    match read {
        Ok(text) => Ok(text),
        Err(message) => Err(Error::IO(message)),
    }
}

/// The number of the first directory, from the `i`th on, in which the file can be opened.
pub open spec fn first_open(opens: Seq<bool>, i: int) -> Option<int>
    decreases opens.len() - i,
{
    if i < 0 || i >= opens.len() {
        None
    } else if opens[i] {
        Some(i)
    } else {
        first_open(opens, i + 1)
    }
}

/// Where a file that is not in the standard library is read from, if `opens` says in which
/// directories it can be opened.
pub fn search<I>(import: &Import<I>, filename: &str, opens: &Vec<bool>) -> (step: Reading)
    requires
        opens@.len() == import.paths@.len(),
        std_index(filename@) is None,
    ensures
        match first_open(opens@, 0) {
            Some(i) => step == Reading::Read(i as usize),
            None => is_attempt(step, import.paths@, filename@, import.paths@.len() as int),
        },
{
    let mut step = import.read_file(filename);
    let mut i: usize = 0;
    while i < opens.len()
        invariant
            i <= opens@.len(),
            opens@.len() == import.paths@.len(),
            first_open(opens@, 0) == first_open(opens@, i as int),
            is_attempt(step, import.paths@, filename@, i as int),
        decreases opens@.len() - i,
    {
        step = import.opened(filename, i, opens[i]);
        if opens[i] {
            return step;
        }
        i = i + 1;
    }
    step
}

/// The modules that are being imported, the outermost first.
#[derive(Debug)]
pub struct State {
    pub visited: Vec<String>,
}

impl State {
    /// The state in which nothing is being imported.
    pub fn new() -> (state: State)
        ensures
            state.visited@ == Seq::<String>::empty(),
    {
        State { visited: Vec::new() }
    }
}

/// Where an expression stands in the source: the positions of its start and of its end.
#[derive(Clone, Copy, Debug, PartialEq, Eq, Structural)]
pub struct Span {
    pub start: u32,
    pub end: u32,
}

/// An argument of the macro: a string literal, or anything else.
#[derive(Debug)]
pub enum Argument {
    StringLiteral(String, Span),
    Other(Span),
}

/// The file that the arguments of the macro name and where they name it, or why they name none.
pub open spec fn named_file(args: Seq<Argument>) -> Result<(Seq<char>, Span), Seq<char>> {
    if args.len() != 1 {
        Err("Expected import to get 1 argument"@)
    } else {
        match args[0] {
            Argument::StringLiteral(filename, span) => Ok((filename@, span)),
            Argument::Other(_) => Err("Expected a string literal to import"@),
        }
    }
}

/// The error is a message with this text.
pub open spec fn is_message(error: Error, text: Seq<char>) -> bool {
    error matches Error::String(message) && message@ == text
}

/// Checks the arguments of the macro: the one file that is to be imported, and where it is named.
pub fn check_arguments(args: &Vec<Argument>) -> (result: Result<(String, Span), Error>)
    ensures
        match (named_file(args@), result) {
            (Ok(name), Ok(file)) => file.0@ == name.0 && file.1 == name.1,
            (Err(text), Err(error)) => is_message(error, text),
            _ => false,
        },
{
    if args.len() != 1 {
        return Err(Error::String("Expected import to get 1 argument".to_owned()));
    }
    match &args[0] {
        Argument::StringLiteral(filename, span) => Ok((filename.clone(), *span)),
        Argument::Other(_) => Err(Error::String("Expected a string literal to import".to_owned())),
    }
}

/// What has to be done next to import a module.
#[derive(Debug)]
pub enum Expansion {
    /// The module is there: refer to it.
    Refer,
    /// Read the file.
    ReadFile,
}

/// Where the first of several modules that reads `filename` stands.
pub open spec fn first_visit(visited: Seq<Seq<char>>, filename: Seq<char>) -> Option<nat>
    decreases visited.len(),
{
    if visited.len() == 0 {
        None
    } else if visited[0] == filename {
        Some(0)
    } else {
        match first_visit(visited.drop_first(), filename) {
            Some(i) => Some(i + 1),
            None => None,
        }
    }
}

impl State {
    /// Goes on when it is known whether the module exists. A module that is being imported cannot
    /// be imported again: the modules from it on are the cycle.
    pub fn enter(&mut self, filename: &str, exists: bool) -> (result: Result<Expansion, Error>)
        ensures
            ({
                let visited = text::texts_of(old(self).visited@);
                let after = text::texts_of(final(self).visited@);
                if exists {
                    &&& result == Ok::<Expansion, Error>(Expansion::Refer)
                    &&& after == visited
                } else {
                    match first_visit(visited, filename@) {
                        Some(i) => {
                            &&& result matches Err(Error::CyclicDependency(module, cycle))
                            &&& module@ == filename@
                            &&& text::texts_of(cycle@) == visited.skip(i as int)
                            &&& after == visited
                        },
                        None => {
                            &&& result == Ok::<Expansion, Error>(Expansion::ReadFile)
                            &&& after == visited.push(filename@)
                        },
                    }
                }
            }),
    {
        if exists {
            return Ok(Expansion::Refer);
        }
        let ghost visited = text::texts_of(self.visited@);
        let mut i: usize = 0;
        assert(visited.skip(0) =~= visited);
        while i < self.visited.len()
            invariant
                i <= self.visited@.len(),
                !exists,
                *self == *old(self),
                visited == text::texts_of(self.visited@),
                first_visit(visited, filename@) == (match first_visit(
                    visited.skip(i as int),
                    filename@,
                ) {
                    Some(k) => Some(k + i as nat),
                    None => None,
                }),
            decreases self.visited@.len() - i,
        {
            proof {
                assert(visited.skip(i as int)[0] == self.visited@[i as int]@);
                assert(visited.skip(i as int).drop_first() =~= visited.skip(i + 1));
            }
            if same_text(self.visited[i].as_str(), filename) {
                assert(first_visit(visited, filename@) == Some(i as nat));
                let mut cycle: Vec<String> = Vec::new();
                let mut k: usize = i;
                while k < self.visited.len()
                    invariant
                        i <= k <= self.visited@.len(),
                        visited == text::texts_of(self.visited@),
                        cycle@.len() == k - i,
                        forall|j: int| 0 <= j < k - i ==> (#[trigger] cycle@[j])@ == visited[i + j],
                    decreases self.visited@.len() - k,
                {
                    cycle.push(self.visited[k].clone());
                    k = k + 1;
                }
                assert(text::texts_of(cycle@) =~= visited.skip(i as int));
                return Err(Error::CyclicDependency(filename.to_owned(), cycle));
            }
            i = i + 1;
        }
        assert(first_visit(visited.skip(i as int), filename@) is None);
        self.visited.push(filename.to_owned());
        assert(text::texts_of(self.visited@) =~= visited.push(filename@));
        Ok(Expansion::ReadFile)
    }
}

/// Whether one text starts with another.
pub fn starts_with(text: &str, prefix: &str) -> (found: bool)
    ensures
        found == prefix@.is_prefix_of(text@),
{
    let length: usize = prefix.unicode_len();
    if text.unicode_len() < length {
        return false;
    }
    let start = text.substring_char(0, length);
    assert(start@ =~= text@.subrange(0, prefix@.len() as int));
    same_text(start, prefix)
}

/// The file is compiled with the implicit prelude: it is not marked as one that would create a
/// cyclic dependency with it.
pub open spec fn takes_prelude(contents: Seq<char>) -> bool {
    !"//@NO-IMPLICIT-PRELUDE"@.is_prefix_of(contents)
}

/// Whether the file is compiled with the implicit prelude.
pub fn implicit_prelude(contents: &str) -> (implicit: bool)
    ensures
        implicit == takes_prelude(contents@),
{
    !starts_with(contents, "//@NO-IMPLICIT-PRELUDE")
}

/// The modules that are being imported when the innermost of them no longer is.
pub open spec fn without_last(visited: Seq<String>) -> Seq<String> {
    if visited.len() > 0 {
        visited.drop_last()
    } else {
        visited
    }
}

impl State {
    /// The innermost module is no longer being imported.
    pub fn pop(&mut self)
        ensures
            final(self).visited@ == without_last(old(self).visited@),
    {
        let _ = self.visited.pop();
    }

    /// Goes on after the macros in the file were expanded, which gives an expression. `errors`
    /// holds all the errors so far, of which there were `count` before: where there are others
    /// now, the last of them is the result. In any case the module is no longer being imported.
    pub fn leave<E>(
        &mut self,
        expanded: Result<u64, E>,
        count: usize,
        errors: &mut Vec<E>,
    ) -> (result: Result<u64, E>)
        ensures
            final(self).visited@ == without_last(old(self).visited@),
            match expanded {
                Err(error) => {
                    &&& result == Err::<u64, E>(error)
                    &&& final(errors)@ == old(errors)@
                },
                Ok(expr) => if old(errors)@.len() != count && old(errors)@.len() > 0 {
                    &&& result == Err::<u64, E>(old(errors)@.last())
                    &&& final(errors)@ == old(errors)@.drop_last()
                } else {
                    &&& result == Ok::<u64, E>(expr)
                    &&& final(errors)@ == old(errors)@
                },
            },
    {
        self.pop();
        match expanded {
            Ok(expr) => {
                if errors.len() != count {
                    match errors.pop() {
                        Some(error) => {
                            return Err(error);
                        },
                        None => {},
                    }
                }
                Ok(expr)
            },
            Err(error) => Err(error),
        }
    }
}

/// No module stands twice among those that are being imported.
pub open spec fn no_repeats(visited: Seq<Seq<char>>) -> bool {
    forall|i: int, j: int| 0 <= i < j < visited.len() ==> visited[i] != visited[j]
}

/// A module that was not visited is nowhere among those that are being imported.
proof fn lemma_first_visit(visited: Seq<Seq<char>>, filename: Seq<char>)
    ensures
        match first_visit(visited, filename) {
            Some(i) => i < visited.len() && visited[i as int] == filename && forall|k: int|
                0 <= k < i ==> visited[k] != filename,
            None => !visited.contains(filename),
        },
    decreases visited.len(),
{
    if visited.len() > 0 && visited[0] != filename {
        let rest = visited.drop_first();
        lemma_first_visit(rest, filename);
        match first_visit(rest, filename) {
            Some(i) => {
                assert(visited[i as int + 1] == rest[i as int]);
                assert forall|k: int| 0 <= k < i + 1 implies visited[k] != filename by {
                    if k > 0 {
                        assert(visited[k] == rest[k - 1]);
                    }
                }
            },
            None => {
                assert forall|k: int| 0 <= k < visited.len() implies visited[k] != filename by {
                    if k > 0 {
                        assert(visited[k] == rest[k - 1]);
                        assert(rest.contains(rest[k - 1]));
                    }
                }
            },
        }
    }
}

/// A module is never imported while it is being imported: none stands twice among those that are.
pub proof fn law_no_module_is_entered_twice(visited: Seq<Seq<char>>, filename: Seq<char>)
    requires
        no_repeats(visited),
        first_visit(visited, filename) is None,
    ensures
        no_repeats(visited.push(filename)),
{
    lemma_first_visit(visited, filename);
    assert forall|i: int, j: int| 0 <= i < j < visited.push(filename).len() implies visited.push(
        filename,
    )[i] != visited.push(filename)[j] by {
        assert(visited.contains(visited[i]));
    }
}

/// A module is refused as cyclic if and only if it is being imported, and the cycle that is
/// reported starts with it and ends with the module that wanted it.
pub proof fn law_cycles_are_real(visited: Seq<Seq<char>>, filename: Seq<char>)
    ensures
        first_visit(visited, filename) is Some <==> visited.contains(filename),
        first_visit(visited, filename) matches Some(i) ==> {
            let cycle = visited.skip(i as int);
            &&& cycle.len() > 0
            &&& cycle[0] == filename
            &&& cycle.last() == visited.last()
        },
{
    lemma_first_visit(visited, filename);
}

/// A file is read from the first directory in which it can be opened.
pub proof fn law_first_directory_wins(opens: Seq<bool>, i: int)
    requires
        0 <= i < opens.len(),
        opens[i],
        forall|k: int| 0 <= k < i ==> !opens[k],
    ensures
        first_open(opens, 0) == Some(i),
{
    lemma_first_open(opens, 0, i);
}

proof fn lemma_first_open(opens: Seq<bool>, from: int, i: int)
    requires
        0 <= from <= i < opens.len(),
        opens[i],
        forall|k: int| from <= k < i ==> !opens[k],
    ensures
        first_open(opens, from) == Some(i),
    decreases i - from,
{
    if from < i {
        lemma_first_open(opens, from + 1, i);
    }
}

/// What the host has to do with a module before its importer is done with it.
#[derive(Clone, Copy, Debug, PartialEq, Eq, Structural)]
pub enum Work {
    /// Compile the module and run it.
    LoadScript,
    /// Check the types of the module.
    Typecheck,
}

/// A module that was type checked: its expression, by the number under which the host holds it,
/// and its type.
#[derive(Debug)]
pub struct Checked {
    pub expr: u64,
    pub typ: Type,
}

/// Trait for what is done with a module whose file was read.
pub trait Importer: Sized {
    /// What the work of the host gives.
    type Output;

    /// What the host has to do.
    spec fn wanted(&self) -> Work;

    fn work(&self) -> (work: Work)
        ensures
            work == self.wanted(),
    ;

    /// `after` is the importer when it is done with a module.
    spec fn done(&self, modulename: Seq<char>, output: Self::Output, after: &Self) -> bool;

    /// The importer sets a global for a module.
    spec fn publishes(&self) -> bool;

    /// The globals when the importer is done with a module.
    spec fn published(
        modulename: Seq<char>,
        output: Self::Output,
        globals: Seq<GlobalModel>,
    ) -> Seq<GlobalModel>;

    /// Ends the import of a module when the host has done its work. `setting` says whether the
    /// environment takes a global that the importer sets; an error is handed on.
    fn import<E>(
        &mut self,
        modulename: &str,
        outcome: Result<Self::Output, E>,
        setting: Result<(), E>,
        globals: &mut Globals,
    ) -> (result: Result<(), E>)
        ensures
            match outcome {
                Ok(output) => {
                    &&& old(self).done(modulename@, output, final(self))
                    &&& if old(self).publishes() && setting is Err {
                        &&& result == setting
                        &&& final(globals)@ == old(globals)@
                    } else {
                        &&& result is Ok
                        &&& final(globals)@ == Self::published(modulename@, output, old(globals)@)
                    }
                },
                Err(error) => {
                    &&& result == Err::<(), E>(error)
                    &&& *final(self) == *old(self)
                    &&& final(globals)@ == old(globals)@
                },
            },
    ;
}

/// Loads every module.
#[derive(Clone, Copy, Debug)]
pub struct DefaultImporter;

impl Importer for DefaultImporter {
    type Output = ();

    open spec fn wanted(&self) -> Work {
        Work::LoadScript
    }

    fn work(&self) -> (work: Work) {
        Work::LoadScript
    }

    /// There is nothing to remember.
    open spec fn done(&self, modulename: Seq<char>, output: (), after: &DefaultImporter) -> bool {
        *after == *self
    }

    open spec fn publishes(&self) -> bool {
        false
    }

    /// Running the module has made it a global.
    open spec fn published(
        modulename: Seq<char>,
        output: (),
        globals: Seq<GlobalModel>,
    ) -> Seq<GlobalModel> {
        globals
    }

    fn import<E>(
        &mut self,
        modulename: &str,
        outcome: Result<(), E>,
        setting: Result<(), E>,
        globals: &mut Globals,
    ) -> (result: Result<(), E>) {
        outcome
    }
}

/// What a map from texts holds.
pub uninterp spec fn text_map(map: FnvHashMap<String, u64>) -> Map<Seq<char>, u64>;

/// Nothing.
pub open spec fn no_texts() -> Map<Seq<char>, u64> {
    Map::empty()
}

/// `HashMap::default` on a map hashed by `fnv`: a map that holds nothing.
#[verifier::external_body]
fn text_map_new() -> (map: FnvHashMap<String, u64>)
    ensures
        text_map(map) == no_texts(),
{
    FnvHashMap::default()
}

/// `HashMap::insert` on a map hashed by `fnv`: the text is then mapped to the number.
#[verifier::external_body]
fn text_map_insert(map: &mut FnvHashMap<String, u64>, key: String, value: u64)
    ensures
        text_map(*final(map)) == text_map(*old(map)).insert(key@, value),
{
    map.insert(key, value);
}

/// `HashMap::get` on a map hashed by `fnv`: the number that the text is mapped to.
#[verifier::external_body]
fn text_map_get(map: &FnvHashMap<String, u64>, key: &str) -> (value: Option<u64>)
    ensures
        value == (if text_map(*map).contains_key(key@) {
            Some(text_map(*map)[key@])
        } else {
            None
        }),
{
    map.get(key).copied()
}

/// Checks every module without running it, and remembers the expressions.
pub struct CheckImporter(FnvHashMap<String, u64>);

impl View for CheckImporter {
    type V = Map<Seq<char>, u64>;

    closed spec fn view(&self) -> Map<Seq<char>, u64> {
        text_map(self.0)
    }
}

impl Default for CheckImporter {
    fn default() -> (importer: CheckImporter)
        ensures
            importer@ == Map::<Seq<char>, u64>::empty(),
    {
        CheckImporter::new()
    }
}

impl CheckImporter {
    pub fn new() -> (importer: CheckImporter)
        ensures
            importer@ == Map::<Seq<char>, u64>::empty(),
    {
        CheckImporter(text_map_new())
    }

    /// The expression of a module that was checked.
    pub fn expression(&self, modulename: &str) -> (found: Option<u64>)
        ensures
            found == (if self@.contains_key(modulename@) {
                Some(self@[modulename@])
            } else {
                None
            }),
    {
        text_map_get(&self.0, modulename)
    }
}

impl Importer for CheckImporter {
    type Output = Checked;

    open spec fn wanted(&self) -> Work {
        Work::Typecheck
    }

    fn work(&self) -> (work: Work) {
        Work::Typecheck
    }

    /// The expression is remembered under the name of the module.
    open spec fn done(&self, modulename: Seq<char>, output: Checked, after: &CheckImporter) -> bool {
        after@ == self@.insert(modulename, output.expr)
    }

    open spec fn publishes(&self) -> bool {
        true
    }

    /// There is a global, so that the type of the module can be looked up.
    open spec fn published(
        modulename: Seq<char>,
        output: Checked,
        globals: Seq<GlobalModel>,
    ) -> Seq<GlobalModel> {
        globals.push(
            GlobalModel { name: modulename, typ: output.typ.model(), value: Val::Int(0) },
        )
    }

    fn import<E>(
        &mut self,
        modulename: &str,
        outcome: Result<Checked, E>,
        setting: Result<(), E>,
        globals: &mut Globals,
    ) -> (result: Result<(), E>)
        ensures
            outcome matches Ok(checked) ==> final(self)@ == old(self)@.insert(
                modulename@,
                checked.expr,
            ),
            outcome matches Ok(checked) ==> (setting is Ok ==> {
                &&& final(globals)@.len() == old(globals)@.len() + 1
                &&& final(globals)@.drop_last() == old(globals)@
                &&& final(globals)@.last().name == modulename@
                &&& final(globals)@.last().typ == checked.typ.model()
                &&& final(globals)@.last().value == Val::Int(0)
            }),
    {
        match outcome {
            Ok(checked) => {
                text_map_insert(&mut self.0, modulename.to_owned(), checked.expr);
                let result = globals.set_global(
                    modulename.to_owned(),
                    checked.typ,
                    Value::Int(0),
                    setting,
                );
                assert(result is Ok ==> globals@.drop_last() =~= old(globals)@);
                result
            },
            Err(error) => Err(error),
        }
    }
}

/// Why an import failed: in the macro itself, or in what the macro has others do.
#[derive(Debug)]
pub enum Refusal<E> {
    Import(Error),
    Macro(E),
}

/// How far the import of a module has come. `span` is where the file is named.
#[derive(Debug)]
pub enum Phase {
    /// It is asked which module the file holds.
    Asking { filename: String, span: Span },
    /// The file of the module is read.
    Reading { filename: String, modulename: String, span: Span },
    /// The macros in the file are expanded.
    Expanding {
        filename: String,
        modulename: String,
        /// The text of the file.
        contents: String,
        /// The file is compiled with the implicit prelude.
        implicit_prelude: bool,
        /// How many errors there were before.
        count: usize,
        span: Span,
    },
    /// The importer has the host do its work.
    Working { modulename: String, span: Span },
}

/// What the host has done.
#[derive(Debug)]
pub enum Event<E, O> {
    /// The name of the module that the file holds.
    Named(String),
    /// The text of the file, or why it could not be read.
    Read(Result<String, Error>),
    /// The expression that is left when the macros are expanded, by the number under which the
    /// host holds it, or why they could not be.
    Expanded(Result<u64, E>),
    /// What the work for the importer gave, and whether the environment takes a global for the
    /// module.
    Worked(Result<O, E>, Result<(), E>),
}

/// What the importer has the host do, with which module.
#[derive(Debug)]
pub struct Job {
    pub work: Work,
    pub modulename: String,
    /// The text of the file.
    pub input: String,
    /// The expression of the module, by the number under which the host holds it.
    pub expr: u64,
    /// The module is compiled with the implicit prelude.
    pub implicit_prelude: bool,
}

/// What the host has to do next.
#[derive(Debug)]
pub enum Action<E> {
    /// Say which module the file holds.
    Ask(Phase),
    /// Read the file of the module.
    ReadFile(Phase),
    /// Expand the macros in the file.
    Expand(Phase),
    /// Do the work that the importer wants.
    Work(Phase, Job),
    /// The macro stands for the global of that name, in that place.
    Refer(String, Span),
    /// Give up.
    Fail(Refusal<E>),
}

/// The event is one that the phase waits for.
pub open spec fn awaited<E, O>(phase: Phase, event: Event<E, O>) -> bool {
    match phase {
        Phase::Asking { .. } => event is Named,
        Phase::Reading { .. } => event is Read,
        Phase::Expanding { .. } => event is Expanded,
        Phase::Working { .. } => event is Worked,
    }
}

/// The macro stands for this module, in this place.
pub open spec fn refers<E>(action: Action<E>, modulename: Seq<char>, span: Span) -> bool {
    action matches Action::Refer(name, place) && name@ == modulename && place == span
}

/// What has to be done when it is known which module the file holds and whether it exists.
pub open spec fn asked<E>(
    visited: Seq<Seq<char>>,
    filename: Seq<char>,
    span: Span,
    modulename: Seq<char>,
    exists: bool,
    action: Action<E>,
) -> bool {
    if exists {
        refers(action, modulename, span)
    } else {
        match first_visit(visited, filename) {
            Some(i) => {
                &&& action matches Action::Fail(Refusal::Import(Error::CyclicDependency(module, cycle)))
                &&& module@ == filename
                &&& text::texts_of(cycle@) == visited.skip(i as int)
            },
            None => {
                &&& action matches Action::ReadFile(
                    Phase::Reading { filename: file, modulename: name, span: place },
                )
                &&& file@ == filename
                &&& name@ == modulename
                &&& place == span
            },
        }
    }
}

/// What has to be done when the file was read.
pub open spec fn read<E>(
    filename: String,
    modulename: String,
    span: Span,
    count: nat,
    outcome: Result<String, Error>,
    action: Action<E>,
) -> bool {
    match outcome {
        Ok(contents) => action == Action::<E>::Expand(
            Phase::Expanding {
                filename,
                modulename,
                contents,
                implicit_prelude: takes_prelude(contents@),
                count: count as usize,
                span,
            },
        ),
        Err(error) => action == Action::<E>::Fail(Refusal::Import(error)),
    }
}

/// The importer is to work on this module.
pub open spec fn works<E>(
    work: Work,
    modulename: Seq<char>,
    contents: String,
    implicit_prelude: bool,
    expr: u64,
    span: Span,
    action: Action<E>,
) -> bool {
    &&& action matches Action::Work(Phase::Working { modulename: name, span: place }, job)
    &&& name@ == modulename
    &&& place == span
    &&& job.work == work
    &&& job.modulename@ == modulename
    &&& job.input == contents
    &&& job.expr == expr
    &&& job.implicit_prelude == implicit_prelude
}

/// The modules that an import has itself added to those that are being imported.
pub open spec fn entered(phase: Phase) -> Seq<Seq<char>> {
    match phase {
        Phase::Asking { .. } => Seq::empty(),
        Phase::Reading { filename, .. } => seq![filename@],
        Phase::Expanding { filename, .. } => seq![filename@],
        Phase::Working { .. } => Seq::empty(),
    }
}

/// The modules that an import has still added to those that are being imported when this comes
/// next: none, where it has ended.
pub open spec fn still_entered<E>(action: Action<E>) -> Seq<Seq<char>> {
    match action {
        Action::Ask(phase) => entered(phase),
        Action::ReadFile(phase) => entered(phase),
        Action::Expand(phase) => entered(phase),
        Action::Work(phase, _) => entered(phase),
        Action::Refer(_, _) => Seq::empty(),
        Action::Fail(_) => Seq::empty(),
    }
}

/// A step of an import changes nothing but what the import itself has added to the modules that
/// are being imported.
pub open spec fn keeps_others<E>(
    phase: Phase,
    visited: Seq<Seq<char>>,
    action: Action<E>,
    after: Seq<Seq<char>>,
) -> bool {
    forall|others: Seq<Seq<char>>|
        visited == #[trigger] (others + entered(phase)) ==> after == others + still_entered(action)
}

impl<I: Importer> Import<I> {
    /// Starts to import the module that the arguments of the macro name.
    pub fn expand<E>(&self, args: &Vec<Argument>) -> (action: Action<E>)
        ensures
            match named_file(args@) {
                Ok(file) => {
                    &&& action matches Action::Ask(Phase::Asking { filename, span })
                    &&& filename@ == file.0
                    &&& span == file.1
                },
                Err(text) => action matches Action::Fail(Refusal::Import(error)) && is_message(
                    error,
                    text,
                ),
            },
    {
        match check_arguments(args) {
            Ok((filename, span)) => Action::Ask(Phase::Asking { filename, span }),
            Err(error) => Action::Fail(Refusal::Import(error)),
        }
    }

    /// Goes on when the host has done what it was asked for. `errors` holds all the errors of
    /// macros so far.
    pub fn advance<E>(
        &mut self,
        phase: Phase,
        event: Event<E, I::Output>,
        state: &mut State,
        errors: &mut Vec<E>,
        globals: &mut Globals,
    ) -> (action: Action<E>)
        requires
            awaited(phase, event),
        ensures
            final(self).paths == old(self).paths,
            !(phase is Working) ==> *final(self) == *old(self) && final(globals)@ == old(globals)@,
            !(phase is Expanding) ==> final(errors)@ == old(errors)@,
            keeps_others(
                phase,
                text::texts_of(old(state).visited@),
                action,
                text::texts_of(final(state).visited@),
            ),
            match (phase, event) {
                (Phase::Asking { filename, span }, Event::Named(modulename)) => {
                    let visited = text::texts_of(old(state).visited@);
                    &&& asked(
                        visited,
                        filename@,
                        span,
                        modulename@,
                        globals::defines(old(globals)@, modulename@),
                        action,
                    )
                    &&& text::texts_of(final(state).visited@) == visited + still_entered(action)
                },
                (Phase::Reading { filename, modulename, span }, Event::Read(outcome)) => {
                    &&& read(
                        filename,
                        modulename,
                        span,
                        old(errors)@.len(),
                        outcome,
                        action,
                    )
                    &&& final(state).visited@ == (if outcome is Ok {
                        old(state).visited@
                    } else {
                        without_last(old(state).visited@)
                    })
                },
                (
                    Phase::Expanding { filename, modulename, contents, implicit_prelude, count, span },
                    Event::Expanded(expanded),
                ) => {
                    &&& final(state).visited@ == without_last(old(state).visited@)
                    &&& match expanded {
                        Err(error) => {
                            &&& action == Action::<E>::Fail(Refusal::Macro(error))
                            &&& final(errors)@ == old(errors)@
                        },
                        Ok(expr) => if old(errors)@.len() != count && old(errors)@.len() > 0 {
                            &&& action == Action::<E>::Fail(Refusal::Macro(old(errors)@.last()))
                            &&& final(errors)@ == old(errors)@.drop_last()
                        } else {
                            &&& works(
                                old(self).importer.wanted(),
                                modulename@,
                                contents,
                                implicit_prelude,
                                expr,
                                span,
                                action,
                            )
                            &&& final(errors)@ == old(errors)@
                        },
                    }
                },
                (Phase::Working { modulename, span }, Event::Worked(outcome, setting)) => {
                    &&& *final(state) == *old(state)
                    &&& match outcome {
                        Ok(output) => {
                            &&& old(self).importer.done(modulename@, output, &final(self).importer)
                            &&& match setting {
                                Err(error) if old(self).importer.publishes() => {
                                    &&& action == Action::<E>::Fail(Refusal::Macro(error))
                                    &&& final(globals)@ == old(globals)@
                                },
                                _ => {
                                    &&& refers(action, modulename@, span)
                                    &&& final(globals)@ == I::published(
                                        modulename@,
                                        output,
                                        old(globals)@,
                                    )
                                },
                            }
                        },
                        Err(error) => {
                            &&& action == Action::<E>::Fail(Refusal::Macro(error))
                            &&& *final(self) == *old(self)
                            &&& final(globals)@ == old(globals)@
                        },
                    }
                },
                _ => false,
            },
    {
        let ghost visited = text::texts_of(state.visited@);
        proof {
            if state.visited@.len() > 0 {
                lemma_without_last(state.visited@);
            }
            assert forall|others: Seq<Seq<char>>|
                visited == #[trigger] (others + entered(phase)) && entered(phase).len() > 0 implies {
                &&& visited.len() > 0
                &&& visited.drop_last() == others
            } by {
                assert(visited.drop_last() =~= others);
            }
            assert forall|others: Seq<Seq<char>>| #[trigger] (others + Seq::<Seq<char>>::empty())
                == others by {
                assert(others + Seq::<Seq<char>>::empty() =~= others);
            }
        }
        match (phase, event) {
            (Phase::Asking { filename, span }, Event::Named(modulename)) => {
                let exists = globals.global_exists(modulename.as_str());
                match state.enter(filename.as_str(), exists) {
                    Ok(Expansion::Refer) => Action::Refer(modulename, span),
                    Ok(Expansion::ReadFile) => {
                        assert(visited.push(filename@) =~= visited + seq![filename@]);
                        Action::ReadFile(Phase::Reading { filename, modulename, span })
                    },
                    Err(error) => Action::Fail(Refusal::Import(error)),
                }
            },
            (Phase::Reading { filename, modulename, span }, Event::Read(outcome)) => match outcome {
                Ok(contents) => {
                    let implicit_prelude = implicit_prelude(contents.as_str());
                    let count: usize = errors.len();
                    Action::Expand(
                        Phase::Expanding {
                            filename,
                            modulename,
                            contents,
                            implicit_prelude,
                            count,
                            span,
                        },
                    )
                },
                Err(error) => {
                    state.pop();
                    Action::Fail(Refusal::Import(error))
                },
            },
            (
                Phase::Expanding { filename, modulename, contents, implicit_prelude, count, span },
                Event::Expanded(expanded),
            ) => match state.leave(expanded, count, errors) {
                Ok(expr) => {
                    let job = Job {
                        work: self.importer.work(),
                        modulename: modulename.clone(),
                        input: contents,
                        expr,
                        implicit_prelude,
                    };
                    Action::Work(Phase::Working { modulename, span }, job)
                },
                Err(error) => Action::Fail(Refusal::Macro(error)),
            },
            (Phase::Working { modulename, span }, Event::Worked(outcome, setting)) => {
                match self.importer.import(modulename.as_str(), outcome, setting, globals) {
                    Ok(_) => Action::Refer(modulename, span),
                    Err(error) => Action::Fail(Refusal::Macro(error)),
                }
            },
            _ => vstd::pervasive::unreached(),
        }
    }
}

proof fn lemma_without_last(visited: Seq<String>)
    requires
        visited.len() > 0,
    ensures
        text::texts_of(without_last(visited)) == text::texts_of(visited).drop_last(),
{
    assert(text::texts_of(without_last(visited)) =~= text::texts_of(visited).drop_last());
}

/// A module that was entered and then left is no longer being imported: the modules that were
/// being imported before it are those that are afterwards.
pub proof fn law_entering_and_leaving_cancel(visited: Seq<Seq<char>>, filename: Seq<char>)
    requires
        first_visit(visited, filename) is None,
    ensures
        visited.push(filename).drop_last() == visited,
{
    assert(visited.push(filename).drop_last() =~= visited);
}

/// A step of an import: what it had come to, what comes next, and the modules that were being
/// imported before and after.
pub struct Step<E> {
    pub phase: Phase,
    pub visited: Seq<Seq<char>>,
    pub action: Action<E>,
    pub after: Seq<Seq<char>>,
}

/// The phase that goes on when the host has done what it was asked for.
pub open spec fn next_phase<E>(action: Action<E>) -> Option<Phase> {
    match action {
        Action::Ask(phase) => Some(phase),
        Action::ReadFile(phase) => Some(phase),
        Action::Expand(phase) => Some(phase),
        Action::Work(phase, _) => Some(phase),
        Action::Refer(_, _) => None,
        Action::Fail(_) => None,
    }
}

/// The steps of one import, from its start on. What the host does between two of them leaves the
/// modules that are being imported as they are.
pub open spec fn is_import<E>(steps: Seq<Step<E>>) -> bool {
    &&& steps.len() > 0
    &&& steps[0].phase is Asking
    &&& forall|i: int|
        #![trigger steps[i]]
        0 <= i < steps.len() ==> keeps_others(
            steps[i].phase,
            steps[i].visited,
            steps[i].action,
            steps[i].after,
        )
    &&& forall|i: int|
        #![trigger steps[i]]
        0 < i < steps.len() ==> next_phase(steps[i - 1].action) == Some(steps[i].phase)
            && steps[i].visited == steps[i - 1].after
}

proof fn lemma_import_keeps_others<E>(steps: Seq<Step<E>>, i: int)
    requires
        is_import(steps),
        0 <= i < steps.len(),
    ensures
        steps[i].after == steps[0].visited + still_entered(steps[i].action),
    decreases i,
{
    let others = steps[0].visited;
    if i == 0 {
        assert(others =~= others + entered(steps[0].phase));
    } else {
        lemma_import_keeps_others(steps, i - 1);
        let before = steps[i - 1];
        assert(still_entered(before.action) == entered(steps[i].phase));
        assert(steps[i].visited == others + entered(steps[i].phase));
    }
}

/// However an import ends, by its module or by a failure, the modules that are being imported
/// are afterwards those that were before it began. So what is being imported inside another
/// import leaves that one's modules as they are.
pub proof fn law_imports_restore_visited<E>(steps: Seq<Step<E>>)
    requires
        is_import(steps),
        next_phase(steps.last().action) is None,
    ensures
        steps.last().after == steps[0].visited,
{
    lemma_import_keeps_others(steps, steps.len() - 1);
    assert(steps.last().after =~= steps[0].visited);
}

/// A file that could not be imported is not reported as a cycle later: where it was not being
/// imported before, it is not afterwards.
pub proof fn law_failures_leave_no_cycle<E>(steps: Seq<Step<E>>, filename: Seq<char>)
    requires
        is_import(steps),
        steps.last().action is Fail,
        first_visit(steps[0].visited, filename) is None,
    ensures
        first_visit(steps.last().after, filename) is None,
{
    law_imports_restore_visited(steps);
}

} // verus!
