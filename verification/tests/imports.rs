use gluon::globals::Globals;
use gluon::import::{
    check_arguments, contents, find_std_file, implicit_prelude, search, Action, Argument,
    CheckImporter, Checked, DefaultImporter, Error, Event, Import, Importer, Phase, Reading,
    Refusal, Span, State, Work,
};
use gluon::text::Show;
use gluon::types::{BuiltinType, Type};
use gluon::value::Value;

fn literal(name: &str) -> Argument {
    Argument::StringLiteral(name.to_string(), SPAN)
}

const SPAN: Span = Span { start: 7, end: 14 };

fn asking(filename: &str) -> Phase {
    Phase::Asking {
        filename: filename.to_string(),
        span: SPAN,
    }
}

fn expanding(count: usize) -> Phase {
    Phase::Expanding {
        filename: "m.glu".to_string(),
        modulename: "m".to_string(),
        contents: "1".to_string(),
        implicit_prelude: true,
        count,
        span: SPAN,
    }
}

fn named(modulename: &str) -> Event<String, ()> {
    Event::Named(modulename.to_string())
}

fn visited(names: &[&str]) -> State {
    State {
        visited: names.iter().map(|n| n.to_string()).collect(),
    }
}

#[test]
fn messages_of_import_errors() {
    let cyclic = Error::CyclicDependency(
        "a".to_string(),
        vec!["a".to_string(), "b".to_string()],
    );
    assert_eq!(
        cyclic.show(),
        "Module 'a' occurs in a cyclic dependency: `a -> b -> a`"
    );
    assert_eq!(cyclic.description(), "Cyclic dependency");
    let message = Error::String("text".to_string());
    assert_eq!(message.show(), "text");
    assert_eq!(message.description(), "text");
    let io = Error::IO("denied".to_string());
    assert_eq!(io.show(), "denied");
    assert_eq!(io.description(), "denied");
    let alone = Error::CyclicDependency("m".to_string(), vec![]);
    assert_eq!(
        alone.show(),
        "Module 'm' occurs in a cyclic dependency: `m`"
    );
}

#[test]
fn the_standard_library_comes_first() {
    let import = Import::new(DefaultImporter);
    assert!(matches!(import.read_file("std/prelude.glu"), Reading::Standard(0)));
    assert!(matches!(import.read_file("std/types.glu"), Reading::Standard(1)));
    assert!(matches!(import.read_file("std/writer.glu"), Reading::Standard(18)));
    assert!(matches!(import.read_file("std/prelude"), Reading::Open(0)));
    assert_eq!(find_std_file("std/map.glu"), Some(9));
    assert_eq!(find_std_file("prelude.glu"), None);
}

#[test]
fn directories_are_tried_in_order() {
    let mut import = Import::new(DefaultImporter);
    assert_eq!(import.paths, vec![".".to_string()]);
    import.add_path("lib".to_string());
    assert_eq!(import.paths, vec![".".to_string(), "lib".to_string()]);
    assert!(matches!(import.read_file("m.glu"), Reading::Open(0)));
    assert!(matches!(import.opened("m.glu", 0, true), Reading::Read(0)));
    assert!(matches!(import.opened("m.glu", 0, false), Reading::Open(1)));
    match import.opened("m.glu", 1, false) {
        Reading::Failed(err) => assert_eq!(err.show(), "Could not find file 'm.glu'"),
        _ => panic!("expected a failure"),
    }
    assert!(matches!(
        search(&import, "m.glu", &vec![false, true]),
        Reading::Read(1)
    ));
    assert!(matches!(
        search(&import, "m.glu", &vec![true, true]),
        Reading::Read(0)
    ));
    assert!(matches!(
        search(&import, "m.glu", &vec![false, false]),
        Reading::Failed(_)
    ));
}

#[test]
fn texts_of_files() {
    assert_eq!(contents(Ok("x".to_string())).unwrap(), "x");
    assert!(matches!(contents(Err("io".to_string())), Err(Error::IO(m)) if m == "io"));
    assert!(implicit_prelude("let x = 1"));
    assert!(implicit_prelude(""));
    assert!(implicit_prelude(" //@NO-IMPLICIT-PRELUDE"));
    assert!(!implicit_prelude("//@NO-IMPLICIT-PRELUDE\nlet x = 1"));
}

#[test]
fn arguments_of_the_macro() {
    assert_eq!(check_arguments(&vec![literal("m.glu")]).unwrap(), ("m.glu".to_string(), SPAN));
    let count = "Expected import to get 1 argument";
    assert_eq!(check_arguments(&vec![]).unwrap_err().show(), count);
    let two = vec![literal("a"), literal("b")];
    assert_eq!(check_arguments(&two).unwrap_err().show(), count);
    assert_eq!(
        check_arguments(&vec![Argument::Other(SPAN)]).unwrap_err().show(),
        "Expected a string literal to import"
    );
}

#[test]
fn existing_modules_are_referred_to() {
    let mut import = Import::new(DefaultImporter);
    let mut state = visited(&["m.glu"]);
    let mut errors: Vec<String> = vec![];
    let mut globals = Globals::new();
    let set = globals.set_global("m".to_string(), Type::hole(), Value::Int(0), Ok::<(), String>(()));
    assert_eq!(set, Ok(()));
    let phase = match import.expand::<String>(&vec![literal("m.glu")]) {
        Action::Ask(phase) => phase,
        _ => panic!("expected a question"),
    };
    let action = import.advance(phase, named("m"), &mut state, &mut errors, &mut globals);
    assert!(matches!(action, Action::Refer(name, span) if name == "m" && span == SPAN));
    assert_eq!(state.visited, vec!["m.glu"]);
}

#[test]
fn cycles_are_reported() {
    let mut import = Import::new(DefaultImporter);
    let mut state = visited(&["main.glu", "a.glu", "b.glu"]);
    let mut errors: Vec<String> = vec![];
    let mut globals = Globals::new();
    let phase = asking("a.glu");
    let action = import.advance(phase, named("a"), &mut state, &mut errors, &mut globals);
    match action {
        Action::Fail(Refusal::Import(err)) => assert_eq!(
            err.show(),
            "Module 'a.glu' occurs in a cyclic dependency: `a.glu -> b.glu -> a.glu`"
        ),
        _ => panic!("expected a cycle"),
    }
    assert_eq!(state.visited.len(), 3);
}

#[test]
fn a_module_is_imported_step_by_step() {
    let mut import = Import::new(CheckImporter::new());
    let mut state = visited(&["main.glu"]);
    let mut errors: Vec<String> = vec!["earlier".to_string()];
    let mut globals = Globals::new();
    let event = Event::Named("m".to_string());
    let action = import.advance(asking("m.glu"), event, &mut state, &mut errors, &mut globals);
    let phase = match action {
        Action::ReadFile(phase) => phase,
        _ => panic!("expected to read"),
    };
    assert_eq!(state.visited, vec!["main.glu", "m.glu"]);
    let event = Event::Read(Ok("//@NO-IMPLICIT-PRELUDE".to_string()));
    let action = import.advance(phase, event, &mut state, &mut errors, &mut globals);
    let phase = match action {
        Action::Expand(phase) => phase,
        _ => panic!("expected to expand"),
    };
    match phase {
        Phase::Expanding {
            ref contents,
            implicit_prelude,
            count,
            ..
        } => {
            assert_eq!(contents, "//@NO-IMPLICIT-PRELUDE");
            assert!(!implicit_prelude);
            assert_eq!(count, 1);
        }
        _ => panic!("expected to expand"),
    }
    let event = Event::Expanded(Ok(41));
    let action = import.advance(phase, event, &mut state, &mut errors, &mut globals);
    let phase = match action {
        Action::Work(phase, job) => {
            assert_eq!(job.work, Work::Typecheck);
            assert_eq!(job.modulename, "m");
            assert_eq!(job.input, "//@NO-IMPLICIT-PRELUDE");
            assert_eq!(job.expr, 41);
            assert!(!job.implicit_prelude);
            phase
        }
        _ => panic!("expected work"),
    };
    assert_eq!(state.visited, vec!["main.glu"]);
    let checked = Checked {
        expr: 99,
        typ: Type::builtin(BuiltinType::Int),
    };
    let event = Event::Worked(Ok(checked), Ok(()));
    let action = import.advance(phase, event, &mut state, &mut errors, &mut globals);
    assert!(matches!(action, Action::Refer(name, span) if name == "m" && span == SPAN));
    assert_eq!(import.importer.expression("m"), Some(99));
    assert_eq!(import.importer.expression("n"), None);
    assert!(globals.global_exists("m"));
    assert!(globals.entries[0].value.same(&Value::Int(0)));
    assert_eq!(errors, vec!["earlier"]);
}

#[test]
fn failures_stop_the_import() {
    let mut import = Import::new(DefaultImporter);
    let mut errors: Vec<String> = vec!["first".to_string(), "second".to_string()];
    let mut globals = Globals::new();
    let mut state = visited(&["main.glu", "m.glu"]);
    let reading = Phase::Reading {
        filename: "m.glu".to_string(),
        modulename: "m".to_string(),
        span: SPAN,
    };
    let event = Event::Read(Err(Error::IO("denied".to_string())));
    let action = import.advance(reading, event, &mut state, &mut errors, &mut globals);
    assert!(matches!(action, Action::Fail(Refusal::Import(Error::IO(_)))));
    assert_eq!(state.visited, vec!["main.glu"]);
    let mut state = visited(&["main.glu", "m.glu"]);
    let event = Event::Expanded(Ok(0));
    let action = import.advance(expanding(1), event, &mut state, &mut errors, &mut globals);
    assert!(matches!(action, Action::Fail(Refusal::Macro(err)) if err == "second"));
    assert_eq!(errors, vec!["first"]);
    assert_eq!(state.visited, vec!["main.glu"]);
    let mut state = visited(&["main.glu", "m.glu"]);
    let event = Event::Expanded(Err("syntax".to_string()));
    let action = import.advance(expanding(1), event, &mut state, &mut errors, &mut globals);
    assert!(matches!(action, Action::Fail(Refusal::Macro(err)) if err == "syntax"));
    assert_eq!(errors, vec!["first"]);
    assert_eq!(state.visited, vec!["main.glu"]);
    let working = Phase::Working {
        modulename: "m".to_string(),
        span: SPAN,
    };
    let event = Event::Worked(Err("load".to_string()), Ok(()));
    let action = import.advance(working, event, &mut state, &mut errors, &mut globals);
    assert!(matches!(action, Action::Fail(Refusal::Macro(err)) if err == "load"));
    assert_eq!(state.visited, vec!["main.glu"]);
}

#[test]
fn a_global_that_is_refused_stops_the_import() {
    let mut import = Import::new(CheckImporter::new());
    let mut state = visited(&["main.glu"]);
    let mut errors: Vec<String> = vec![];
    let mut globals = Globals::new();
    let working = Phase::Working {
        modulename: "m".to_string(),
        span: SPAN,
    };
    let checked = Checked {
        expr: 5,
        typ: Type::hole(),
    };
    let event = Event::Worked(Ok(checked), Err("taken".to_string()));
    let action = import.advance(working, event, &mut state, &mut errors, &mut globals);
    assert!(matches!(action, Action::Fail(Refusal::Macro(err)) if err == "taken"));
    assert_eq!(import.importer.expression("m"), Some(5));
    assert!(globals.entries.is_empty());
}

#[test]
fn a_missing_file_is_missing_again() {
    let mut import = Import::new(DefaultImporter);
    let mut state = State::new();
    let mut errors: Vec<String> = vec![];
    let mut globals = Globals::new();
    for _ in 0..2 {
        let phase = match import.expand::<String>(&vec![literal("x.glu")]) {
            Action::Ask(phase) => phase,
            _ => panic!("expected a question"),
        };
        let action = import.advance(phase, named("x"), &mut state, &mut errors, &mut globals);
        let phase = match action {
            Action::ReadFile(phase) => phase,
            _ => panic!("expected to read"),
        };
        let failed = match search(&import, "x.glu", &vec![false]) {
            Reading::Failed(err) => err,
            _ => panic!("expected a failure"),
        };
        let event = Event::Read(Err(failed));
        match import.advance(phase, event, &mut state, &mut errors, &mut globals) {
            Action::Fail(Refusal::Import(err)) => {
                assert_eq!(err.show(), "Could not find file 'x.glu'")
            }
            _ => panic!("expected a failure"),
        }
        assert!(state.visited.is_empty());
    }
}

#[test]
fn importers_say_what_they_want() {
    let mut globals = Globals::new();
    let mut default = DefaultImporter;
    assert_eq!(default.work(), Work::LoadScript);
    assert_eq!(default.import::<String>("m", Ok(()), Ok(()), &mut globals), Ok(()));
    assert!(globals.entries.is_empty());
    let failed = default.import("m", Err("no".to_string()), Ok(()), &mut globals);
    assert_eq!(failed, Err("no".to_string()));
    let mut check = CheckImporter::default();
    assert_eq!(check.work(), Work::Typecheck);
    for expr in [1, 2] {
        let checked = Checked {
            expr,
            typ: Type::hole(),
        };
        assert_eq!(check.import::<String>("m", Ok(checked), Ok(()), &mut globals), Ok(()));
    }
    assert_eq!(check.expression("m"), Some(2));
    assert_eq!(globals.entries.len(), 2);
    let checked = Checked {
        expr: 3,
        typ: Type::hole(),
    };
    let refused = Err("taken".to_string());
    assert_eq!(check.import("n", Ok(checked), refused.clone(), &mut globals), refused);
    assert_eq!(check.expression("n"), Some(3));
    assert!(!globals.global_exists("n"));
    assert_eq!(default.import("n", Ok(()), refused, &mut globals), Ok(()));
}
