use gluon::rewrite::gather_generics;
use gluon::substitution::{occurs, Error, Substitution};
use gluon::symbol::Symbol;
use gluon::type_cache::TypeField;
use gluon::types::{BuiltinType, Type, TypeOp};
use gluon::unify::equivalent;
use std::sync::Arc;

fn symbol(id: u64, name: &str) -> Symbol {
    Symbol::new(id, name.to_string())
}

fn int_type() -> Type {
    Type::builtin(BuiltinType::Int)
}

fn string_type() -> Type {
    Type::builtin(BuiltinType::String)
}

fn app(parts: Vec<Type>) -> Type {
    Type::app(parts)
}

fn ident(id: u64, name: &str) -> Type {
    Type::ident(symbol(id, name))
}

fn subs() -> Substitution<Type> {
    Substitution::new(())
}

fn is_var(typ: &Type, id: u32) -> bool {
    matches!(typ, Type::Variable(v) if *v == id)
}

#[test]
fn new_variables_are_numbered_and_unknown() {
    let mut s = subs();
    assert_eq!(s.var_id(), 0);
    let a = s.new_var();
    let b = s.new_var();
    assert!(is_var(&a, 0));
    assert!(is_var(&b, 1));
    assert_eq!(s.var_id(), 2);
    assert!(s.find_type_for_var(0).is_none());
    assert!(s.find_type_for_var(1).is_none());
    assert!(s.find_type_for_var(2).is_none());
    assert!(is_var(s.real_type(&a), 0));
    assert_eq!(s.get_level(0), 0);
    assert_eq!(s.get_level(1), 1);
}

#[test]
fn default_is_empty() {
    let s: Substitution<Type> = Default::default();
    assert_eq!(s.var_id(), 0);
}

#[test]
fn union_of_two_variables_keeps_the_lower() {
    let mut s = subs();
    let a = s.new_var();
    let b = s.new_var();
    assert!(s.union(&(), &1, &a).unwrap().is_none());
    assert!(is_var(s.real_type(&b), 0));
    assert!(is_var(s.real_type(&a), 0));
    assert_eq!(s.get_level(1), 0);
}

#[test]
fn union_with_a_type_binds_the_variable() {
    let mut s = subs();
    let a = s.new_var();
    let b = s.new_var();
    s.union(&(), &0, &b).unwrap();
    assert!(s.union(&(), &0, &int_type()).unwrap().is_none());
    assert!(s.real_type(&a).same(&int_type()));
    assert!(s.real_type(&b).same(&int_type()));
}

#[test]
fn union_with_itself_changes_nothing() {
    let mut s = subs();
    let a = s.new_var();
    assert!(s.union(&(), &0, &a).unwrap().is_none());
    assert!(s.find_type_for_var(0).is_none());
}

#[test]
fn a_repeated_union_changes_nothing() {
    let mut s = subs();
    let a = s.new_var();
    let b = s.new_var();
    let array = Type::array(a);
    for _ in 0..2 {
        assert!(s.union(&(), &1, &array).unwrap().is_none());
        assert!(s.real_type(&b).same(&array));
        assert_eq!(s.var_id(), 2);
        assert_eq!(s.get_level(0), 0);
        assert_eq!(s.get_level(1), 1);
    }
}

#[test]
fn levels_are_not_above_their_variables() {
    let mut s = subs();
    let vars: Vec<Type> = (0..4).map(|_| s.new_var()).collect();
    s.union(&(), &3, &vars[1]).unwrap();
    s.union(&(), &2, &vars[3]).unwrap();
    for id in 1..4 {
        assert_eq!(s.get_level(id), 1);
    }
    s.union(&(), &1, &vars[0]).unwrap();
    for id in 0..4 {
        assert_eq!(s.get_level(id), 0);
    }
}

#[test]
fn constraints_can_be_changed() {
    let mut s = subs();
    s.new_constrained_var(Some((symbol(7, "Num"), Arc::new(vec![string_type()]))));
    s.new_constrained_var(Some((symbol(7, "Num"), Arc::new(vec![string_type()]))));
    assert!(s.resolve_constraints(&(), &0, &int_type()).is_err());
    s.insert_constraint(0, 7, Arc::new(vec![string_type(), int_type()]));
    s.insert_constraint(0, 8, Arc::new(vec![int_type()]));
    let found = s.get_constraints(0).unwrap();
    assert_eq!(found.len(), 2);
    assert_eq!(found[&7].len(), 2);
    assert!(s.resolve_constraints(&(), &0, &int_type()).unwrap().is_some());
    assert_eq!(s.get_constraints(1).unwrap()[&7].len(), 1);
    s.remove_constraint(0, 7);
    s.remove_constraint(0, 9);
    let found = s.get_constraints(0).unwrap();
    assert_eq!(found.len(), 1);
    assert_eq!(found[&8].len(), 1);
    s.remove_constraint(0, 8);
    assert!(s.get_constraints(0).is_none());
}

#[test]
fn generics_are_gathered_with_their_names() {
    let a = Type::generic(symbol(3, "a"));
    let b = Type::generic(symbol(4, "b"));
    let inner = Type::quantify(vec![symbol(5, "c")], Type::generic(symbol(5, "c")));
    let typ = Type::function(vec![b, a.clone(), inner], a);
    let mut params = vec![symbol(9, "z")];
    gather_generics(&mut params, &typ);
    let names: Vec<&str> = params.iter().map(|param| param.name.as_str()).collect();
    assert_eq!(names, vec!["z", "b", "a"]);
    let ids: Vec<u64> = params.iter().map(|param| param.id).collect();
    assert_eq!(ids, vec![9, 4, 3]);
}

#[test]
fn names_stay_when_variables_are_replaced() {
    let mut s = subs();
    let a = s.new_var();
    s.union(&(), &0, &ident(3, "Point")).unwrap();
    let found = s.set_type(app(vec![ident(4, "Box"), a]));
    match found {
        Type::Node(TypeOp::App, args) => {
            assert_eq!(args[0].alias_ident().unwrap().name, "Box");
            assert_eq!(args[1].alias_ident().unwrap().name, "Point");
        }
        _ => panic!("expected an application"),
    }
}

#[test]
fn candidates_are_tried_when_the_variables_are_forgotten() {
    let mut s = subs();
    s.new_constrained_var(Some((symbol(7, "Num"), Arc::new(vec![int_type()]))));
    s.clear();
    assert_eq!(s.var_id(), 0);
    let found = s.resolve_constraints(&(), &0, &int_type()).unwrap();
    assert!(found.unwrap().same(&int_type()));
    let float = Type::builtin(BuiltinType::Float);
    assert!(s.resolve_constraints(&(), &0, &float).is_err());
}

#[test]
fn a_union_ends_as_its_constraints_do() {
    for typ in [int_type(), string_type(), Type::builtin(BuiltinType::Float)] {
        let candidates = Arc::new(vec![string_type(), int_type()]);
        let mut asked = subs();
        asked.new_constrained_var(Some((symbol(7, "Num"), candidates.clone())));
        let mut joined = subs();
        joined.new_constrained_var(Some((symbol(7, "Num"), candidates)));
        let resolved = asked.resolve_constraints(&(), &0, &typ);
        match (resolved, joined.union(&(), &0, &typ)) {
            (Ok(Some(a)), Ok(Some(b))) => {
                assert!(a.same(&b));
                assert!(joined.find_type_for_var(0).unwrap().same(&a));
            }
            (Err(Error::Constraint(a, _)), Err(Error::Constraint(b, _))) => {
                assert!(a.same(&typ) && b.same(&typ));
                assert!(joined.find_type_for_var(0).is_none());
            }
            _ => panic!("expected the same outcome"),
        }
    }
}

#[test]
fn unknown_variables_match_anything() {
    let mut s = subs();
    let a = s.new_var();
    let around = Type::array(a.clone());
    assert!(equivalent(&(), &mut s, &a, &around).is_ok());
    assert!(equivalent(&(), &mut s, &around, &a).is_ok());
    assert!(s.find_type_for_var(0).is_none());
}

#[test]
fn occurs_check_fails_directly_and_through_others() {
    let mut s = subs();
    let a = s.new_var();
    let b = s.new_var();
    let array = Type::array(a.clone());
    assert!(occurs(&array, &mut s, &0));
    assert!(!occurs(&array, &mut s, &1));
    match s.union(&(), &0, &array) {
        Err(Error::Occurs(var, typ)) => {
            assert!(is_var(&var, 0));
            assert!(typ.same(&array));
        }
        _ => panic!("expected an occurs error"),
    }
    s.union(&(), &1, &array).unwrap();
    let deep = Type::array(b);
    assert!(occurs(&deep, &mut s, &0));
}

#[test]
fn occurs_check_lowers_levels() {
    let mut s = subs();
    let _ = s.new_var();
    let b = s.new_var();
    assert_eq!(s.get_level(1), 1);
    assert!(!occurs(&Type::array(b), &mut s, &0));
    assert_eq!(s.get_level(1), 0);
}

#[test]
fn update_level_takes_the_lower() {
    let mut s = subs();
    for _ in 0..4 {
        s.new_var();
    }
    s.update_level(1, 3);
    assert_eq!(s.get_level(3), 1);
    s.update_level(3, 0);
    assert_eq!(s.get_level(0), 0);
}

#[test]
fn insert_and_replace_variable() {
    let mut s = subs();
    let a = s.new_var();
    assert!(s.replace_variable(&a).is_none());
    assert!(s.replace_variable(&int_type()).is_none());
    s.insert(0, string_type());
    assert!(s.replace_variable(&a).unwrap().same(&string_type()));
    let mut typ = a.clone();
    s.make_real(&mut typ);
    assert!(typ.same(&string_type()));
}

#[test]
fn clear_forgets_types_and_variables() {
    let mut s = subs();
    let a = s.new_var();
    s.union(&(), &0, &int_type()).unwrap();
    s.clear();
    assert_eq!(s.var_id(), 0);
    assert!(is_var(s.real_type(&a), 0));
}

#[test]
fn set_type_replaces_all_variables() {
    let mut s = subs();
    let a = s.new_var();
    let b = s.new_var();
    let c = s.new_var();
    s.union(&(), &0, &int_type()).unwrap();
    s.union(&(), &1, &Type::array(a.clone())).unwrap();
    let fun = Type::function(vec![b, c], a);
    let set = s.set_type(fun);
    let expected = Type::function(vec![Type::array(int_type()), Type::Variable(2)], int_type());
    assert!(set.same(&expected));
}

#[test]
fn set_type_unrolls_applications() {
    let mut s = subs();
    let a = s.new_var();
    let map = ident(100, "Map");
    s.union(&(), &0, &app(vec![map.clone(), string_type()])).unwrap();
    let set = s.set_type(app(vec![a, int_type()]));
    assert!(set.same(&app(vec![map, string_type(), int_type()])));
}

#[test]
fn equivalence_is_up_to_variables() {
    let mut s = subs();
    let a = s.new_var();
    let b = s.new_var();
    let left = Type::function(vec![a.clone()], a.clone());
    assert!(equivalent(&(), &mut s, &left, &left).is_ok());
    let ints = Type::function(vec![int_type()], int_type());
    assert!(equivalent(&(), &mut s, &ints, &left).is_ok());
    let mixed = Type::function(vec![int_type()], string_type());
    assert!(equivalent(&(), &mut s, &mixed, &left).is_err());
    let loose = Type::function(vec![a], b);
    assert!(equivalent(&(), &mut s, &mixed, &loose).is_ok());
    assert!(equivalent(&(), &mut s, &int_type(), &string_type()).is_err());
}

#[test]
fn constraints_pick_the_first_candidate_that_fits() {
    let mut s = subs();
    let candidates = Arc::new(vec![string_type(), int_type()]);
    let v = s.new_constrained_var(Some((symbol(7, "Num"), candidates)));
    let found = s.get_constraints(0).unwrap();
    assert_eq!(found.len(), 1);
    assert_eq!(found[&7].len(), 2);
    let picked = s.union(&(), &0, &int_type()).unwrap();
    match picked {
        Some(typ) => assert!(typ.same(&int_type())),
        None => panic!("expected the candidate"),
    }
    assert!(s.real_type(&v).same(&int_type()));
}

#[test]
fn constraints_refuse_what_fits_no_candidate() {
    let mut s = subs();
    let candidates = Arc::new(vec![string_type(), int_type()]);
    s.new_constrained_var(Some((symbol(7, "Num"), candidates)));
    let float = Type::builtin(BuiltinType::Float);
    match s.union(&(), &0, &float) {
        Err(Error::Constraint(typ, constraints)) => {
            assert!(typ.same(&float));
            assert_eq!(constraints.len(), 2);
        }
        _ => panic!("expected a constraint error"),
    }
    assert!(s.find_type_for_var(0).is_none());
}

#[test]
fn resolve_constraints_of_an_unconstrained_variable() {
    let mut s = subs();
    s.new_var();
    assert!(s.get_constraints(0).is_none());
    assert!(s.resolve_constraints(&(), &0, &int_type()).unwrap().is_none());
}

#[test]
fn joined_variables_keep_the_constraints_of_both() {
    let mut s = subs();
    s.new_constrained_var(Some((symbol(7, "Num"), Arc::new(vec![int_type()]))));
    let b = s.new_constrained_var(Some((symbol(8, "Show"), Arc::new(vec![int_type(), string_type()]))));
    s.union(&(), &0, &b).unwrap();
    let found = s.get_constraints(1).unwrap();
    assert_eq!(found.len(), 2);
    assert!(s.union(&(), &0, &string_type()).is_err());
    assert!(s.union(&(), &0, &int_type()).is_ok());
}

#[test]
fn many_variables_are_joined_into_one_class() {
    let mut s = subs();
    let vars: Vec<Type> = (0..50).map(|_| s.new_var()).collect();
    for i in 1..50u32 {
        s.union(&(), &i, &vars[i as usize - 1]).unwrap();
    }
    for i in 0..50u32 {
        assert_eq!(s.get_level(i), 0);
        assert!(is_var(s.real_type(&vars[i as usize]), 0));
    }
    s.union(&(), &0, &int_type()).unwrap();
    for v in &vars {
        assert!(s.real_type(v).same(&int_type()));
    }
}

#[test]
fn messages_of_errors() {
    let occurs: Error<String> = Error::Occurs("a".to_string(), "Array a".to_string());
    assert_eq!(occurs.message(), "Variable `a` occurs in `Array a`.");
    let constraint = Error::Constraint(
        "Float".to_string(),
        Arc::new(vec!["Int".to_string(), "String".to_string()]),
    );
    assert_eq!(
        constraint.message(),
        "Type `Float` could not fullfill a constraint.\nPossible resolves:\nInt\nString\n"
    );
    let none: Error<Symbol> = Error::Constraint(symbol(1, "T"), Arc::new(vec![]));
    assert_eq!(
        none.message(),
        "Type `T` could not fullfill a constraint.\nPossible resolves:\n"
    );
}

#[test]
fn records_are_compared_by_the_names_of_their_fields() {
    let mut s = subs();
    let field = |name: &str, typ: Type| TypeField {
        name: name.to_string(),
        typ,
    };
    let xy = Type::record(vec![field("x", int_type()), field("y", string_type())]);
    let again = Type::record(vec![field("x", int_type()), field("y", string_type())]);
    let other = Type::record(vec![field("x", int_type()), field("z", string_type())]);
    assert!(xy.same(&again));
    assert!(!xy.same(&other));
    assert!(equivalent(&(), &mut s, &xy, &again).is_ok());
    assert!(equivalent(&(), &mut s, &xy, &other).is_err());
}

#[test]
fn quantified_candidates_are_instantiated() {
    let mut s = subs();
    let a = symbol(50, "a");
    let quantified = Type::quantify(vec![a.clone()], Type::array(Type::generic(a)));
    let v = s.new_constrained_var(Some((symbol(7, "Seq"), Arc::new(vec![quantified]))));
    s.union(&(), &0, &Type::array(int_type())).unwrap();
    match s.real_type(&v) {
        Type::Node(TypeOp::App, args) => assert_eq!(args.len(), 2),
        _ => panic!("expected an array"),
    }
}
