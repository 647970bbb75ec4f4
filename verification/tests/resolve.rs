use gluon::resolve::{
    canonical_alias, peek_alias, remove_alias, remove_aliases, remove_aliases_cow, Error,
};
use gluon::symbol::Symbol;
use gluon::types::{AliasData, AliasRef, BuiltinType, Type};
use std::borrow::Cow;
use std::sync::Arc;

fn symbol(id: u64, name: &str) -> Symbol {
    Symbol::new(id, name.to_string())
}

fn int_type() -> Type {
    Type::builtin(BuiltinType::Int)
}

fn alias(name: Symbol, typ: Type) -> AliasRef {
    let data = Arc::new(AliasData { name, typ });
    AliasRef {
        group: Arc::new(vec![data.clone()]),
        alias: data,
    }
}

fn number() -> AliasRef {
    alias(symbol(1, "Number"), int_type())
}

/// `type Items a = Array a`
fn items() -> AliasRef {
    let a = symbol(20, "a");
    let body = Type::array(Type::generic(a.clone()));
    alias(symbol(2, "Items"), Type::quantify(vec![a], body))
}

#[test]
fn plain_types_have_no_alias() {
    let env: Vec<AliasRef> = vec![];
    assert!(remove_alias(&env, &int_type()).unwrap().is_none());
    assert!(peek_alias(&env, &int_type()).unwrap().is_none());
    assert!(remove_aliases(&env, int_type()).same(&int_type()));
}

#[test]
fn identifiers_are_looked_up() {
    let env = vec![number()];
    let typ = Type::ident(symbol(1, "Number"));
    assert!(remove_alias(&env, &typ).unwrap().unwrap().same(&int_type()));
    assert!(peek_alias(&env, &typ).unwrap().unwrap().same(&number()));
}

#[test]
fn unknown_identifiers_are_errors() {
    let env = vec![number()];
    let typ = Type::ident(symbol(9, "Nothing"));
    match remove_alias(&env, &typ) {
        Err(Error::UndefinedType(id)) => {
            assert_eq!(id.id, 9);
            assert_eq!(id.name, "Nothing");
        }
        _ => panic!("expected an undefined type"),
    }
    let applied = Type::quantify(
        vec![symbol(3, "a")],
        Type::app(vec![typ.clone(), Type::generic(symbol(3, "a"))]),
    );
    match remove_alias(&env, &applied) {
        Err(err) => {
            assert_eq!(err.message(), "Type `Nothing` does not exist.");
            assert_eq!(err.description(), "undefined type");
        }
        Ok(_) => panic!("expected an undefined type"),
    }
    match peek_alias(&env, &typ) {
        Err(err) => assert_eq!(err.message(), "Type `Nothing` does not exist."),
        Ok(_) => panic!("expected an undefined type"),
    }
    assert!(remove_aliases(&env, typ.clone()).same(&typ));
}

#[test]
fn parameters_are_replaced_by_arguments() {
    let env = vec![number(), items()];
    let typ = Type::app(vec![Type::ident(symbol(2, "Items")), int_type()]);
    let found = remove_alias(&env, &typ).unwrap().unwrap();
    assert!(found.same(&Type::array(int_type())));
}

#[test]
fn aliases_of_aliases_are_removed() {
    let chain = alias(symbol(3, "Count"), Type::ident(symbol(1, "Number")));
    let env = vec![number(), chain];
    let typ = Type::ident(symbol(3, "Count"));
    let once = remove_alias(&env, &typ).unwrap().unwrap();
    assert!(once.same(&Type::ident(symbol(1, "Number"))));
    assert!(!once.same(&Type::ident(symbol(1, "Numeral"))));
    assert!(!once.same(&Type::ident(symbol(2, "Number"))));
    assert_eq!(once.alias_ident().unwrap().name, "Number");
    assert!(remove_aliases(&env, typ).same(&int_type()));
}

#[test]
fn aliases_carry_their_own_definition() {
    let env: Vec<AliasRef> = vec![];
    let typ = Type::alias(number());
    assert!(remove_alias(&env, &typ).unwrap().unwrap().same(&int_type()));
}

#[test]
fn opaque_aliases_stay() {
    let opaque = alias(symbol(4, "Handle"), Type::opaque());
    let env = vec![opaque];
    let typ = Type::ident(symbol(4, "Handle"));
    assert!(remove_alias(&env, &typ).unwrap().is_none());
    assert!(remove_aliases(&env, typ.clone()).same(&typ));
}

#[test]
fn borrowed_types_stay_borrowed() {
    let env = vec![number()];
    let plain = int_type();
    match remove_aliases_cow(&env, &plain) {
        Cow::Borrowed(typ) => assert!(typ.same(&plain)),
        Cow::Owned(_) => panic!("expected a borrowed type"),
    }
    let named = Type::ident(symbol(1, "Number"));
    match remove_aliases_cow(&env, &named) {
        Cow::Owned(typ) => assert!(typ.same(&int_type())),
        Cow::Borrowed(_) => panic!("expected an owned type"),
    }
}

#[test]
fn canonical_alias_stops_at_the_wanted_one() {
    let chain = alias(symbol(3, "Count"), Type::ident(symbol(1, "Number")));
    let env = vec![number(), chain];
    let typ = Type::ident(symbol(3, "Count"));
    let wanted = |data: &AliasData| data.name.id == 1;
    match canonical_alias(&env, &typ, &wanted) {
        Cow::Owned(found) => assert!(found.same(&Type::ident(symbol(1, "Number")))),
        Cow::Borrowed(_) => panic!("expected a type of its own"),
    }
    let first = |data: &AliasData| data.name.id == 3;
    match canonical_alias(&env, &typ, &first) {
        Cow::Borrowed(found) => assert!(found.same(&typ)),
        Cow::Owned(_) => panic!("expected the type itself"),
    }
    let never = |_: &AliasData| false;
    match canonical_alias(&env, &typ, &never) {
        Cow::Owned(found) => assert!(found.same(&int_type())),
        Cow::Borrowed(_) => panic!("expected the builtin type"),
    }
}

#[test]
fn aliases_of_a_group_refer_to_each_other() {
    let a = Arc::new(AliasData {
        name: symbol(5, "A"),
        typ: Type::array(Type::ident(symbol(6, "B"))),
    });
    let b = Arc::new(AliasData {
        name: symbol(6, "B"),
        typ: int_type(),
    });
    let group = Arc::new(vec![a.clone(), b.clone()]);
    let first = AliasRef {
        alias: a,
        group: group.clone(),
    };
    let second = AliasRef { alias: b, group };
    let env: Vec<AliasRef> = vec![];
    let found = remove_alias(&env, &Type::alias(first)).unwrap().unwrap();
    assert!(found.same(&Type::array(Type::alias(second))));
}
