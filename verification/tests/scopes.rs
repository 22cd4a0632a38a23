use racoon::compiler::ir::arena::ParamId;
use racoon::compiler::ir::value::value::Operand;
use racoon::compiler::irbuilder::context::{NameId, Scope, ScopeBuilder};

fn param(position: usize) -> NameId {
    NameId::Param(ParamId { position })
}

#[test]
fn scope_finds_what_was_inserted() {
    let mut scope: Scope<i32> = Scope::new();
    assert_eq!(scope.find("x"), None);
    assert_eq!(scope.insert("x".to_string(), 1), Some(&1));
    assert_eq!(scope.find("x"), Some(&1));
    assert_eq!(scope.find("y"), None);
}

#[test]
fn scope_keeps_the_first_binding() {
    let mut scope: Scope<i32> = Scope::new();
    assert_eq!(scope.insert("x".to_string(), 1), Some(&1));
    assert_eq!(scope.insert("x".to_string(), 2), None);
    assert_eq!(scope.find("x"), Some(&1));
}

#[test]
fn binding_of_a_closed_scope_is_gone() {
    let mut scopes: ScopeBuilder<i32> = ScopeBuilder::new();
    scopes.push_scope();
    scopes.push_scope();
    assert_eq!(scopes.insert("x", 7), Some(&7));
    assert_eq!(scopes.find_name_rec("x"), Some(&7));
    scopes.pop_scope();
    assert_eq!(scopes.find_name_rec("x"), None);
}

#[test]
fn closing_a_scope_uncovers_the_outer_binding() {
    let mut scopes: ScopeBuilder<i32> = ScopeBuilder::new();
    scopes.push_scope();
    assert_eq!(scopes.insert("x", 1), Some(&1));
    scopes.push_scope();
    assert_eq!(scopes.insert("x", 2), Some(&2));
    assert_eq!(scopes.find_name_rec("x"), Some(&2));
    scopes.pop_scope();
    assert_eq!(scopes.find_name_rec("x"), Some(&1));
}

#[test]
fn second_binding_in_one_scope_fails_and_changes_nothing() {
    let mut scopes: ScopeBuilder<i32> = ScopeBuilder::new();
    scopes.push_scope();
    assert_eq!(scopes.insert("x", 1), Some(&1));
    assert_eq!(scopes.insert("x", 2), None);
    assert_eq!(scopes.find_name_rec("x"), Some(&1));
}

#[test]
fn lookup_walks_outwards() {
    let mut scopes: ScopeBuilder<i32> = ScopeBuilder::new();
    scopes.push_scope();
    assert_eq!(scopes.insert("outer", 1), Some(&1));
    scopes.push_scope();
    scopes.push_scope();
    assert_eq!(scopes.find_name_rec("outer"), Some(&1));
    assert_eq!(scopes.find_name_rec("inner"), None);
}

#[test]
fn popping_an_empty_stack_does_nothing() {
    let mut scopes: ScopeBuilder<i32> = ScopeBuilder::new();
    scopes.pop_scope();
    assert_eq!(scopes.find_name_rec("x"), None);
    scopes.push_scope();
    assert_eq!(scopes.insert("x", 3), Some(&3));
}

#[test]
fn name_ids_give_their_keys() {
    let id = param(2);
    assert_eq!(id.as_param(), Some(&ParamId { position: 2 }));
    assert_eq!(id.as_inst(), None);
    assert_eq!(id.as_func(), None);
    assert_eq!(id.as_global(), None);
}

#[test]
fn operand_of_a_parameter_name() {
    assert!(matches!(Operand::from(param(1)), Operand::Param(ParamId { position: 1 })));
}
