use aerosol::context::{compile_context, CompiledContext};
use aerosol::interface::satisfies;
use aerosol::decl::{Binding, ContextDecl, InterfaceDecl, MethodReq, Strategy};
use aerosol::interface::{compile_interface, CompiledInterface};
use aerosol::CompileError;

fn name(s: &str) -> Vec<u8> {
    s.bytes().collect()
}

fn method(n: &str, ret: &str) -> MethodReq {
    MethodReq { name: name(n), ret: name(ret) }
}

fn binding(field: &str, ty: &str, factory: &str) -> Binding {
    Binding { field: name(field), ty: name(ty), strategy: Strategy::Build { factory: name(factory) } }
}

fn iface(n: &str, inherits: Vec<&str>, markers: Vec<&str>, methods: Vec<MethodReq>) -> InterfaceDecl {
    InterfaceDecl {
        name: name(n),
        inherits: inherits.into_iter().map(name).collect(),
        markers: markers.into_iter().map(name).collect(),
        methods,
    }
}

fn ctx(n: &str, bindings: Vec<Binding>) -> ContextDecl {
    ContextDecl { name: name(n), bindings }
}

fn compile_ctx(n: &str, bindings: Vec<Binding>) -> CompiledContext {
    compile_context(&ctx(n, bindings)).unwrap()
}

#[test]
fn compile_interface_flattens_inherited_requirements() {
    let mut env: Vec<CompiledInterface> = Vec::new();
    let i1 = compile_interface(&env, &iface("I1", vec![], vec![], vec![method("a", "A")]))
        .unwrap();
    env.push(i1);
    let i2 = compile_interface(
        &env,
        &iface("I2", vec!["I1"], vec![], vec![method("b", "B")]),
    )
    .unwrap();
    assert_eq!(i2.requirements.len(), 2);
    assert_eq!(i2.requirements[0].name, name("a"));
    assert_eq!(i2.requirements[0].ret, name("A"));
    assert_eq!(i2.requirements[1].name, name("b"));
    assert_eq!(i2.requirements[1].ret, name("B"));
}

#[test]
fn compile_interface_conflicting_accessors_fail() {
    let mut env: Vec<CompiledInterface> = Vec::new();
    let i1 = compile_interface(&env, &iface("I1", vec![], vec![], vec![method("dep", "A")]))
        .unwrap();
    env.push(i1);
    let i2 = compile_interface(&env, &iface("I2", vec![], vec![], vec![method("dep", "B")]))
        .unwrap();
    env.push(i2);
    let e = compile_interface(&env, &iface("I3", vec!["I1", "I2"], vec![], vec![]))
        .unwrap_err();
    match e {
        CompileError::Conflict { accessor } => assert_eq!(accessor, name("dep")),
        _ => panic!("expected a conflict error"),
    }
}

#[test]
fn compile_interface_identical_accessors_merge() {
    let mut env: Vec<CompiledInterface> = Vec::new();
    let i1 = compile_interface(&env, &iface("I1", vec![], vec![], vec![method("dep", "A")]))
        .unwrap();
    env.push(i1);
    let i2 = compile_interface(&env, &iface("I2", vec![], vec![], vec![method("dep", "A")]))
        .unwrap();
    env.push(i2);
    let i3 = compile_interface(&env, &iface("I3", vec!["I1", "I2"], vec![], vec![]))
        .unwrap();
    assert_eq!(i3.requirements.len(), 1);
    assert_eq!(i3.requirements[0].ret, name("A"));
}

#[test]
fn compile_interface_unresolved_reference_fails() {
    let env: Vec<CompiledInterface> = Vec::new();
    let e = compile_interface(&env, &iface("I", vec!["Missing"], vec![], vec![]))
        .unwrap_err();
    match e {
        CompileError::UnresolvedReference { name: n } => assert_eq!(n, name("Missing")),
        _ => panic!("expected an unresolved reference error"),
    }
}

#[test]
fn compile_interface_clone_marker_propagates() {
    let mut env: Vec<CompiledInterface> = Vec::new();
    let i1 = compile_interface(&env, &iface("I1", vec![], vec!["Clone"], vec![])).unwrap();
    assert!(i1.requires_marker(&name("Clone")));
    env.push(i1);
    let i2 = compile_interface(&env, &iface("I2", vec!["I1"], vec![], vec![])).unwrap();
    assert!(i2.requires_marker(&name("Clone")));
    let plain = compile_interface(&env, &iface("P", vec![], vec![], vec![])).unwrap();
    assert!(!plain.requires_marker(&name("Clone")));
}

#[test]
fn compile_interface_marker_set_flattens_and_dedups() {
    let mut env: Vec<CompiledInterface> = Vec::new();
    let i1 = compile_interface(&env, &iface("I1", vec![], vec!["Substitutable"], vec![]))
        .unwrap();
    assert!(i1.requires_marker(&name("Substitutable")));
    assert!(!i1.requires_marker(&name("Clone")));
    env.push(i1);
    // The child requests Clone itself and inherits Substitutable; a marker
    // requested twice is kept once.
    let i2 = compile_interface(
        &env,
        &iface("I2", vec!["I1"], vec!["Clone", "Clone"], vec![]),
    )
    .unwrap();
    assert!(i2.requires_marker(&name("Clone")));
    assert!(i2.requires_marker(&name("Substitutable")));
    assert_eq!(i2.markers.len(), 2);
}

#[test]
fn compile_context_accepts_distinct_bindings() {
    let c = compile_ctx("C", vec![binding("a", "A", "FA"), binding("b", "B", "FB")]);
    assert_eq!(c.name, name("C"));
    assert_eq!(c.bindings.len(), 2);
}

#[test]
fn compile_context_duplicate_field_fails() {
    let e = compile_context(&ctx("C", vec![binding("a", "A", "FA"), binding("a", "B", "FB")]))
        .unwrap_err();
    match e {
        CompileError::DuplicateField { field } => assert_eq!(field, name("a")),
        _ => panic!("expected a duplicate field error"),
    }
}

#[test]
fn compile_context_ambiguous_type_fails() {
    let e = compile_context(&ctx("C", vec![binding("a", "A", "FA"), binding("b", "A", "FB")]))
        .unwrap_err();
    match e {
        CompileError::AmbiguousType { ty } => assert_eq!(ty, name("A")),
        _ => panic!("expected an ambiguous type error"),
    }
}

#[test]
fn satisfaction_soundness_on_provided_types() {
    let env: Vec<CompiledInterface> = Vec::new();
    let i = compile_interface(&env, &iface("I", vec![], vec![], vec![method("a", "A")]))
        .unwrap();
    let c = compile_ctx("C", vec![binding("a", "A", "FA"), binding("b", "B", "FB")]);
    assert!(satisfies(&c, &i));
}

#[test]
fn satisfaction_completeness_on_missing_type() {
    let env: Vec<CompiledInterface> = Vec::new();
    let i = compile_interface(&env, &iface("I", vec![], vec![], vec![method("a", "A")]))
        .unwrap();
    let c = compile_ctx("C", vec![binding("b", "B", "FB")]);
    assert!(!satisfies(&c, &i));
}

#[test]
fn satisfaction_follows_inheritance_chain() {
    let mut env: Vec<CompiledInterface> = Vec::new();
    let i1 = compile_interface(&env, &iface("I1", vec![], vec![], vec![method("a", "A")]))
        .unwrap();
    env.push(i1);
    let i2 = compile_interface(
        &env,
        &iface("I2", vec!["I1"], vec![], vec![method("b", "B")]),
    )
    .unwrap();
    env.push(i2);
    let i3 = compile_interface(
        &env,
        &iface("I3", vec!["I2"], vec![], vec![method("c", "C")]),
    )
    .unwrap();
    env.push(i3);
    let c = compile_ctx(
        "C",
        vec![binding("a", "A", "FA"), binding("b", "B", "FB"), binding("c", "C", "FC")],
    );
    assert!(satisfies(&c, &env[2]));
    assert!(satisfies(&c, &env[1]));
    assert!(satisfies(&c, &env[0]));
    let partial = compile_ctx("P", vec![binding("a", "A", "FA")]);
    assert!(satisfies(&partial, &env[0]));
    assert!(!satisfies(&partial, &env[1]));
    assert!(!satisfies(&partial, &env[2]));
}
