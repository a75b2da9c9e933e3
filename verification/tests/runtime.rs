use aerosol::context::{compile_context, construct, ContextBuilder, Instance};
use aerosol::decl::{Binding, ContextDecl, Strategy};
use aerosol::interface::{accessor, compile_interface, CompiledInterface};
use aerosol::decl::{InterfaceDecl, MethodReq};
use aerosol::parse::parse_context;
use aerosol::token::Token;
use aerosol::{Factory, FactoryAdaptor, FactoryError, UnitFactory};

fn fail(s: &str) -> FactoryError {
    FactoryError { message: s.bytes().collect() }
}

fn id(s: &str) -> Token {
    Token::Ident(s.bytes().collect())
}

fn name(s: &str) -> Vec<u8> {
    s.bytes().collect()
}

fn binding(field: &str, ty: &str, factory: &str) -> Binding {
    Binding { field: name(field), ty: name(ty), strategy: Strategy::Build { factory: name(factory) } }
}

fn two_binding_context() -> aerosol::context::CompiledContext {
    let d = ContextDecl {
        name: name("C"),
        bindings: vec![binding("a", "A", "FA"), binding("b", "B", "FB")],
    };
    compile_context(&d).unwrap()
}

#[test]
fn round_trip_spec_to_provision() {
    // context AppContext { logger: Logger [LoggerFactory] }
    let toks = vec![
        Token::KwContext,
        id("AppContext"),
        Token::LBrace,
        id("logger"),
        Token::Colon,
        id("Logger"),
        Token::LBracket,
        id("LoggerFactory"),
        Token::RBracket,
        Token::RBrace,
    ];
    let decl = parse_context(&toks).unwrap();
    let compiled = compile_context(&decl).unwrap();

    // The factory succeeds: construction succeeds and Provide<Logger>
    // hands out exactly the built value.
    let (ok, attempts) = construct(compiled, vec![Ok(77u64)]);
    assert_eq!(attempts, 1);
    let inst = ok.unwrap();
    assert_eq!(inst.get(&name("Logger")), Some(&77u64));
    assert_eq!(inst.get(&name("Database")), None);

    // The factory fails: construction fails with the binding's field name.
    let decl2 = parse_context(&toks).unwrap();
    let compiled2 = compile_context(&decl2).unwrap();
    let (bad, attempts2) = construct::<u64>(compiled2, vec![Err(fail("no logger"))]);
    assert_eq!(attempts2, 1);
    let e = bad.unwrap_err();
    assert_eq!(e.field, name("logger"));
    assert_eq!(e.message, name("no logger"));
}

#[test]
fn construction_short_circuits_on_first_failure() {
    let compiled = two_binding_context();
    let (res, attempts) = construct::<u64>(compiled, vec![Err(fail("boom")), Ok(2)]);
    // Binding `a` fails, so binding `b`'s strategy is never attempted.
    assert_eq!(attempts, 1);
    let e = res.unwrap_err();
    assert_eq!(e.field, name("a"));
    assert_eq!(e.message, name("boom"));
}

#[test]
fn construction_runs_in_declaration_order() {
    let compiled = two_binding_context();
    let (res, attempts) = construct(compiled, vec![Ok(1u64), Ok(2u64)]);
    assert_eq!(attempts, 2);
    let inst = res.unwrap();
    assert_eq!(inst.get(&name("A")), Some(&1));
    assert_eq!(inst.get(&name("B")), Some(&2));
}

#[test]
fn builder_requests_no_strategy_after_failure() {
    let compiled = two_binding_context();
    let mut b: ContextBuilder<u64> = ContextBuilder::start(compiled);
    let first = b.next_binding().unwrap();
    assert_eq!(first.field, name("a"));
    b.supply(Err(fail("boom")));
    assert!(b.next_binding().is_none());
    let e = b.finish().unwrap_err();
    assert_eq!(e.field, name("a"));
    assert_eq!(e.message, name("boom"));
}

#[test]
fn builder_walks_bindings_in_order() {
    let compiled = two_binding_context();
    let mut b: ContextBuilder<u64> = ContextBuilder::start(compiled);
    assert_eq!(b.next_binding().unwrap().field, name("a"));
    b.supply(Ok(10));
    assert_eq!(b.next_binding().unwrap().field, name("b"));
    b.supply(Ok(20));
    assert!(b.next_binding().is_none());
    let inst = b.finish().unwrap();
    assert_eq!(inst.get(&name("A")), Some(&10));
    assert_eq!(inst.get(&name("B")), Some(&20));
}

#[test]
fn empty_context_constructs_with_no_attempts() {
    let d = ContextDecl { name: name("Empty"), bindings: vec![] };
    let compiled = compile_context(&d).unwrap();
    let (res, attempts) = construct::<u64>(compiled, vec![]);
    assert_eq!(attempts, 0);
    let inst = res.unwrap();
    assert_eq!(inst.get(&name("A")), None);
}

#[test]
fn substitution_replaces_one_slot_and_leaves_the_rest() {
    let compiled = two_binding_context();
    let (res, _) = construct(compiled, vec![Ok(1u64), Ok(2u64)]);
    let inst = res.unwrap();
    let swapped = inst.substitute(&name("A"), Ok(9)).unwrap();
    // The substituted copy has the new value in A's slot and B untouched.
    assert_eq!(swapped.get(&name("A")), Some(&9));
    assert_eq!(swapped.get(&name("B")), Some(&2));
    // The original container is byte-for-byte unaffected.
    assert_eq!(inst.get(&name("A")), Some(&1));
    assert_eq!(inst.get(&name("B")), Some(&2));
}

#[test]
fn substitution_failure_names_the_substituted_field() {
    let compiled = two_binding_context();
    let (res, _) = construct(compiled, vec![Ok(1u64), Ok(2u64)]);
    let inst = res.unwrap();
    let e = inst.substitute(&name("B"), Err(fail("nope"))).unwrap_err();
    assert_eq!(e.field, name("b"));
    assert_eq!(e.message, name("nope"));
    assert_eq!(inst.get(&name("B")), Some(&2));
}

#[test]
fn duplicate_shares_every_slot_value() {
    let compiled = two_binding_context();
    let (res, _) = construct(compiled, vec![Ok(1u64), Ok(2u64)]);
    let inst = res.unwrap();
    let copy: Instance<u64> = inst.duplicate();
    assert_eq!(copy.get(&name("A")), Some(&1));
    assert_eq!(copy.get(&name("B")), Some(&2));
    assert_eq!(inst.get(&name("A")), Some(&1));
}

#[test]
fn accessor_delegates_to_provision() {
    let env: Vec<CompiledInterface> = Vec::new();
    let d = InterfaceDecl {
        name: name("WorkerInterface"),
        inherits: vec![],
        markers: vec![],
        methods: vec![MethodReq { name: name("alpha"), ret: name("A") }],
    };
    let iface = compile_interface(&env, &d).unwrap();
    let compiled = two_binding_context();
    let (res, _) = construct(compiled, vec![Ok(5u64), Ok(6u64)]);
    let inst = res.unwrap();
    assert_eq!(accessor(&inst, &iface, &name("alpha")), Some(&5));
    assert_eq!(accessor(&inst, &iface, &name("beta")), None);
}

struct FortyTwo;

impl Factory for FortyTwo {
    type Object = u64;

    fn build() -> Result<u64, FactoryError> {
        Ok(42)
    }
}

struct Legacy;

impl UnitFactory for Legacy {
    type Object = u64;

    fn build(_arg: ()) -> Result<u64, FactoryError> {
        Err(FactoryError { message: b"legacy failure".to_vec() })
    }
}

#[test]
fn factory_adaptor_bridges_both_conventions() {
    // A new-style factory used through the older calling convention.
    let r = <FactoryAdaptor<FortyTwo> as UnitFactory>::build(());
    assert_eq!(r.unwrap(), 42);
    // An old-style factory used through the new convention.
    let r = <FactoryAdaptor<Legacy> as Factory>::build();
    assert_eq!(r.unwrap_err().message, b"legacy failure".to_vec());
}
