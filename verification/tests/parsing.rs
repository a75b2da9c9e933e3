use aerosol::decl::{Declaration, Strategy};
use aerosol::parse::{parse_context, parse_declaration, parse_interface, Expected, GrammarError};
use aerosol::token::Token;

fn id(s: &str) -> Token {
    Token::Ident(s.bytes().collect())
}

fn name(s: &str) -> Vec<u8> {
    s.bytes().collect()
}

/// `context AppContext { logger: Logger [LoggerFactory] }`
fn app_context_tokens() -> Vec<Token> {
    vec![
        Token::KwContext,
        id("AppContext"),
        Token::LBrace,
        id("logger"),
        Token::Colon,
        id("Logger"),
        Token::LBracket,
        id("LoggerFactory"),
        Token::RBracket,
        Token::RBrace,
    ]
}

#[test]
fn parse_single_binding_context() {
    let d = parse_context(&app_context_tokens()).unwrap();
    assert_eq!(d.name, name("AppContext"));
    assert_eq!(d.bindings.len(), 1);
    assert_eq!(d.bindings[0].field, name("logger"));
    assert_eq!(d.bindings[0].ty, name("Logger"));
    match &d.bindings[0].strategy {
        Strategy::Build { factory } => assert_eq!(*factory, name("LoggerFactory")),
        _ => panic!("expected a no-argument factory strategy"),
    }
}

#[test]
fn parse_empty_context_body() {
    let toks = vec![Token::KwContext, id("Empty"), Token::LBrace, Token::RBrace];
    let d = parse_context(&toks).unwrap();
    assert_eq!(d.name, name("Empty"));
    assert_eq!(d.bindings.len(), 0);
}

#[test]
fn parse_trailing_separator_and_mixed_separators() {
    let toks = vec![
        Token::KwContext,
        id("C"),
        Token::LBrace,
        id("a"),
        Token::Colon,
        id("A"),
        Token::LBracket,
        id("FA"),
        Token::RBracket,
        Token::Semi,
        id("b"),
        Token::Colon,
        id("B"),
        Token::LBracket,
        id("FB"),
        Token::RBracket,
        Token::Comma,
        Token::RBrace,
    ];
    let d = parse_context(&toks).unwrap();
    assert_eq!(d.bindings.len(), 2);
    assert_eq!(d.bindings[0].field, name("a"));
    assert_eq!(d.bindings[1].field, name("b"));
}

#[test]
fn parse_substituted_context_strategy() {
    let toks = vec![
        Token::KwContext,
        id("C"),
        Token::LBrace,
        id("x"),
        Token::Colon,
        id("X"),
        Token::LBracket,
        id("F"),
        Token::LParen,
        id("Sub"),
        Token::RParen,
        Token::RBracket,
        Token::RBrace,
    ];
    let d = parse_context(&toks).unwrap();
    match &d.bindings[0].strategy {
        Strategy::BuildWith { factory, context } => {
            assert_eq!(*factory, name("F"));
            assert_eq!(*context, name("Sub"));
        },
        _ => panic!("expected a substituted-context strategy"),
    }
}

#[test]
fn parse_interface_with_inheritance_and_marker() {
    let toks = vec![
        Token::KwInterface,
        id("AppInterface"),
        Token::Colon,
        id("WorkerInterface"),
        Token::Plus,
        id("Clone"),
        Token::LBrace,
        Token::RBrace,
    ];
    let d = parse_interface(&toks).unwrap();
    assert_eq!(d.name, name("AppInterface"));
    assert_eq!(d.inherits, vec![name("WorkerInterface")]);
    assert_eq!(d.markers, vec![name("Clone")]);
    assert_eq!(d.methods.len(), 0);
}

#[test]
fn parse_interface_substitutable_marker() {
    let toks = vec![
        Token::KwInterface,
        id("ScopedInterface"),
        Token::Colon,
        id("Substitutable"),
        Token::Plus,
        id("Base"),
        Token::LBrace,
        Token::RBrace,
    ];
    let d = parse_interface(&toks).unwrap();
    assert_eq!(d.inherits, vec![name("Base")]);
    assert_eq!(d.markers, vec![name("Substitutable")]);
}

#[test]
fn parse_interface_method() {
    let toks = vec![
        Token::KwInterface,
        id("WorkerInterface"),
        Token::LBrace,
        Token::KwFn,
        id("logger"),
        Token::LParen,
        Token::SelfRef,
        Token::RParen,
        Token::Arrow,
        id("Logger"),
        Token::Semi,
        Token::RBrace,
    ];
    let d = parse_interface(&toks).unwrap();
    assert_eq!(d.methods.len(), 1);
    assert_eq!(d.methods[0].name, name("logger"));
    assert_eq!(d.methods[0].ret, name("Logger"));
}

#[test]
fn parse_declaration_dispatches_on_keyword() {
    match parse_declaration(&app_context_tokens()).unwrap() {
        Declaration::Context(d) => assert_eq!(d.name, name("AppContext")),
        _ => panic!("expected a context declaration"),
    }
    let toks = vec![Token::KwInterface, id("I"), Token::LBrace, Token::RBrace];
    match parse_declaration(&toks).unwrap() {
        Declaration::Interface(d) => assert_eq!(d.name, name("I")),
        _ => panic!("expected an interface declaration"),
    }
}

#[test]
fn parse_error_empty_stream() {
    let toks: Vec<Token> = vec![];
    let e = parse_declaration(&toks).unwrap_err();
    assert_eq!(e, GrammarError { position: 0, expected: Expected::DeclKeyword });
}

#[test]
fn parse_error_missing_close_brace() {
    let toks = vec![Token::KwContext, id("C"), Token::LBrace];
    let e = parse_context(&toks).unwrap_err();
    assert_eq!(e, GrammarError { position: 3, expected: Expected::BodyClose });
}

#[test]
fn parse_error_stray_separator() {
    let toks = vec![Token::KwContext, id("C"), Token::LBrace, Token::Comma, Token::RBrace];
    let e = parse_context(&toks).unwrap_err();
    assert_eq!(e, GrammarError { position: 3, expected: Expected::Item });
}

#[test]
fn parse_error_binding_missing_colon() {
    let toks = vec![
        Token::KwContext,
        id("C"),
        Token::LBrace,
        id("a"),
        id("A"),
        Token::LBracket,
        id("F"),
        Token::RBracket,
        Token::RBrace,
    ];
    let e = parse_context(&toks).unwrap_err();
    assert_eq!(e, GrammarError { position: 4, expected: Expected::Colon });
}

#[test]
fn parse_error_method_missing_receiver() {
    let toks = vec![
        Token::KwInterface,
        id("I"),
        Token::LBrace,
        Token::KwFn,
        id("m"),
        Token::LParen,
        Token::RParen,
        Token::Arrow,
        id("T"),
        Token::RBrace,
    ];
    let e = parse_interface(&toks).unwrap_err();
    assert_eq!(e, GrammarError { position: 6, expected: Expected::SelfReceiver });
}

#[test]
fn parse_error_inherit_clause_unterminated() {
    let toks = vec![Token::KwInterface, id("I"), Token::Colon, id("Base"), id("Junk")];
    let e = parse_interface(&toks).unwrap_err();
    assert_eq!(e, GrammarError { position: 4, expected: Expected::PlusOrBodyOpen });
}
