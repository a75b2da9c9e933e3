//! Recursive-descent parser over the specification token stream.
//!
//! Each grammar production consumes a bounded prefix of the stream and
//! delegates the remaining body fragments to the joiner for continued
//! matching. A malformed stream yields a grammar error identifying the
//! offending position and the expected alternative; an empty body is legal
//! and yields a declaration with zero bindings or requirements.

use vstd::prelude::*;

use crate::decl::{
    Binding, BindingV, ContextDecl, ContextDeclV, Declaration, InterfaceDecl, InterfaceDeclV,
    MethodReq, MethodReqV, Strategy, StrategyV,
};
use crate::join::{spec_split, split_fragments, Fragment};
use crate::token::Token;
use crate::{copy_name, name_eq};

verus! {

/// What the parser expected at the position where it stopped.
#[derive(Clone, Copy, PartialEq, Eq, Structural, Debug)]
pub enum Expected {
    /// The keyword `context` or `interface`.
    DeclKeyword,
    /// A name.
    Name,
    /// `:` between a field name and its type.
    Colon,
    /// `{` opening a declaration body.
    BodyOpen,
    /// `}` closing a declaration body.
    BodyClose,
    /// Either `{` opening the body or `:` introducing the inheritance
    /// clause.
    BodyOrInherit,
    /// Either `+` continuing the inheritance clause or `{` opening the
    /// body.
    PlusOrBodyOpen,
    /// `[` opening a construction strategy.
    BracketOpen,
    /// `]` closing a construction strategy.
    BracketClose,
    /// `(` opening an argument list.
    ParenOpen,
    /// `)` closing an argument list.
    ParenClose,
    /// The receiver `&self`.
    SelfReceiver,
    /// `->` before a method's return capability type.
    Arrow,
    /// The keyword `fn`.
    FnKeyword,
    /// A body item where a stray separator stood.
    Item,
    /// A separator ending the body item.
    Separator,
}

/// A malformed specification: the position of the offending token (or the
/// position where a missing token would stand) and the expected
/// alternative.
#[derive(Clone, Copy, PartialEq, Eq, Structural, Debug)]
pub struct GrammarError {
    pub position: usize,
    pub expected: Expected,
}

/// The marker name that requests a clone-capable context or interface.
pub open spec fn spec_clone_marker() -> Seq<u8> {
    seq![67u8, 108u8, 111u8, 110u8, 101u8]
}

/// The marker name that requests the substitution capability.
pub open spec fn spec_substitutable_marker() -> Seq<u8> {
    seq![
        83u8,
        117u8,
        98u8,
        115u8,
        116u8,
        105u8,
        116u8,
        117u8,
        116u8,
        97u8,
        98u8,
        108u8,
        101u8,
    ]
}

/// The auxiliary capability names that an inheritance clause may request
/// as extra marker supertraits; every other name there refers to an
/// inherited interface.
pub open spec fn spec_is_marker(name: Seq<u8>) -> bool {
    name == spec_clone_marker() || name == spec_substitutable_marker()
}

/// The marker name `Clone`.
pub fn clone_marker() -> (r: Vec<u8>)
    ensures
        r@ == spec_clone_marker(),
{
    let mut r: Vec<u8> = Vec::new();
    r.push(67u8);
    r.push(108u8);
    r.push(111u8);
    r.push(110u8);
    r.push(101u8);
    proof {
        assert(r@ =~= spec_clone_marker());
    }
    r
}

/// The marker name `Substitutable`.
pub fn substitutable_marker() -> (r: Vec<u8>)
    ensures
        r@ == spec_substitutable_marker(),
{
    let mut r: Vec<u8> = Vec::new();
    r.push(83u8);
    r.push(117u8);
    r.push(98u8);
    r.push(115u8);
    r.push(116u8);
    r.push(105u8);
    r.push(116u8);
    r.push(117u8);
    r.push(116u8);
    r.push(97u8);
    r.push(98u8);
    r.push(108u8);
    r.push(101u8);
    proof {
        assert(r@ =~= spec_substitutable_marker());
    }
    r
}

/// Whether this name is one of the marker names.
pub fn is_marker_name(n: &Vec<u8>) -> (r: bool)
    ensures
        r == spec_is_marker(n@),
{
    let c = clone_marker();
    if name_eq(n, &c) {
        return true;
    }
    let s = substitutable_marker();
    name_eq(n, &s)
}

/// How one body fragment `[s, e)` parses as a context binding
/// `field: Type [Factory]` or `field: Type [Factory(Smaller)]`.
pub open spec fn spec_parse_binding(toks: Seq<Token>, s: int, e: int) -> Result<
    BindingV,
    GrammarError,
> {
    if !(s < e && toks[s] is Ident) {
        Err(GrammarError { position: s as usize, expected: Expected::Name })
    } else if !(s + 1 < e && toks[s + 1] is Colon) {
        Err(GrammarError { position: (s + 1) as usize, expected: Expected::Colon })
    } else if !(s + 2 < e && toks[s + 2] is Ident) {
        Err(GrammarError { position: (s + 2) as usize, expected: Expected::Name })
    } else if !(s + 3 < e && toks[s + 3] is LBracket) {
        Err(GrammarError { position: (s + 3) as usize, expected: Expected::BracketOpen })
    } else if !(s + 4 < e && toks[s + 4] is Ident) {
        Err(GrammarError { position: (s + 4) as usize, expected: Expected::Name })
    } else if s + 5 < e && toks[s + 5] is RBracket {
        if e == s + 6 {
            Ok(
                BindingV {
                    field: toks[s]->Ident_0@,
                    ty: toks[s + 2]->Ident_0@,
                    strategy: StrategyV::Build { factory: toks[s + 4]->Ident_0@ },
                },
            )
        } else {
            Err(GrammarError { position: (s + 6) as usize, expected: Expected::Separator })
        }
    } else if s + 5 < e && toks[s + 5] is LParen {
        if !(s + 6 < e && toks[s + 6] is Ident) {
            Err(GrammarError { position: (s + 6) as usize, expected: Expected::Name })
        } else if !(s + 7 < e && toks[s + 7] is RParen) {
            Err(GrammarError { position: (s + 7) as usize, expected: Expected::ParenClose })
        } else if !(s + 8 < e && toks[s + 8] is RBracket) {
            Err(GrammarError { position: (s + 8) as usize, expected: Expected::BracketClose })
        } else if e == s + 9 {
            Ok(
                BindingV {
                    field: toks[s]->Ident_0@,
                    ty: toks[s + 2]->Ident_0@,
                    strategy: StrategyV::BuildWith {
                        factory: toks[s + 4]->Ident_0@,
                        context: toks[s + 6]->Ident_0@,
                    },
                },
            )
        } else {
            Err(GrammarError { position: (s + 9) as usize, expected: Expected::Separator })
        }
    } else {
        Err(GrammarError { position: (s + 5) as usize, expected: Expected::BracketClose })
    }
}

/// How one body fragment `[s, e)` parses as a required accessor
/// `fn name(&self) -> CapabilityType`.
pub open spec fn spec_parse_method(toks: Seq<Token>, s: int, e: int) -> Result<
    MethodReqV,
    GrammarError,
> {
    if !(s < e && toks[s] is KwFn) {
        Err(GrammarError { position: s as usize, expected: Expected::FnKeyword })
    } else if !(s + 1 < e && toks[s + 1] is Ident) {
        Err(GrammarError { position: (s + 1) as usize, expected: Expected::Name })
    } else if !(s + 2 < e && toks[s + 2] is LParen) {
        Err(GrammarError { position: (s + 2) as usize, expected: Expected::ParenOpen })
    } else if !(s + 3 < e && toks[s + 3] is SelfRef) {
        Err(GrammarError { position: (s + 3) as usize, expected: Expected::SelfReceiver })
    } else if !(s + 4 < e && toks[s + 4] is RParen) {
        Err(GrammarError { position: (s + 4) as usize, expected: Expected::ParenClose })
    } else if !(s + 5 < e && toks[s + 5] is Arrow) {
        Err(GrammarError { position: (s + 5) as usize, expected: Expected::Arrow })
    } else if !(s + 6 < e && toks[s + 6] is Ident) {
        Err(GrammarError { position: (s + 6) as usize, expected: Expected::Name })
    } else if e == s + 7 {
        Ok(MethodReqV { name: toks[s + 1]->Ident_0@, ret: toks[s + 6]->Ident_0@ })
    } else {
        Err(GrammarError { position: (s + 7) as usize, expected: Expected::Separator })
    }
}

/// Parse one context binding out of the fragment `[s, e)`.
pub fn parse_binding(toks: &Vec<Token>, s: usize, e: usize) -> (r: Result<Binding, GrammarError>)
    requires
        s <= e <= toks@.len(),
    ensures
        (match r {
            Ok(b) => spec_parse_binding(toks@, s as int, e as int) == Ok::<_, GrammarError>(b@),
            Err(err) => spec_parse_binding(toks@, s as int, e as int) == Err::<BindingV, _>(err),
        }),
{
    if !(s < e && (match &toks[s] {
        Token::Ident(_) => true,
        _ => false,
    })) {
        return Err(GrammarError { position: s, expected: Expected::Name });
    }
    if !(s + 1 < e && (match &toks[s + 1] {
        Token::Colon => true,
        _ => false,
    })) {
        return Err(GrammarError { position: s + 1, expected: Expected::Colon });
    }
    if !(s + 2 < e && (match &toks[s + 2] {
        Token::Ident(_) => true,
        _ => false,
    })) {
        return Err(GrammarError { position: s + 2, expected: Expected::Name });
    }
    if !(s + 3 < e && (match &toks[s + 3] {
        Token::LBracket => true,
        _ => false,
    })) {
        return Err(GrammarError { position: s + 3, expected: Expected::BracketOpen });
    }
    if !(s + 4 < e && (match &toks[s + 4] {
        Token::Ident(_) => true,
        _ => false,
    })) {
        return Err(GrammarError { position: s + 4, expected: Expected::Name });
    }
    let field = ident_at(toks, s);
    let ty = ident_at(toks, s + 2);
    let factory = ident_at(toks, s + 4);
    if s + 5 < e && (match &toks[s + 5] {
        Token::RBracket => true,
        _ => false,
    }) {
        if e == s + 6 {
            Ok(Binding { field, ty, strategy: Strategy::Build { factory } })
        } else {
            Err(GrammarError { position: s + 6, expected: Expected::Separator })
        }
    } else if s + 5 < e && (match &toks[s + 5] {
        Token::LParen => true,
        _ => false,
    }) {
        if !(s + 6 < e && (match &toks[s + 6] {
            Token::Ident(_) => true,
            _ => false,
        })) {
            return Err(GrammarError { position: s + 6, expected: Expected::Name });
        }
        if !(s + 7 < e && (match &toks[s + 7] {
            Token::RParen => true,
            _ => false,
        })) {
            return Err(GrammarError { position: s + 7, expected: Expected::ParenClose });
        }
        if !(s + 8 < e && (match &toks[s + 8] {
            Token::RBracket => true,
            _ => false,
        })) {
            return Err(GrammarError { position: s + 8, expected: Expected::BracketClose });
        }
        if e == s + 9 {
            let context = ident_at(toks, s + 6);
            Ok(Binding { field, ty, strategy: Strategy::BuildWith { factory, context } })
        } else {
            Err(GrammarError { position: s + 9, expected: Expected::Separator })
        }
    } else {
        Err(GrammarError { position: s + 5, expected: Expected::BracketClose })
    }
}

/// Parse one required accessor out of the fragment `[s, e)`.
pub fn parse_method(toks: &Vec<Token>, s: usize, e: usize) -> (r: Result<MethodReq, GrammarError>)
    requires
        s <= e <= toks@.len(),
    ensures
        (match r {
            Ok(m) => spec_parse_method(toks@, s as int, e as int) == Ok::<_, GrammarError>(m@),
            Err(err) => spec_parse_method(toks@, s as int, e as int) == Err::<MethodReqV, _>(err),
        }),
{
    if !(s < e && (match &toks[s] {
        Token::KwFn => true,
        _ => false,
    })) {
        return Err(GrammarError { position: s, expected: Expected::FnKeyword });
    }
    if !(s + 1 < e && (match &toks[s + 1] {
        Token::Ident(_) => true,
        _ => false,
    })) {
        return Err(GrammarError { position: s + 1, expected: Expected::Name });
    }
    if !(s + 2 < e && (match &toks[s + 2] {
        Token::LParen => true,
        _ => false,
    })) {
        return Err(GrammarError { position: s + 2, expected: Expected::ParenOpen });
    }
    if !(s + 3 < e && (match &toks[s + 3] {
        Token::SelfRef => true,
        _ => false,
    })) {
        return Err(GrammarError { position: s + 3, expected: Expected::SelfReceiver });
    }
    if !(s + 4 < e && (match &toks[s + 4] {
        Token::RParen => true,
        _ => false,
    })) {
        return Err(GrammarError { position: s + 4, expected: Expected::ParenClose });
    }
    if !(s + 5 < e && (match &toks[s + 5] {
        Token::Arrow => true,
        _ => false,
    })) {
        return Err(GrammarError { position: s + 5, expected: Expected::Arrow });
    }
    if !(s + 6 < e && (match &toks[s + 6] {
        Token::Ident(_) => true,
        _ => false,
    })) {
        return Err(GrammarError { position: s + 6, expected: Expected::Name });
    }
    if e == s + 7 {
        let name = ident_at(toks, s + 1);
        let ret = ident_at(toks, s + 6);
        Ok(MethodReq { name, ret })
    } else {
        Err(GrammarError { position: s + 7, expected: Expected::Separator })
    }
}

/// How a sequence of body fragments parses as context bindings, stopping
/// at the first malformed fragment.
pub open spec fn spec_parse_bindings(toks: Seq<Token>, frs: Seq<(int, int)>) -> Result<
    Seq<BindingV>,
    GrammarError,
>
    decreases frs.len(),
{
    if frs.len() == 0 {
        Ok(Seq::empty())
    } else {
        match spec_parse_binding(toks, frs[0].0, frs[0].1) {
            Ok(b) => match spec_parse_bindings(toks, frs.drop_first()) {
                Ok(rest) => Ok(seq![b] + rest),
                Err(e) => Err(e),
            },
            Err(e) => Err(e),
        }
    }
}

/// How a sequence of body fragments parses as required accessors, stopping
/// at the first malformed fragment.
pub open spec fn spec_parse_methods(toks: Seq<Token>, frs: Seq<(int, int)>) -> Result<
    Seq<MethodReqV>,
    GrammarError,
>
    decreases frs.len(),
{
    if frs.len() == 0 {
        Ok(Seq::empty())
    } else {
        match spec_parse_method(toks, frs[0].0, frs[0].1) {
            Ok(m) => match spec_parse_methods(toks, frs.drop_first()) {
                Ok(rest) => Ok(seq![m] + rest),
                Err(e) => Err(e),
            },
            Err(e) => Err(e),
        }
    }
}

/// How the inheritance clause starting at position `i` parses: the
/// inherited interface names in declaration order, the marker names, and
/// the position just after the opening brace of the body.
pub open spec fn spec_parse_inherits(toks: Seq<Token>, i: int) -> Result<
    (Seq<Seq<u8>>, Seq<Seq<u8>>, int),
    GrammarError,
>
    decreases toks.len() - i,
{
    if !(i < toks.len() && toks[i] is Ident) {
        Err(GrammarError { position: i as usize, expected: Expected::Name })
    } else {
        let name = toks[i]->Ident_0@;
        if i + 1 < toks.len() && toks[i + 1] is Plus {
            match spec_parse_inherits(toks, i + 2) {
                Ok(t) => if spec_is_marker(name) {
                    Ok((t.0, seq![name] + t.1, t.2))
                } else {
                    Ok((seq![name] + t.0, t.1, t.2))
                },
                Err(e) => Err(e),
            }
        } else if i + 1 < toks.len() && toks[i + 1] is LBrace {
            if spec_is_marker(name) {
                Ok((Seq::empty(), seq![name], i + 2))
            } else {
                Ok((seq![name], Seq::empty(), i + 2))
            }
        } else {
            Err(GrammarError { position: (i + 1) as usize, expected: Expected::PlusOrBodyOpen })
        }
    }
}

/// How a whole token stream parses as a context declaration.
pub open spec fn spec_parse_context(toks: Seq<Token>) -> Result<ContextDeclV, GrammarError> {
    let n = toks.len() as int;
    if !(n > 0 && toks[0] is KwContext) {
        Err(GrammarError { position: 0, expected: Expected::DeclKeyword })
    } else if !(n > 1 && toks[1] is Ident) {
        Err(GrammarError { position: 1, expected: Expected::Name })
    } else if !(n > 2 && toks[2] is LBrace) {
        Err(GrammarError { position: 2, expected: Expected::BodyOpen })
    } else if !(n - 1 >= 3 && toks[n - 1] is RBrace) {
        Err(
            GrammarError {
                position: (if n - 1 < 3 {
                    n
                } else {
                    n - 1
                }) as usize,
                expected: Expected::BodyClose,
            },
        )
    } else {
        match spec_split(toks, 3, n - 1) {
            Err(p) => Err(GrammarError { position: p as usize, expected: Expected::Item }),
            Ok(frs) => match spec_parse_bindings(toks, frs) {
                Err(e) => Err(e),
                Ok(bs) => Ok(ContextDeclV { name: toks[1]->Ident_0@, bindings: bs }),
            },
        }
    }
}

/// How a whole token stream parses as an interface declaration.
pub open spec fn spec_parse_interface(toks: Seq<Token>) -> Result<InterfaceDeclV, GrammarError> {
    let n = toks.len() as int;
    if !(n > 0 && toks[0] is KwInterface) {
        Err(GrammarError { position: 0, expected: Expected::DeclKeyword })
    } else if !(n > 1 && toks[1] is Ident) {
        Err(GrammarError { position: 1, expected: Expected::Name })
    } else {
        let header: Result<(Seq<Seq<u8>>, Seq<Seq<u8>>, int), GrammarError> = if n > 2 && toks[2]
            is LBrace {
            Ok((Seq::empty(), Seq::empty(), 3))
        } else if n > 2 && toks[2] is Colon {
            spec_parse_inherits(toks, 3)
        } else {
            Err(GrammarError { position: 2, expected: Expected::BodyOrInherit })
        };
        match header {
            Err(e) => Err(e),
            Ok(t) => {
                let body = t.2;
                if !(body <= n - 1 && toks[n - 1] is RBrace) {
                    Err(
                        GrammarError {
                            position: (if body > n - 1 {
                                n
                            } else {
                                n - 1
                            }) as usize,
                            expected: Expected::BodyClose,
                        },
                    )
                } else {
                    match spec_split(toks, body, n - 1) {
                        Err(p) => Err(
                            GrammarError { position: p as usize, expected: Expected::Item },
                        ),
                        Ok(frs) => match spec_parse_methods(toks, frs) {
                            Err(e) => Err(e),
                            Ok(ms) => Ok(
                                InterfaceDeclV {
                                    name: toks[1]->Ident_0@,
                                    inherits: t.0,
                                    markers: t.1,
                                    methods: ms,
                                },
                            ),
                        },
                    }
                }
            },
        }
    }
}

/// Parse the inheritance clause starting at position `i`.
fn parse_inherits(toks: &Vec<Token>, i: usize) -> (r: Result<
    (Vec<Vec<u8>>, Vec<Vec<u8>>, usize),
    GrammarError,
>)
    requires
        i <= toks@.len(),
    ensures
        (match r {
            Ok(t) => {
                &&& spec_parse_inherits(toks@, i as int) == Ok::<_, GrammarError>(
                    (
                        t.0@.map_values(|n: Vec<u8>| n@),
                        t.1@.map_values(|n: Vec<u8>| n@),
                        t.2 as int,
                    ),
                )
                &&& i < t.2 <= toks@.len()
            },
            Err(err) => spec_parse_inherits(toks@, i as int) == Err::<
                (Seq<Seq<u8>>, Seq<Seq<u8>>, int),
                _,
            >(err),
        }),
    decreases toks@.len() - i,
{
    if !(i < toks.len() && (match &toks[i] {
        Token::Ident(_) => true,
        _ => false,
    })) {
        return Err(GrammarError { position: i, expected: Expected::Name });
    }
    let name = ident_at(toks, i);
    let is_marker = is_marker_name(&name);
    if i + 1 < toks.len() && (match &toks[i + 1] {
        Token::Plus => true,
        _ => false,
    }) {
        match parse_inherits(toks, i + 2) {
            Ok(t) => {
                let (mut inh, mut mk, body) = t;
                let ghost inh0 = inh@.map_values(|n: Vec<u8>| n@);
                let ghost mk0 = mk@.map_values(|n: Vec<u8>| n@);
                let ghost namev = name@;
                if is_marker {
                    mk.insert(0, name);
                    proof {
                        assert(mk@.map_values(|n: Vec<u8>| n@) =~= seq![namev] + mk0);
                    }
                } else {
                    inh.insert(0, name);
                    proof {
                        assert(inh@.map_values(|n: Vec<u8>| n@) =~= seq![namev] + inh0);
                    }
                }
                Ok((inh, mk, body))
            },
            Err(e) => Err(e),
        }
    } else if i + 1 < toks.len() && (match &toks[i + 1] {
        Token::LBrace => true,
        _ => false,
    }) {
        let mut inh: Vec<Vec<u8>> = Vec::new();
        let mut mk: Vec<Vec<u8>> = Vec::new();
        let ghost namev = name@;
        if is_marker {
            mk.push(name);
            proof {
                assert(inh@.map_values(|n: Vec<u8>| n@) =~= Seq::<Seq<u8>>::empty());
                assert(mk@.map_values(|n: Vec<u8>| n@) =~= seq![namev]);
            }
        } else {
            inh.push(name);
            proof {
                assert(mk@.map_values(|n: Vec<u8>| n@) =~= Seq::<Seq<u8>>::empty());
                assert(inh@.map_values(|n: Vec<u8>| n@) =~= seq![namev]);
            }
        }
        Ok((inh, mk, i + 2))
    } else {
        Err(GrammarError { position: i + 1, expected: Expected::PlusOrBodyOpen })
    }
}

/// Parse a whole token stream as a context declaration
/// `context Name { field: Type [Strategy], ... }`.
#[verifier::rlimit(100)]
pub fn parse_context(toks: &Vec<Token>) -> (r: Result<ContextDecl, GrammarError>)
    ensures
        (match r {
            Ok(d) => spec_parse_context(toks@) == Ok::<_, GrammarError>(d@),
            Err(err) => spec_parse_context(toks@) == Err::<ContextDeclV, _>(err),
        }),
{
    let n = toks.len();
    if !(n > 0 && (match &toks[0] {
        Token::KwContext => true,
        _ => false,
    })) {
        return Err(GrammarError { position: 0, expected: Expected::DeclKeyword });
    }
    if !(n > 1 && (match &toks[1] {
        Token::Ident(_) => true,
        _ => false,
    })) {
        return Err(GrammarError { position: 1, expected: Expected::Name });
    }
    if !(n > 2 && (match &toks[2] {
        Token::LBrace => true,
        _ => false,
    })) {
        return Err(GrammarError { position: 2, expected: Expected::BodyOpen });
    }
    if !(n - 1 >= 3 && (match &toks[n - 1] {
        Token::RBrace => true,
        _ => false,
    })) {
        let pos = if n - 1 < 3 {
            n
        } else {
            n - 1
        };
        return Err(GrammarError { position: pos, expected: Expected::BodyClose });
    }
    let frs = match split_fragments(toks, 3, n - 1) {
        Err(p) => {
            return Err(GrammarError { position: p, expected: Expected::Item });
        },
        Ok(f) => f,
    };
    let ghost frsv = frs@.map_values(|f: Fragment| (f.start as int, f.end as int));
    let bs = match parse_binding_list(toks, &frs) {
        Err(e) => {
            return Err(e);
        },
        Ok(bs) => bs,
    };
    let name = ident_at(toks, 1);
    let d = ContextDecl { name, bindings: bs };
    proof {
        assert(d@.bindings =~= spec_parse_bindings(toks@, frsv)->Ok_0);
    }
    Ok(d)
}

/// Parse a whole token stream as an interface declaration
/// `interface Name [: Base + ... [+ Clone]] { fn m(&self) -> Type; ... }`.
#[verifier::rlimit(100)]
pub fn parse_interface(toks: &Vec<Token>) -> (r: Result<InterfaceDecl, GrammarError>)
    ensures
        (match r {
            Ok(d) => spec_parse_interface(toks@) == Ok::<_, GrammarError>(d@),
            Err(err) => spec_parse_interface(toks@) == Err::<InterfaceDeclV, _>(err),
        }),
{
    let n = toks.len();
    if !(n > 0 && (match &toks[0] {
        Token::KwInterface => true,
        _ => false,
    })) {
        return Err(GrammarError { position: 0, expected: Expected::DeclKeyword });
    }
    if !(n > 1 && (match &toks[1] {
        Token::Ident(_) => true,
        _ => false,
    })) {
        return Err(GrammarError { position: 1, expected: Expected::Name });
    }
    let header = if n > 2 && (match &toks[2] {
        Token::LBrace => true,
        _ => false,
    }) {
        let inh: Vec<Vec<u8>> = Vec::new();
        let mk: Vec<Vec<u8>> = Vec::new();
        proof {
            assert(inh@.map_values(|nm: Vec<u8>| nm@) =~= Seq::<Seq<u8>>::empty());
            assert(mk@.map_values(|nm: Vec<u8>| nm@) =~= Seq::<Seq<u8>>::empty());
        }
        (inh, mk, 3usize)
    } else if n > 2 && (match &toks[2] {
        Token::Colon => true,
        _ => false,
    }) {
        match parse_inherits(toks, 3) {
            Ok(t) => t,
            Err(e) => {
                return Err(e);
            },
        }
    } else {
        return Err(GrammarError { position: 2, expected: Expected::BodyOrInherit });
    };
    let (inh, mk, body) = header;
    if !(body <= n - 1 && (match &toks[n - 1] {
        Token::RBrace => true,
        _ => false,
    })) {
        let pos = if body > n - 1 {
            n
        } else {
            n - 1
        };
        return Err(GrammarError { position: pos, expected: Expected::BodyClose });
    }
    let frs = match split_fragments(toks, body, n - 1) {
        Err(p) => {
            return Err(GrammarError { position: p, expected: Expected::Item });
        },
        Ok(f) => f,
    };
    let ghost frsv = frs@.map_values(|f: Fragment| (f.start as int, f.end as int));
    let ms = match parse_method_list(toks, &frs) {
        Err(e) => {
            return Err(e);
        },
        Ok(ms) => ms,
    };
    let name = ident_at(toks, 1);
    let d = InterfaceDecl { name, inherits: inh, markers: mk, methods: ms };
    proof {
        assert(d@.methods =~= spec_parse_methods(toks@, frsv)->Ok_0);
    }
    Ok(d)
}

/// Parse a whole token stream as a declaration of either kind, dispatching
/// on the leading keyword.
pub fn parse_declaration(toks: &Vec<Token>) -> (r: Result<Declaration, GrammarError>)
    ensures
        (match r {
            Ok(Declaration::Context(d)) => toks@.len() > 0 && toks@[0] is KwContext
                && spec_parse_context(toks@) == Ok::<_, GrammarError>(d@),
            Ok(Declaration::Interface(d)) => toks@.len() > 0 && toks@[0] is KwInterface
                && spec_parse_interface(toks@) == Ok::<_, GrammarError>(d@),
            Err(err) => {
                if toks@.len() > 0 && toks@[0] is KwContext {
                    spec_parse_context(toks@) == Err::<ContextDeclV, _>(err)
                } else if toks@.len() > 0 && toks@[0] is KwInterface {
                    spec_parse_interface(toks@) == Err::<InterfaceDeclV, _>(err)
                } else {
                    err == (GrammarError { position: 0, expected: Expected::DeclKeyword })
                }
            },
        }),
{
    if toks.len() > 0 && (match &toks[0] {
        Token::KwContext => true,
        _ => false,
    }) {
        match parse_context(toks) {
            Ok(d) => Ok(Declaration::Context(d)),
            Err(e) => Err(e),
        }
    } else if toks.len() > 0 && (match &toks[0] {
        Token::KwInterface => true,
        _ => false,
    }) {
        match parse_interface(toks) {
            Ok(d) => Ok(Declaration::Interface(d)),
            Err(e) => Err(e),
        }
    } else {
        Err(GrammarError { position: 0, expected: Expected::DeclKeyword })
    }
}

/// Parse every fragment of a context body, left to right.
fn parse_binding_list(toks: &Vec<Token>, frs: &Vec<Fragment>) -> (r: Result<
    Vec<Binding>,
    GrammarError,
>)
    requires
        forall|k: int|
            0 <= k < frs@.len() ==> 0 <= (#[trigger] frs@[k]).start <= frs@[k].end <= toks@.len(),
    ensures
        (match r {
            Ok(bs) => spec_parse_bindings(
                toks@,
                frs@.map_values(|f: Fragment| (f.start as int, f.end as int)),
            ) == Ok::<_, GrammarError>(bs@.map_values(|b: Binding| b@)),
            Err(err) => spec_parse_bindings(
                toks@,
                frs@.map_values(|f: Fragment| (f.start as int, f.end as int)),
            ) == Err::<Seq<BindingV>, _>(err),
        }),
{
    let ghost frsv = frs@.map_values(|f: Fragment| (f.start as int, f.end as int));
    let mut bs: Vec<Binding> = Vec::new();
    let mut k: usize = 0;
    proof {
        assert(frsv.skip(0) =~= frsv);
        if spec_parse_bindings(toks@, frsv) is Ok {
            assert(bs@.map_values(|b: Binding| b@) + spec_parse_bindings(toks@, frsv)->Ok_0
                =~= spec_parse_bindings(toks@, frsv)->Ok_0);
        }
    }
    while k < frs.len()
        invariant
            k <= frs@.len(),
            frsv == frs@.map_values(|f: Fragment| (f.start as int, f.end as int)),
            forall|j: int|
                0 <= j < frs@.len() ==> 0 <= (#[trigger] frs@[j]).start <= frs@[j].end
                    <= toks@.len(),
            (match spec_parse_bindings(toks@, frsv.skip(k as int)) {
                Ok(rest) => spec_parse_bindings(toks@, frsv) == Ok::<_, GrammarError>(
                    bs@.map_values(|b: Binding| b@) + rest,
                ),
                Err(e) => spec_parse_bindings(toks@, frsv) == Err::<Seq<BindingV>, _>(e),
            }),
        decreases frs@.len() - k,
    {
        let ghost pre = bs@.map_values(|b: Binding| b@);
        proof {
            assert(frsv.skip(k as int).len() > 0);
            assert(frsv.skip(k as int)[0] == frsv[k as int]);
            assert(frsv.skip(k as int).drop_first() =~= frsv.skip(k as int + 1));
        }
        match parse_binding(toks, frs[k].start, frs[k].end) {
            Ok(b) => {
                let ghost bv = b@;
                bs.push(b);
                proof {
                    assert(bs@.map_values(|b: Binding| b@) =~= pre.push(bv));
                    match spec_parse_bindings(toks@, frsv.skip(k as int + 1)) {
                        Ok(rest2) => {
                            assert(pre + (seq![bv] + rest2) =~= pre.push(bv) + rest2);
                        },
                        Err(_) => {},
                    }
                }
                k += 1;
            },
            Err(e) => {
                return Err(e);
            },
        }
    }
    proof {
        assert(frsv.skip(frs@.len() as int) =~= Seq::<(int, int)>::empty());
        assert(bs@.map_values(|b: Binding| b@) + Seq::<BindingV>::empty() =~= bs@.map_values(
            |b: Binding| b@,
        ));
    }
    Ok(bs)
}

/// Parse every fragment of an interface body, left to right.
fn parse_method_list(toks: &Vec<Token>, frs: &Vec<Fragment>) -> (r: Result<
    Vec<MethodReq>,
    GrammarError,
>)
    requires
        forall|k: int|
            0 <= k < frs@.len() ==> 0 <= (#[trigger] frs@[k]).start <= frs@[k].end <= toks@.len(),
    ensures
        (match r {
            Ok(ms) => spec_parse_methods(
                toks@,
                frs@.map_values(|f: Fragment| (f.start as int, f.end as int)),
            ) == Ok::<_, GrammarError>(ms@.map_values(|m: MethodReq| m@)),
            Err(err) => spec_parse_methods(
                toks@,
                frs@.map_values(|f: Fragment| (f.start as int, f.end as int)),
            ) == Err::<Seq<MethodReqV>, _>(err),
        }),
{
    let ghost frsv = frs@.map_values(|f: Fragment| (f.start as int, f.end as int));
    let mut ms: Vec<MethodReq> = Vec::new();
    let mut k: usize = 0;
    proof {
        assert(frsv.skip(0) =~= frsv);
        if spec_parse_methods(toks@, frsv) is Ok {
            assert(ms@.map_values(|m: MethodReq| m@) + spec_parse_methods(toks@, frsv)->Ok_0
                =~= spec_parse_methods(toks@, frsv)->Ok_0);
        }
    }
    while k < frs.len()
        invariant
            k <= frs@.len(),
            frsv == frs@.map_values(|f: Fragment| (f.start as int, f.end as int)),
            forall|j: int|
                0 <= j < frs@.len() ==> 0 <= (#[trigger] frs@[j]).start <= frs@[j].end
                    <= toks@.len(),
            (match spec_parse_methods(toks@, frsv.skip(k as int)) {
                Ok(rest) => spec_parse_methods(toks@, frsv) == Ok::<_, GrammarError>(
                    ms@.map_values(|m: MethodReq| m@) + rest,
                ),
                Err(e) => spec_parse_methods(toks@, frsv) == Err::<Seq<MethodReqV>, _>(e),
            }),
        decreases frs@.len() - k,
    {
        let ghost pre = ms@.map_values(|m: MethodReq| m@);
        proof {
            assert(frsv.skip(k as int).len() > 0);
            assert(frsv.skip(k as int)[0] == frsv[k as int]);
            assert(frsv.skip(k as int).drop_first() =~= frsv.skip(k as int + 1));
        }
        match parse_method(toks, frs[k].start, frs[k].end) {
            Ok(m) => {
                let ghost mv = m@;
                ms.push(m);
                proof {
                    assert(ms@.map_values(|m: MethodReq| m@) =~= pre.push(mv));
                    match spec_parse_methods(toks@, frsv.skip(k as int + 1)) {
                        Ok(rest2) => {
                            assert(pre + (seq![mv] + rest2) =~= pre.push(mv) + rest2);
                        },
                        Err(_) => {},
                    }
                }
                k += 1;
            },
            Err(e) => {
                return Err(e);
            },
        }
    }
    proof {
        assert(frsv.skip(frs@.len() as int) =~= Seq::<(int, int)>::empty());
        assert(ms@.map_values(|m: MethodReq| m@) + Seq::<MethodReqV>::empty() =~= ms@.map_values(
            |m: MethodReq| m@,
        ));
    }
    Ok(ms)
}

/// The name carried by the identifier token at position `i`.
fn ident_at(toks: &Vec<Token>, i: usize) -> (r: Vec<u8>)
    requires
        i < toks@.len(),
        toks@[i as int] is Ident,
    ensures
        r@ == toks@[i as int]->Ident_0@,
{
    match &toks[i] {
        Token::Ident(n) => copy_name(n),
        _ => {
            proof {
                assert(false);
            }
            Vec::new()
        },
    }
}

} // verus!
