//! The specification token stream: an ordered sequence of lexical fragments
//! representing one declaration (a context block or an interface block).
//! A stream is immutable once produced and is consumed exactly once by the
//! parser.

use vstd::prelude::*;

verus! {

/// One lexical fragment of a declaration.
pub enum Token {
    /// A name: an interface, context, field, method, type or factory name.
    Ident(Vec<u8>),
    /// The keyword `context`.
    KwContext,
    /// The keyword `interface`.
    KwInterface,
    /// The keyword `fn`.
    KwFn,
    /// The receiver fragment `&self`.
    SelfRef,
    /// `:`
    Colon,
    /// `+`
    Plus,
    /// `,`
    Comma,
    /// `;`
    Semi,
    /// `->`
    Arrow,
    /// `{`
    LBrace,
    /// `}`
    RBrace,
    /// `[`
    LBracket,
    /// `]`
    RBracket,
    /// `(`
    LParen,
    /// `)`
    RParen,
}

impl Token {
    /// Whether this fragment separates two body items. Body items may be
    /// separated by commas or by semicolons, interchangeably.
    pub open spec fn spec_is_separator(&self) -> bool {
        self is Comma || self is Semi
    }

    #[verifier::when_used_as_spec(spec_is_separator)]
    pub fn is_separator(&self) -> (r: bool)
        ensures
            r == self.spec_is_separator(),
    {
        match self {
            Token::Comma => true,
            Token::Semi => true,
            _ => false,
        }
    }
}

} // verus!
