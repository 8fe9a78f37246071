//! The token vocabulary of the language.

use crate::lexer::Lexer;
use vstd::prelude::*;
use vstd::string::StringSliceAdditionalSpecFns;

verus! {

/// The kinds of token that the lexer produces.
///
/// Ten kinds have one fixed spelling. `STRINGLITERAL` is a run of ASCII
/// letters, and `Error` stands for one character that starts no token.
#[allow(non_camel_case_types)]
#[derive(Debug, PartialEq, Eq, Clone, Copy, Structural)]
pub enum Token {
    /// One tally mark of a unary number: `レム`.
    ONE,
    /// The mark that closes a unary number: `ラム`.
    FINALIZER,
    /// Opens a string statement: `スバル`.
    STRINGSTART,
    /// The body of a string statement: one or more ASCII letters.
    STRINGLITERAL,
    /// Closes a string statement: `君`.
    STRINGEND,
    /// Prints every live value: `ベティ`.
    PRINTSTACK,
    /// `+`
    PLUS,
    /// `-`
    MINUS,
    /// `*`
    MULT,
    /// `/`
    DIV,
    /// Ends the program; the rest of the source is ignored: `さよなら`.
    PROGRAMEND,
    /// A character that starts no token.
    Error,
}

impl Token {
    /// The UTF-8 bytes of the token's fixed spelling; empty for the two kinds
    /// that have none.
    pub open spec fn spelling(self) -> Seq<u8> {
        match self {
            Token::ONE => seq![0xE3u8, 0x83u8, 0xACu8, 0xE3u8, 0x83u8, 0xA0u8],
            Token::FINALIZER => seq![0xE3u8, 0x83u8, 0xA9u8, 0xE3u8, 0x83u8, 0xA0u8],
            Token::STRINGSTART => seq![
                0xE3u8, 0x82u8, 0xB9u8, 0xE3u8, 0x83u8, 0x90u8, 0xE3u8, 0x83u8, 0xABu8,
            ],
            Token::STRINGEND => seq![0xE5u8, 0x90u8, 0x9Bu8],
            Token::PRINTSTACK => seq![
                0xE3u8, 0x83u8, 0x99u8, 0xE3u8, 0x83u8, 0x86u8, 0xE3u8, 0x82u8, 0xA3u8,
            ],
            Token::PLUS => seq![0x2Bu8],
            Token::MINUS => seq![0x2Du8],
            Token::MULT => seq![0x2Au8],
            Token::DIV => seq![0x2Fu8],
            Token::PROGRAMEND => seq![
                0xE3u8, 0x81u8, 0x95u8, 0xE3u8, 0x82u8, 0x88u8, 0xE3u8, 0x81u8, 0xAAu8, 0xE3u8,
                0x82u8, 0x89u8,
            ],
            Token::STRINGLITERAL | Token::Error => Seq::empty(),
        }
    }

    /// A lexer over `source`, placed before its first token.
    pub fn lexer<'a>(source: &'a str) -> (lex: Lexer<'a>)
        ensures
            lex.source() == source.spec_bytes(),
            lex.start() == 0,
            lex.end() == 0,
    {
        Lexer::new(source)
    }
}

} // verus!
