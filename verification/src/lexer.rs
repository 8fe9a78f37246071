//! Splits source text into tokens.
//!
//! The grammar is stated over the UTF-8 bytes of the source: blanks separate
//! tokens and are no tokens themselves, ten tokens have a fixed spelling, a
//! run of ASCII letters is a string body, and any other character is an error
//! token of its own.

use crate::tokens::Token;
use vstd::prelude::*;
use vstd::string::StringSliceAdditionalSpecFns;
use vstd::utf8::*;

verus! {

/// Classes of bytes that the lexer consumes in runs.
#[derive(Clone, Copy, PartialEq, Eq, Structural)]
pub enum ByteClass {
    /// Space, tab, line feed, form feed and vertical tab.
    Blank,
    /// `a` to `z` and `A` to `Z`.
    Letter,
    /// A byte that continues a multi-byte character.
    Continuation,
}

impl ByteClass {
    /// Whether `b` belongs to the class.
    pub open spec fn holds(self, b: u8) -> bool {
        match self {
            ByteClass::Blank => b == 0x20 || b == 0x09 || b == 0x0A || b == 0x0C || b == 0x0B,
            ByteClass::Letter => (0x41 <= b && b <= 0x5A) || (0x61 <= b && b <= 0x7A),
            ByteClass::Continuation => is_continuation_byte(b),
        }
    }

    fn test(self, b: u8) -> (r: bool)
        ensures
            r == self.holds(b),
    {
        match self {
            ByteClass::Blank => b == 0x20 || b == 0x09 || b == 0x0A || b == 0x0C || b == 0x0B,
            ByteClass::Letter => (0x41 <= b && b <= 0x5A) || (0x61 <= b && b <= 0x7A),
            ByteClass::Continuation => 0x80 <= b && b <= 0xBF,
        }
    }
}

/// The first position at or after `pos` whose byte is outside `class`, or the
/// end of `bytes`.
pub open spec fn run_end(bytes: Seq<u8>, pos: int, class: ByteClass) -> int
    decreases bytes.len() - pos,
{
    if 0 <= pos < bytes.len() && class.holds(bytes[pos]) {
        run_end(bytes, pos + 1, class)
    } else {
        pos
    }
}

/// Whether `word` stands in `bytes` at `pos`.
pub open spec fn spelled(bytes: Seq<u8>, pos: int, word: Seq<u8>) -> bool {
    &&& 0 <= pos
    &&& pos + word.len() <= bytes.len()
    &&& bytes.subrange(pos, pos + word.len()) == word
}

/// The token with a fixed spelling that stands at `pos`, if there is one.
pub open spec fn fixed_token_at(bytes: Seq<u8>, pos: int) -> Option<Token> {
    if spelled(bytes, pos, Token::ONE.spelling()) {
        Some(Token::ONE)
    } else if spelled(bytes, pos, Token::FINALIZER.spelling()) {
        Some(Token::FINALIZER)
    } else if spelled(bytes, pos, Token::STRINGSTART.spelling()) {
        Some(Token::STRINGSTART)
    } else if spelled(bytes, pos, Token::STRINGEND.spelling()) {
        Some(Token::STRINGEND)
    } else if spelled(bytes, pos, Token::PRINTSTACK.spelling()) {
        Some(Token::PRINTSTACK)
    } else if spelled(bytes, pos, Token::PLUS.spelling()) {
        Some(Token::PLUS)
    } else if spelled(bytes, pos, Token::MINUS.spelling()) {
        Some(Token::MINUS)
    } else if spelled(bytes, pos, Token::MULT.spelling()) {
        Some(Token::MULT)
    } else if spelled(bytes, pos, Token::DIV.spelling()) {
        Some(Token::DIV)
    } else if spelled(bytes, pos, Token::PROGRAMEND.spelling()) {
        Some(Token::PROGRAMEND)
    } else {
        None
    }
}

/// A token together with the bytes it covers: `start` inclusive, `end`
/// exclusive.
pub ghost struct Lexeme {
    pub token: Token,
    pub start: int,
    pub end: int,
}

/// The lexeme that starts at `start`, a position inside `bytes` that holds no
/// blank.
///
/// A fixed spelling wins; otherwise a letter starts a string body that runs
/// as far as letters go; otherwise the character at `start` is an error token
/// that ends where the next character begins.
pub open spec fn lexeme_at(bytes: Seq<u8>, start: int) -> Lexeme {
    match fixed_token_at(bytes, start) {
        Some(token) => Lexeme { token, start, end: start + token.spelling().len() },
        None => if ByteClass::Letter.holds(bytes[start]) {
            Lexeme {
                token: Token::STRINGLITERAL,
                start,
                end: run_end(bytes, start, ByteClass::Letter),
            }
        } else {
            Lexeme {
                token: Token::Error,
                start,
                end: run_end(bytes, start + 1, ByteClass::Continuation),
            }
        },
    }
}

/// The next lexeme at or after `pos`, or `None` where only blanks are left.
pub open spec fn scan(bytes: Seq<u8>, pos: int) -> Option<Lexeme> {
    let start = run_end(bytes, pos, ByteClass::Blank);
    if start < bytes.len() {
        Some(lexeme_at(bytes, start))
    } else {
        None
    }
}

/// A token as the parser sees it: its kind and its text.
pub ghost struct Word {
    pub token: Token,
    pub text: Seq<char>,
}

/// The word that `lexeme` stands for in `bytes`.
pub open spec fn word_of(bytes: Seq<u8>, lexeme: Lexeme) -> Word {
    Word { token: lexeme.token, text: decode_utf8(bytes.subrange(lexeme.start, lexeme.end)) }
}

/// Every word from `pos` to the end of `bytes`, in order.
pub open spec fn words(bytes: Seq<u8>, pos: int) -> Seq<Word>
    decreases bytes.len() - pos,
{
    if 0 <= pos {
        match scan(bytes, pos) {
            Some(lexeme) => {
                if pos < lexeme.end <= bytes.len() {
                    seq![word_of(bytes, lexeme)] + words(bytes, lexeme.end)
                } else {
                    seq![word_of(bytes, lexeme)]
                }
            },
            None => Seq::empty(),
        }
    } else {
        Seq::empty()
    }
}

/// A run ends at or after the position it starts from, inside `bytes`, on a
/// byte outside the class; every byte it passes is in the class.
pub proof fn lemma_run_end(bytes: Seq<u8>, pos: int, class: ByteClass)
    requires
        0 <= pos <= bytes.len(),
    ensures
        pos <= run_end(bytes, pos, class) <= bytes.len(),
        run_end(bytes, pos, class) < bytes.len() ==> !class.holds(
            bytes[run_end(bytes, pos, class)],
        ),
        forall|i: int| pos <= i < run_end(bytes, pos, class) ==> class.holds(#[trigger] bytes[i]),
    decreases bytes.len() - pos,
{
    if pos < bytes.len() && class.holds(bytes[pos]) {
        lemma_run_end(bytes, pos + 1, class);
    }
}

/// A lexeme is never empty and never reaches past the end of the source.
pub proof fn lemma_lexeme_at_bounds(bytes: Seq<u8>, start: int)
    requires
        0 <= start < bytes.len(),
    ensures
        start < lexeme_at(bytes, start).end <= bytes.len(),
        lexeme_at(bytes, start).start == start,
{
    lemma_run_end(bytes, start, ByteClass::Letter);
    lemma_run_end(bytes, start + 1, ByteClass::Continuation);
    if ByteClass::Letter.holds(bytes[start]) {
        assert(run_end(bytes, start, ByteClass::Letter) == run_end(
            bytes,
            start + 1,
            ByteClass::Letter,
        ));
        lemma_run_end(bytes, start + 1, ByteClass::Letter);
    }
}

/// What `scan` finds lies at or after `pos`, is not empty, and ends inside the
/// source.
pub proof fn lemma_scan_bounds(bytes: Seq<u8>, pos: int)
    requires
        0 <= pos <= bytes.len(),
    ensures
        match scan(bytes, pos) {
            Some(lexeme) => pos <= lexeme.start < lexeme.end <= bytes.len(),
            None => true,
        },
{
    lemma_run_end(bytes, pos, ByteClass::Blank);
    let start = run_end(bytes, pos, ByteClass::Blank);
    if start < bytes.len() {
        lemma_lexeme_at_bounds(bytes, start);
    }
}

/// The words from `pos` on are the next word, then the words from its end on.
pub proof fn lemma_words_step(bytes: Seq<u8>, pos: int)
    requires
        0 <= pos,
    ensures
        words(bytes, pos) == match scan(bytes, pos) {
            Some(lexeme) => seq![word_of(bytes, lexeme)] + words(bytes, lexeme.end),
            None => Seq::empty(),
        },
{
    if pos <= bytes.len() {
        lemma_scan_bounds(bytes, pos);
    }
}

/// The first three bytes at `pos` are those of `word`, as far as it goes.
proof fn lemma_spelled_head(bytes: Seq<u8>, pos: int, word: Seq<u8>)
    requires
        spelled(bytes, pos, word),
    ensures
        word.len() > 0 ==> bytes[pos] == word[0],
        word.len() > 1 ==> bytes[pos + 1] == word[1],
        word.len() > 2 ==> bytes[pos + 2] == word[2],
{
    lemma_spelled_bytes(bytes, pos, word);
    if word.len() > 0 {
        assert(bytes[pos + 0] == word[0]);
    }
}

/// The fixed spellings do not overlap: where the spelling of one token
/// stands, no other does, and the byte there is neither a blank nor a letter.
/// So the token is the next lexeme, whatever the order in which the spellings
/// are tried.
pub proof fn law_spelling_decides(bytes: Seq<u8>, pos: int, token: Token)
    requires
        token != Token::STRINGLITERAL,
        token != Token::Error,
        spelled(bytes, pos, token.spelling()),
    ensures
        fixed_token_at(bytes, pos) == Some(token),
        scan(bytes, pos) == Some(
            Lexeme { token, start: pos, end: pos + token.spelling().len() },
        ),
{
    lemma_spelled_head(bytes, pos, token.spelling());
    if spelled(bytes, pos, Token::ONE.spelling()) {
        lemma_spelled_head(bytes, pos, Token::ONE.spelling());
    }
    if spelled(bytes, pos, Token::FINALIZER.spelling()) {
        lemma_spelled_head(bytes, pos, Token::FINALIZER.spelling());
    }
    if spelled(bytes, pos, Token::STRINGSTART.spelling()) {
        lemma_spelled_head(bytes, pos, Token::STRINGSTART.spelling());
    }
    if spelled(bytes, pos, Token::STRINGEND.spelling()) {
        lemma_spelled_head(bytes, pos, Token::STRINGEND.spelling());
    }
    if spelled(bytes, pos, Token::PRINTSTACK.spelling()) {
        lemma_spelled_head(bytes, pos, Token::PRINTSTACK.spelling());
    }
    if spelled(bytes, pos, Token::PLUS.spelling()) {
        lemma_spelled_head(bytes, pos, Token::PLUS.spelling());
    }
    if spelled(bytes, pos, Token::MINUS.spelling()) {
        lemma_spelled_head(bytes, pos, Token::MINUS.spelling());
    }
    if spelled(bytes, pos, Token::MULT.spelling()) {
        lemma_spelled_head(bytes, pos, Token::MULT.spelling());
    }
    if spelled(bytes, pos, Token::DIV.spelling()) {
        lemma_spelled_head(bytes, pos, Token::DIV.spelling());
    }
    if spelled(bytes, pos, Token::PROGRAMEND.spelling()) {
        lemma_spelled_head(bytes, pos, Token::PROGRAMEND.spelling());
    }
    assert(!ByteClass::Blank.holds(bytes[pos]));
}

/// The number of bytes of the character that `b` leads; 0 where `b` leads
/// none.
pub open spec fn char_width(b: u8) -> int {
    if is_leading_byte_width_1(b) {
        1
    } else if is_leading_byte_width_2(b) {
        2
    } else if is_leading_byte_width_3(b) {
        3
    } else if is_leading_byte_width_4(b) {
        4
    } else {
        0
    }
}

/// In valid UTF-8 a character that starts on a boundary ends on the next one.
pub proof fn lemma_char_step(bytes: Seq<u8>, pos: int)
    requires
        valid_utf8(bytes),
        is_char_boundary(bytes, pos),
        0 <= pos < bytes.len(),
    ensures
        1 <= char_width(bytes[pos]),
        pos + char_width(bytes[pos]) <= bytes.len(),
        is_char_boundary(bytes, pos + char_width(bytes[pos])),
{
    let rest = bytes.subrange(pos, bytes.len() as int);
    valid_utf8_split(bytes, pos);
    assert(rest[0] == bytes[pos]);
    assert(valid_first_scalar(rest));
    let width = length_of_first_scalar(rest);
    assert(width == char_width(bytes[pos]));
    assert(width <= rest.len());
    assert(valid_utf8(pop_first_scalar(rest)));
    assert(is_char_boundary(pop_first_scalar(rest), 0));
    assert(is_char_boundary(rest, width)) by {
        reveal_with_fuel(is_char_boundary, 2);
    }
    if width < rest.len() {
        is_char_boundary_iff_not_is_continuation_byte(rest, width);
        assert(rest[width] == bytes[pos + width]);
        is_char_boundary_iff_not_is_continuation_byte(bytes, pos + width);
    } else {
        is_char_boundary_start_end_of_seq(bytes);
    }
}

/// A run of blanks or of letters that starts on a character boundary ends on
/// one.
pub proof fn lemma_ascii_run_boundary(bytes: Seq<u8>, pos: int, class: ByteClass)
    requires
        valid_utf8(bytes),
        is_char_boundary(bytes, pos),
        0 <= pos <= bytes.len(),
        class != ByteClass::Continuation,
    ensures
        is_char_boundary(bytes, run_end(bytes, pos, class)),
    decreases bytes.len() - pos,
{
    if pos < bytes.len() && class.holds(bytes[pos]) {
        lemma_char_step(bytes, pos);
        lemma_ascii_run_boundary(bytes, pos + 1, class);
    }
}

/// Where `word` stands at `pos`, the bytes from `pos` on are those of `word`.
pub proof fn lemma_spelled_bytes(bytes: Seq<u8>, pos: int, word: Seq<u8>)
    requires
        spelled(bytes, pos, word),
    ensures
        forall|i: int| 0 <= i < word.len() ==> #[trigger] bytes[pos + i] == word[i],
{
    assert forall|i: int| 0 <= i < word.len() implies #[trigger] bytes[pos + i] == word[i] by {
        assert(bytes.subrange(pos, pos + word.len())[i] == bytes[pos + i]);
    }
}

/// A token with a fixed spelling that starts on a character boundary ends on
/// one.
pub proof fn lemma_fixed_token_boundary(bytes: Seq<u8>, pos: int, token: Token)
    requires
        valid_utf8(bytes),
        is_char_boundary(bytes, pos),
        spelled(bytes, pos, token.spelling()),
    ensures
        is_char_boundary(bytes, pos + token.spelling().len()),
{
    let word = token.spelling();
    lemma_spelled_bytes(bytes, pos, word);
    if word.len() >= 1 {
        assert(bytes[pos + 0] == word[0]);
        lemma_char_step(bytes, pos);
        if word.len() >= 6 {
            assert(bytes[pos + 3] == word[3]);
            lemma_char_step(bytes, pos + 3);
        }
        if word.len() >= 9 {
            assert(bytes[pos + 6] == word[6]);
            lemma_char_step(bytes, pos + 6);
        }
        if word.len() >= 12 {
            assert(bytes[pos + 9] == word[9]);
            lemma_char_step(bytes, pos + 9);
        }
    }
}

/// An error token that starts inside the source ends on a character boundary.
pub proof fn lemma_error_token_boundary(bytes: Seq<u8>, pos: int)
    requires
        valid_utf8(bytes),
        0 <= pos < bytes.len(),
    ensures
        is_char_boundary(bytes, run_end(bytes, pos + 1, ByteClass::Continuation)),
{
    lemma_run_end(bytes, pos + 1, ByteClass::Continuation);
    let end = run_end(bytes, pos + 1, ByteClass::Continuation);
    if end < bytes.len() {
        is_char_boundary_iff_not_is_continuation_byte(bytes, end);
    } else {
        is_char_boundary_start_end_of_seq(bytes);
    }
}

/// Every lexeme that starts on a character boundary ends on one.
pub proof fn lemma_lexeme_boundary(bytes: Seq<u8>, start: int)
    requires
        valid_utf8(bytes),
        is_char_boundary(bytes, start),
        0 <= start < bytes.len(),
    ensures
        is_char_boundary(bytes, lexeme_at(bytes, start).end),
{
    match fixed_token_at(bytes, start) {
        Some(token) => {
            lemma_fixed_token_boundary(bytes, start, token);
        },
        None => {
            if ByteClass::Letter.holds(bytes[start]) {
                lemma_ascii_run_boundary(bytes, start, ByteClass::Letter);
            } else {
                lemma_error_token_boundary(bytes, start);
            }
        },
    }
}

/// The end of the run of `class` bytes that starts at `pos`.
fn skip_run(bytes: &[u8], pos: usize, class: ByteClass) -> (end: usize)
    requires
        pos <= bytes@.len(),
    ensures
        end == run_end(bytes@, pos as int, class),
{
    let mut end = pos;
    while end < bytes.len() && class.test(bytes[end])
        invariant
            pos <= end <= bytes@.len(),
            run_end(bytes@, end as int, class) == run_end(bytes@, pos as int, class),
        decreases bytes@.len() - end,
    {
        end += 1;
    }
    end
}

/// Whether `word` stands in `bytes` at `pos`.
fn has_word<const N: usize>(bytes: &[u8], pos: usize, word: &[u8; N]) -> (found: bool)
    requires
        pos <= bytes@.len(),
    ensures
        found == spelled(bytes@, pos as int, word@),
{
    let len = bytes.len();
    if len - pos < N {
        return false;
    }
    let mut i: usize = 0;
    while i < N
        invariant
            i <= N,
            pos + N <= bytes@.len() <= usize::MAX,
            word@.len() == N,
            forall|k: int| 0 <= k < i ==> bytes@[pos + k] == #[trigger] word@[k],
        decreases N - i,
    {
        if bytes[pos + i] != word[i] {
            proof {
                if spelled(bytes@, pos as int, word@) {
                    lemma_spelled_bytes(bytes@, pos as int, word@);
                    assert(bytes@[pos + i as int] == word@[i as int]);
                }
            }
            return false;
        }
        i += 1;
    }
    assert(bytes@.subrange(pos as int, pos + N) =~= word@);
    true
}

/// The token with a fixed spelling that stands at `pos`, if there is one.
fn fixed_token(bytes: &[u8], pos: usize) -> (found: Option<Token>)
    requires
        pos <= bytes@.len(),
    ensures
        found == fixed_token_at(bytes@, pos as int),
{
    let one: [u8; 6] = [0xE3, 0x83, 0xAC, 0xE3, 0x83, 0xA0];
    let finalizer: [u8; 6] = [0xE3, 0x83, 0xA9, 0xE3, 0x83, 0xA0];
    let string_start: [u8; 9] = [0xE3, 0x82, 0xB9, 0xE3, 0x83, 0x90, 0xE3, 0x83, 0xAB];
    let string_end: [u8; 3] = [0xE5, 0x90, 0x9B];
    let print_stack: [u8; 9] = [0xE3, 0x83, 0x99, 0xE3, 0x83, 0x86, 0xE3, 0x82, 0xA3];
    let plus: [u8; 1] = [0x2B];
    let minus: [u8; 1] = [0x2D];
    let mult: [u8; 1] = [0x2A];
    let div: [u8; 1] = [0x2F];
    let program_end: [u8; 12] = [
        0xE3, 0x81, 0x95, 0xE3, 0x82, 0x88, 0xE3, 0x81, 0xAA, 0xE3, 0x82, 0x89,
    ];
    proof {
        assert(one@ =~= Token::ONE.spelling());
        assert(finalizer@ =~= Token::FINALIZER.spelling());
        assert(string_start@ =~= Token::STRINGSTART.spelling());
        assert(string_end@ =~= Token::STRINGEND.spelling());
        assert(print_stack@ =~= Token::PRINTSTACK.spelling());
        assert(plus@ =~= Token::PLUS.spelling());
        assert(minus@ =~= Token::MINUS.spelling());
        assert(mult@ =~= Token::MULT.spelling());
        assert(div@ =~= Token::DIV.spelling());
        assert(program_end@ =~= Token::PROGRAMEND.spelling());
    }
    if has_word(bytes, pos, &one) {
        Some(Token::ONE)
    } else if has_word(bytes, pos, &finalizer) {
        Some(Token::FINALIZER)
    } else if has_word(bytes, pos, &string_start) {
        Some(Token::STRINGSTART)
    } else if has_word(bytes, pos, &string_end) {
        Some(Token::STRINGEND)
    } else if has_word(bytes, pos, &print_stack) {
        Some(Token::PRINTSTACK)
    } else if has_word(bytes, pos, &plus) {
        Some(Token::PLUS)
    } else if has_word(bytes, pos, &minus) {
        Some(Token::MINUS)
    } else if has_word(bytes, pos, &mult) {
        Some(Token::MULT)
    } else if has_word(bytes, pos, &div) {
        Some(Token::DIV)
    } else if has_word(bytes, pos, &program_end) {
        Some(Token::PROGRAMEND)
    } else {
        None
    }
}

/// The token that starts at `start`, and where it ends.
fn read_lexeme(bytes: &[u8], start: usize) -> (found: (Token, usize))
    requires
        start < bytes@.len() <= usize::MAX,
    ensures
        lexeme_at(bytes@, start as int) == (Lexeme {
            token: found.0,
            start: start as int,
            end: found.1 as int,
        }),
{
    proof {
        lemma_lexeme_at_bounds(bytes@, start as int);
    }
    match fixed_token(bytes, start) {
        Some(token) => {
            let len = fixed_len(token);
            assert(start + len <= bytes@.len());
            (token, start + len)
        },
        None => {
            if ByteClass::Letter.test(bytes[start]) {
                (Token::STRINGLITERAL, skip_run(bytes, start, ByteClass::Letter))
            } else {
                (Token::Error, skip_run(bytes, start + 1, ByteClass::Continuation))
            }
        },
    }
}

/// The number of bytes in the token's fixed spelling.
fn fixed_len(token: Token) -> (len: usize)
    ensures
        len == token.spelling().len(),
{
    match token {
        Token::ONE | Token::FINALIZER => 6,
        Token::STRINGSTART | Token::PRINTSTACK => 9,
        Token::STRINGEND => 3,
        Token::PLUS | Token::MINUS | Token::MULT | Token::DIV => 1,
        Token::PROGRAMEND => 12,
        Token::STRINGLITERAL | Token::Error => 0,
    }
}

/// A lexer over one source text.
///
/// It remembers the span of the token it read last; the next token is looked
/// for from the end of that span. A lexer cannot be rewound: to read a text
/// again, make a new one.
pub struct Lexer<'a> {
    source: &'a str,
    token_start: usize,
    token_end: usize,
}

impl<'a> Lexer<'a> {
    #[verifier::type_invariant]
    spec fn inv(self) -> bool {
        &&& self.token_start <= self.token_end <= self.source.spec_bytes().len()
        &&& is_char_boundary(self.source.spec_bytes(), self.token_start as int)
        &&& is_char_boundary(self.source.spec_bytes(), self.token_end as int)
    }

    /// The UTF-8 bytes of the text that the lexer reads.
    pub closed spec fn source(&self) -> Seq<u8> {
        self.source.spec_bytes()
    }

    /// Where the last token starts.
    pub closed spec fn start(&self) -> nat {
        self.token_start as nat
    }

    /// Where the last token ends, and the search for the next one begins.
    pub closed spec fn end(&self) -> nat {
        self.token_end as nat
    }

    /// A lexer over `source`, placed before its first token.
    pub fn new(source: &'a str) -> (lex: Self)
        ensures
            lex.source() == source.spec_bytes(),
            lex.start() == 0,
            lex.end() == 0,
    {
        proof {
            encode_utf8_valid_utf8(source@);
            is_char_boundary_start_end_of_seq(source.spec_bytes());
        }
        Lexer { source, token_start: 0, token_end: 0 }
    }

    /// The text of the last token.
    pub open spec fn text(&self) -> Seq<char> {
        decode_utf8(self.source().subrange(self.start() as int, self.end() as int))
    }

    /// Reads the next token and moves to its span.
    ///
    /// Blanks are passed over. Where only blanks are left the result is
    /// `None`, and the lexer rests at the end of the source with an empty
    /// span.
    pub fn next(&mut self) -> (token: Option<Token>)
        ensures
            final(self).source() == old(self).source(),
            0 <= final(self).start() <= final(self).end() <= final(self).source().len(),
            match scan(old(self).source(), old(self).end() as int) {
                Some(lexeme) => {
                    &&& token == Some(lexeme.token)
                    &&& final(self).start() == lexeme.start
                    &&& final(self).end() == lexeme.end
                },
                None => {
                    &&& token is None
                    &&& final(self).start() == final(self).source().len()
                    &&& final(self).end() == final(self).source().len()
                },
            },
    {
        proof {
            use_type_invariant(&*self);
            encode_utf8_valid_utf8(self.source@);
            lemma_ascii_run_boundary(
                self.source.spec_bytes(),
                self.token_end as int,
                ByteClass::Blank,
            );
            lemma_run_end(self.source.spec_bytes(), self.token_end as int, ByteClass::Blank);
        }
        let bytes = self.source.as_bytes();
        let len = bytes.len();
        let start = skip_run(bytes, self.token_end, ByteClass::Blank);
        if start < len {
            let (token, end) = read_lexeme(bytes, start);
            proof {
                lemma_lexeme_at_bounds(bytes@, start as int);
                lemma_lexeme_boundary(bytes@, start as int);
            }
            self.token_end = end;
            self.token_start = start;
            Some(token)
        } else {
            self.token_end = start;
            self.token_start = start;
            None
        }
    }

    /// The byte range of the last token in the source.
    pub fn span(&self) -> (range: core::ops::Range<usize>)
        ensures
            range.start == self.start(),
            range.end == self.end(),
    {
        self.token_start..self.token_end
    }

    /// The text of the last token, as a slice of the source.
    pub fn slice(&self) -> (text: &'a str)
        ensures
            text.spec_bytes() == self.source().subrange(self.start() as int, self.end() as int),
            text@ == self.text(),
    {
        proof {
            use_type_invariant(self);
            encode_utf8_valid_utf8(self.source@);
        }
        let (head, _) = self.source.split_at(self.token_end);
        proof {
            encode_utf8_valid_utf8(head@);
            if self.token_start < self.token_end {
                is_char_boundary_iff_not_is_continuation_byte(
                    self.source.spec_bytes(),
                    self.token_start as int,
                );
                is_char_boundary_iff_not_is_continuation_byte(
                    head.spec_bytes(),
                    self.token_start as int,
                );
            } else {
                is_char_boundary_start_end_of_seq(head.spec_bytes());
            }
        }
        let (_, text) = head.split_at(self.token_start);
        proof {
            assert(text.spec_bytes() =~= self.source.spec_bytes().subrange(
                self.token_start as int,
                self.token_end as int,
            ));
            encode_utf8_decode_utf8(text@);
        }
        text
    }
}

} // verus!
