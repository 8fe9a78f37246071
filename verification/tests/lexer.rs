use meidolang::tokens::Token;

#[test]
fn lexer_lexes_a_program() {
    let mut lex = Token::lexer("レムレムラムベティレムレムラムベティ+ベティスバルtest君さよなら.");

    assert_eq!(lex.next(), Some(Token::ONE));
    assert_eq!(lex.span(), 0..6);
    assert_eq!(lex.slice(), "レム");

    assert_eq!(lex.next(), Some(Token::ONE));
    assert_eq!(lex.span(), 6..12);
    assert_eq!(lex.slice(), "レム");

    assert_eq!(lex.next(), Some(Token::FINALIZER));
    assert_eq!(lex.span(), 12..18);
    assert_eq!(lex.slice(), "ラム");
}

#[test]
fn lexer_reads_every_token_of_a_program() {
    let mut lex = Token::lexer("レムレムラムベティレムレムラムベティ+ベティスバルtest君さよなら.");
    let expected = [
        (Token::ONE, 0..6, "レム"),
        (Token::ONE, 6..12, "レム"),
        (Token::FINALIZER, 12..18, "ラム"),
        (Token::PRINTSTACK, 18..27, "ベティ"),
        (Token::ONE, 27..33, "レム"),
        (Token::ONE, 33..39, "レム"),
        (Token::FINALIZER, 39..45, "ラム"),
        (Token::PRINTSTACK, 45..54, "ベティ"),
        (Token::PLUS, 54..55, "+"),
        (Token::PRINTSTACK, 55..64, "ベティ"),
        (Token::STRINGSTART, 64..73, "スバル"),
        (Token::STRINGLITERAL, 73..77, "test"),
        (Token::STRINGEND, 77..80, "君"),
        (Token::PROGRAMEND, 80..92, "さよなら"),
        (Token::Error, 92..93, "."),
    ];
    for (token, span, text) in expected {
        assert_eq!(lex.next(), Some(token));
        assert_eq!(lex.span(), span);
        assert_eq!(lex.slice(), text);
    }
    assert_eq!(lex.next(), None);
    assert_eq!(lex.span(), 93..93);
    assert_eq!(lex.slice(), "");
    assert_eq!(lex.next(), None);
}

#[test]
fn lexer_of_empty_source_is_at_its_end() {
    let mut lex = Token::lexer("");
    assert_eq!(lex.span(), 0..0);
    assert_eq!(lex.next(), None);
    assert_eq!(lex.span(), 0..0);
    assert_eq!(lex.slice(), "");
}

#[test]
fn lexer_skips_blanks() {
    let mut lex = Token::lexer(" \t\n\x0C\x0B+ \n -\t");
    assert_eq!(lex.next(), Some(Token::PLUS));
    assert_eq!(lex.span(), 5..6);
    assert_eq!(lex.next(), Some(Token::MINUS));
    assert_eq!(lex.span(), 9..10);
    assert_eq!(lex.next(), None);
    assert_eq!(lex.span(), 11..11);
}

#[test]
fn lexer_reads_operators() {
    let mut lex = Token::lexer("+-*/");
    assert_eq!(lex.next(), Some(Token::PLUS));
    assert_eq!(lex.next(), Some(Token::MINUS));
    assert_eq!(lex.next(), Some(Token::MULT));
    assert_eq!(lex.next(), Some(Token::DIV));
    assert_eq!(lex.next(), None);
}

#[test]
fn lexer_takes_letters_as_far_as_they_go() {
    let mut lex = Token::lexer("abcXYZ az AZ");
    assert_eq!(lex.next(), Some(Token::STRINGLITERAL));
    assert_eq!(lex.slice(), "abcXYZ");
    assert_eq!(lex.next(), Some(Token::STRINGLITERAL));
    assert_eq!(lex.slice(), "az");
    assert_eq!(lex.next(), Some(Token::STRINGLITERAL));
    assert_eq!(lex.slice(), "AZ");
    assert_eq!(lex.next(), None);
}

#[test]
fn lexer_reports_one_character_per_error() {
    // A carriage return is no blank; a digit, a bracket and the characters
    // next to the letters are no letters.
    let mut lex = Token::lexer("\r1@[`{");
    for start in 0..6 {
        assert_eq!(lex.next(), Some(Token::Error));
        assert_eq!(lex.span(), start..start + 1);
    }
    assert_eq!(lex.next(), None);
}

#[test]
fn lexer_error_covers_a_whole_character() {
    // The first character starts like a tally mark but is none; the error
    // covers its three bytes, and lexing goes on behind it.
    let mut lex = Token::lexer("レxムé😀+");
    assert_eq!(lex.next(), Some(Token::Error));
    assert_eq!(lex.span(), 0..3);
    assert_eq!(lex.slice(), "レ");
    assert_eq!(lex.next(), Some(Token::STRINGLITERAL));
    assert_eq!(lex.slice(), "x");
    assert_eq!(lex.next(), Some(Token::Error));
    assert_eq!(lex.slice(), "ム");
    assert_eq!(lex.next(), Some(Token::Error));
    assert_eq!(lex.span(), 7..9);
    assert_eq!(lex.slice(), "é");
    assert_eq!(lex.next(), Some(Token::Error));
    assert_eq!(lex.span(), 9..13);
    assert_eq!(lex.slice(), "😀");
    assert_eq!(lex.next(), Some(Token::PLUS));
    assert_eq!(lex.next(), None);
}

#[test]
fn lexer_error_on_a_cut_off_word() {
    // The end-of-program word without its last character.
    let mut lex = Token::lexer("さよな");
    assert_eq!(lex.next(), Some(Token::Error));
    assert_eq!(lex.slice(), "さ");
    assert_eq!(lex.next(), Some(Token::Error));
    assert_eq!(lex.slice(), "よ");
    assert_eq!(lex.next(), Some(Token::Error));
    assert_eq!(lex.slice(), "な");
    assert_eq!(lex.next(), None);
}
