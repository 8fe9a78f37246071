use meidolang::parser::{Expr, ParseEnd, ParseError, Parser, Val};
use meidolang::tokens::Token;

fn number(n: i32) -> Expr {
    Expr::Number(Box::new(Val { n }))
}

fn binary(op: char, left: Expr, right: Expr) -> Expr {
    Expr::Binary { op, left: Box::new(left), right: Box::new(right) }
}

fn call(other: Expr, actual: Expr) -> Expr {
    Expr::Call { other: Box::new(other), actual: Box::new(actual) }
}

fn string_print(text: &str) -> Expr {
    Expr::StringPrint(Box::new(text.to_string()))
}

fn stack_of(parser: &Parser) -> Vec<Expr> {
    parser.stack.iter().map(|e| (**e).clone()).collect()
}

#[test]
fn parse_nb_expr_parses_a_number() {
    let lex = Token::lexer("レムラム");
    let mut parse: Parser = Parser::new(lex);
    assert_eq!(parse.parse_nb_expr().unwrap().n, 1)
}

#[test]
fn parse_nb_expr_parses_a_larger_number() {
    let lex = Token::lexer("レムレムレムレムラム");
    let mut parse: Parser = Parser::new(lex);
    assert_eq!(parse.parse_nb_expr().unwrap().n, 4)
}

#[test]
#[allow(unused_must_use)]
fn parse_binary_expr_parses_plus_operation() {
    let lex = Token::lexer("レムレムラムレムレムラム+");
    let mut parse: Parser = Parser::new(lex);
    parse.parse_expr();
    parse.parse_expr();
    assert_eq!(parse.parse_expr().unwrap(), Expr::Binary {
        op: '+',
        left: Box::new(Expr::Number(Box::new(Val { n: 2 }))),
        right: Box::new(Expr::Number(Box::new(Val { n: 2 })))
    })
}

#[test]
#[allow(unused_must_use)]
fn parse_binary_expr_parses_minus_operation() {
    let lex = Token::lexer("レムレムラムレムレムラム-");
    let mut parse: Parser = Parser::new(lex);
    parse.parse_expr();
    parse.parse_expr();
    assert_eq!(parse.parse_binary_expr().unwrap(), Expr::Binary {
        op: '-',
        left: Box::new(Expr::Number(Box::new(Val { n: 2 }))),
        right: Box::new(Expr::Number(Box::new(Val { n: 2 })))
    })
}

#[test]
#[allow(unused_must_use)]
fn parse_binary_expr_parses_mult_operation() {
    let lex = Token::lexer("レムレムラムレムレムラム*");
    let mut parse: Parser = Parser::new(lex);
    parse.parse_expr();
    parse.parse_expr();
    assert_eq!(parse.parse_binary_expr().unwrap(), Expr::Binary {
        op: '*',
        left: Box::new(Expr::Number(Box::new(Val { n: 2 }))),
        right: Box::new(Expr::Number(Box::new(Val { n: 2 })))
    })
}

#[test]
#[allow(unused_must_use)]
fn parse_binary_expr_parses_div_operation() {
    let lex = Token::lexer("レムレムラムレムレムラム/");
    let mut parse: Parser = Parser::new(lex);
    parse.parse_expr();
    parse.parse_expr();
    assert_eq!(parse.parse_binary_expr().unwrap(), Expr::Binary {
        op: '/',
        left: Box::new(Expr::Number(Box::new(Val { n: 2 }))),
        right: Box::new(Expr::Number(Box::new(Val { n: 2 })))
    })
}

#[test]
#[allow(unused_must_use)]
fn parse_binary_expr_parses_multiple_operations() {
    let lex = Token::lexer("レムレムラムレムレムラム+レムラム-");
    let mut parse: Parser = Parser::new(lex);
    parse.parse_expr();
    parse.parse_expr();
    assert_eq!(parse.parse_expr().unwrap(), Expr::Binary {
        op: '+',
        left: Box::new(Expr::Number(Box::new(Val { n: 2 }))),
        right: Box::new(Expr::Number(Box::new(Val { n: 2 })))
    });
    parse.parse_expr();
    assert_eq!(parse.parse_expr().unwrap(), Expr::Binary {
        op: '-',
        left: Box::new(Expr::Binary {
            op: '+',
            left: Box::new(Expr::Number(Box::new(Val { n: 2 }))),
            right: Box::new(Expr::Number(Box::new(Val { n: 2 })))
        }),
        right: Box::new(Expr::Number(Box::new(Val { n: 1 })))
    });
}

#[test]
fn unary_run_of_every_small_length_decodes_to_its_length() {
    for n in 0..40 {
        let source = "レム".repeat(n) + "ラム";
        let mut parse = Parser::new(Token::lexer(&source));
        assert_eq!(parse.parse_nb_expr(), Ok(Val { n: n as i32 }));
        assert_eq!(parse.current(), None);
    }
}

#[test]
fn closing_mark_alone_decodes_to_zero_but_starts_no_construct() {
    let mut parse = Parser::new(Token::lexer("ラム"));
    assert_eq!(parse.parse_expr(), Err(ParseError::UnrecognizedConstruct));
    assert_eq!(parse.current(), Some(Token::FINALIZER));
    assert_eq!(parse.parse_nb_expr(), Ok(Val { n: 0 }));
    assert_eq!(parse.current(), None);
}

#[test]
fn number_without_closing_mark_is_malformed() {
    let mut parse = Parser::new(Token::lexer("レムレム"));
    assert_eq!(parse.parse_expr(), Err(ParseError::MalformedNumber));
    assert_eq!(parse.current(), None);
    assert!(parse.stack.is_empty());

    let mut parse = Parser::new(Token::lexer("レムレム+ラム"));
    assert_eq!(parse.parse_nb_expr(), Err(ParseError::MalformedNumber));
    // The token that broke the number is the one at hand.
    assert_eq!(parse.current(), Some(Token::PLUS));
    assert!(parse.stack.is_empty());
}

#[test]
fn number_is_pushed_and_counts_as_operand() {
    let mut parse = Parser::new(Token::lexer("レムレムレムラム"));
    assert_eq!(parse.parse_expr(), Ok(number(3)));
    assert_eq!(stack_of(&parse), vec![number(3)]);
    assert_eq!(parse.current(), None);
}

#[test]
fn operand_written_first_is_the_left_one() {
    for (symbol, op) in [("+", '+'), ("-", '-'), ("*", '*'), ("/", '/')] {
        let source = format!("レムレムレムラム レムラム {}", symbol);
        let mut parse = Parser::new(Token::lexer(&source));
        assert_eq!(parse.parse_expr(), Ok(number(3)));
        assert_eq!(parse.parse_expr(), Ok(number(1)));
        assert_eq!(parse.parse_expr(), Ok(binary(op, number(3), number(1))));
        assert_eq!(stack_of(&parse), vec![binary(op, number(3), number(1))]);
    }
}

#[test]
fn operator_with_too_few_operands_changes_nothing() {
    let mut parse = Parser::new(Token::lexer("+"));
    assert_eq!(parse.parse_expr(), Err(ParseError::InsufficientOperands));
    assert!(parse.stack.is_empty());
    assert_eq!(parse.current(), Some(Token::PLUS));

    let mut parse = Parser::new(Token::lexer("レムラム*"));
    assert_eq!(parse.parse_expr(), Ok(number(1)));
    assert_eq!(parse.parse_expr(), Err(ParseError::InsufficientOperands));
    assert_eq!(stack_of(&parse), vec![number(1)]);
    assert_eq!(parse.current(), Some(Token::MULT));
    assert_eq!(parse.parse_binary_expr(), Err(ParseError::InsufficientOperands));
    assert_eq!(stack_of(&parse), vec![number(1)]);
}

#[test]
fn print_statement_alone_is_no_operand() {
    // The stack holds two entries, but only the number is an operand.
    let mut parse = Parser::new(Token::lexer("ベティレムラム+"));
    assert_eq!(parse.parse_expr(), Ok(Expr::PrintStack));
    assert_eq!(parse.parse_expr(), Ok(number(1)));
    assert_eq!(parse.parse_expr(), Err(ParseError::InsufficientOperands));
    assert_eq!(stack_of(&parse), vec![Expr::PrintStack, number(1)]);
}

#[test]
fn binary_expression_without_operator_is_refused() {
    let mut parse = Parser::new(Token::lexer("レムラムレムラムベティ"));
    assert_eq!(parse.parse_expr(), Ok(number(1)));
    assert_eq!(parse.parse_expr(), Ok(number(1)));
    assert_eq!(parse.current(), Some(Token::PRINTSTACK));
    assert_eq!(parse.parse_binary_expr(), Err(ParseError::UnknownOperator));
    // Both operands have left the stack.
    assert!(parse.stack.is_empty());
    assert_eq!(parse.current(), Some(Token::PRINTSTACK));
}

#[test]
fn string_statement_on_empty_stack_stands_alone() {
    let mut parse = Parser::new(Token::lexer("スバルhello君"));
    assert_eq!(parse.parse_expr(), Ok(string_print("hello ")));
    assert_eq!(stack_of(&parse), vec![string_print("hello ")]);
    assert_eq!(parse.current(), None);
}

#[test]
fn string_statement_is_threaded_after_pending_expression() {
    let mut parse = Parser::new(Token::lexer("レムレムラムスバルab君"));
    assert_eq!(parse.parse_expr(), Ok(number(2)));
    assert_eq!(parse.parse_expr(), Ok(call(number(2), string_print("ab "))));
    assert_eq!(stack_of(&parse), vec![call(number(2), string_print("ab "))]);
}

#[test]
fn string_statement_takes_only_the_newest_entry() {
    let mut parse = Parser::new(Token::lexer("レムラムレムレムラムスバルab君スバルcd君"));
    parse.parse_expr().unwrap();
    parse.parse_expr().unwrap();
    parse.parse_expr().unwrap();
    let first = call(number(2), string_print("ab "));
    assert_eq!(stack_of(&parse), vec![number(1), first.clone()]);
    let second = call(first, string_print("cd "));
    assert_eq!(parse.parse_expr(), Ok(second.clone()));
    assert_eq!(stack_of(&parse), vec![number(1), second]);
}

#[test]
fn string_statement_without_body_is_refused() {
    let mut parse = Parser::new(Token::lexer("レムラムスバル君"));
    parse.parse_expr().unwrap();
    assert_eq!(parse.parse_expr(), Err(ParseError::NoStringFound));
    assert_eq!(parse.current(), Some(Token::STRINGEND));
    assert_eq!(stack_of(&parse), vec![number(1)]);

    let mut parse = Parser::new(Token::lexer("スバル"));
    assert_eq!(parse.parse_expr(), Err(ParseError::NoStringFound));
    assert_eq!(parse.current(), None);
}

#[test]
fn string_statement_without_closing_is_refused() {
    let mut parse = Parser::new(Token::lexer("レムラムスバルab+"));
    parse.parse_expr().unwrap();
    assert_eq!(parse.parse_expr(), Err(ParseError::StringNotTerminated));
    assert_eq!(parse.current(), Some(Token::PLUS));
    assert_eq!(stack_of(&parse), vec![number(1)]);

    let mut parse = Parser::new(Token::lexer("スバルab"));
    assert_eq!(parse.parse_expr(), Err(ParseError::StringNotTerminated));
    assert_eq!(parse.current(), None);
}

#[test]
fn string_body_holds_letters_only() {
    // A digit is no part of a string body.
    let mut parse = Parser::new(Token::lexer("スバルab1君"));
    assert_eq!(parse.parse_expr(), Err(ParseError::StringNotTerminated));
    assert_eq!(parse.current(), Some(Token::Error));
}

#[test]
fn print_stack_statement_threads_like_a_string_statement() {
    let mut parse = Parser::new(Token::lexer("ベティ"));
    assert_eq!(parse.parse_expr(), Ok(Expr::PrintStack));
    assert_eq!(stack_of(&parse), vec![Expr::PrintStack]);

    let mut parse = Parser::new(Token::lexer("レムレムラムレムレムレムラムベティ"));
    parse.parse_expr().unwrap();
    parse.parse_expr().unwrap();
    assert_eq!(parse.parse_expr(), Ok(call(number(3), Expr::PrintStack)));
    assert_eq!(stack_of(&parse), vec![number(2), call(number(3), Expr::PrintStack)]);
}

#[test]
fn threaded_expression_is_still_an_operand() {
    let mut parse = Parser::new(Token::lexer("レムレムラムベティレムラム+"));
    parse.parse_expr().unwrap();
    parse.parse_expr().unwrap();
    parse.parse_expr().unwrap();
    assert_eq!(
        parse.parse_expr(),
        Ok(binary('+', call(number(2), Expr::PrintStack), number(1)))
    );
}

#[test]
fn program_end_discards_the_rest() {
    let mut parse = Parser::new(Token::lexer("レムラムさよならレムレムラム+スバル"));
    assert_eq!(parse.parse_expr(), Ok(number(1)));
    assert_eq!(parse.parse_expr(), Ok(Expr::ProgramEnd));
    assert_eq!(parse.current(), None);
    assert_eq!(parse.parse_expr(), Err(ParseError::UnrecognizedConstruct));
    assert_eq!(parse.parse_expr(), Err(ParseError::UnrecognizedConstruct));
    assert_eq!(stack_of(&parse), vec![number(1), Expr::ProgramEnd]);
}

#[test]
fn program_of_only_program_end() {
    let mut parse = Parser::new(Token::lexer("さよなら"));
    assert_eq!(parse.parse_program().failure, ParseError::UnrecognizedConstruct);
    assert_eq!(parse.current(), None);
    assert_eq!(stack_of(&parse), vec![Expr::ProgramEnd]);
}

#[test]
fn unknown_input_stops_the_parser() {
    let mut parse = Parser::new(Token::lexer("レムラム.レムラム"));
    assert_eq!(parse.parse_program().failure, ParseError::UnrecognizedConstruct);
    assert_eq!(parse.current(), Some(Token::Error));
    assert_eq!(stack_of(&parse), vec![number(1)]);
    // The parser does not move past the error.
    assert_eq!(parse.parse_expr(), Err(ParseError::UnrecognizedConstruct));
    assert_eq!(parse.current(), Some(Token::Error));
}

#[test]
fn tokens_that_start_no_construct_are_refused() {
    for source in ["ラム", "君", "abc", "?"] {
        let mut parse = Parser::new(Token::lexer(source));
        assert_eq!(parse.parse_expr(), Err(ParseError::UnrecognizedConstruct));
        assert!(parse.stack.is_empty());
    }
}

#[test]
fn parse_program_runs_until_the_first_failure() {
    let mut parse = Parser::new(Token::lexer("レムレムラムレムレムラム+レムラム-"));
    assert_eq!(parse.parse_program().failure, ParseError::UnrecognizedConstruct);
    assert_eq!(parse.current(), None);
    assert_eq!(
        stack_of(&parse),
        vec![binary('-', binary('+', number(2), number(2)), number(1))]
    );

    let mut parse = Parser::new(Token::lexer("レムラム+レムラム"));
    assert_eq!(parse.parse_program().failure, ParseError::InsufficientOperands);
    assert_eq!(parse.current(), Some(Token::PLUS));
    assert_eq!(stack_of(&parse), vec![number(1)]);
}

#[test]
fn number_then_string_statement() {
    let mut parse = Parser::new(Token::lexer("レムレムラムスバルab君"));
    parse.parse_program();
    assert_eq!(stack_of(&parse), vec![call(number(2), string_print("ab "))]);
}

#[test]
fn two_numbers_then_stack_dump() {
    let mut parse = Parser::new(Token::lexer("レムレムラムレムレムレムラムベティ"));
    parse.parse_program();
    assert_eq!(stack_of(&parse), vec![number(2), call(number(3), Expr::PrintStack)]);
}

#[test]
fn copy_of_an_expression_is_equal_to_it() {
    let tree = binary(
        '*',
        call(number(7), string_print("x ")),
        call(call(number(1), Expr::PrintStack), Expr::ProgramEnd),
    );
    assert_eq!(tree.duplicate(), tree);
    assert_eq!(tree.clone(), tree);
}

#[test]
fn program_is_the_stack() {
    let mut parse = Parser::new(Token::lexer("レムラムスバルa君レムレムラム"));
    parse.parse_program();
    let from_accessor: Vec<Expr> = parse.program().iter().map(|e| (**e).clone()).collect();
    assert_eq!(from_accessor, stack_of(&parse));
    assert_eq!(from_accessor, vec![call(number(1), string_print("a ")), number(2)]);
}

#[test]
fn blanks_may_stand_between_tokens() {
    let mut parse = Parser::new(Token::lexer(" レム レム\nラム\tレムラム\n+ "));
    assert_eq!(parse.parse_program().failure, ParseError::UnrecognizedConstruct);
    assert_eq!(parse.current(), None);
    assert_eq!(stack_of(&parse), vec![binary('+', number(2), number(1))]);
}

#[test]
fn end_of_parsing_names_the_token_at_hand() {
    let mut parse = Parser::new(Token::lexer("レムラム"));
    let end = parse.parse_program();
    assert_eq!(end, ParseEnd { failure: ParseError::UnrecognizedConstruct, token: None });
    assert!(end.is_clean());

    let mut parse = Parser::new(Token::lexer("レムラム さよなら +"));
    assert!(parse.parse_program().is_clean());

    let mut parse = Parser::new(Token::lexer("レムラム 君"));
    let end = parse.parse_program();
    assert_eq!(
        end,
        ParseEnd { failure: ParseError::UnrecognizedConstruct, token: Some(Token::STRINGEND) }
    );
    assert!(!end.is_clean());

    let mut parse = Parser::new(Token::lexer("レム"));
    let end = parse.parse_program();
    assert_eq!(end, ParseEnd { failure: ParseError::MalformedNumber, token: None });
    assert!(!end.is_clean());
}
