//! Builds expressions from tokens with the help of an operand stack.
//!
//! The parser reads one token ahead. Each step consumes one construct and
//! leaves its expression on the stack: a number, an operator applied to the
//! two newest entries, or a print statement threaded after the newest entry.
//! What each step does is stated over a model of the parser, [`Model`], by
//! [`step`].

use crate::lexer::{law_spelling_decides, lemma_words_step, spelled, words, Lexer, Word};
use crate::tokens::Token;
use vstd::prelude::*;
use vstd::string::StringExecFns;

verus! {

/// The value of a number literal.
#[derive(Debug, PartialEq, Clone, Copy)]
pub struct Val {
    pub n: i32,
}

/// A node of the syntax tree.
#[derive(Debug, PartialEq)]
pub enum Expr {
    /// An operator applied to two operands; `op` is one of `+ - * /`.
    Binary { op: char, left: Box<Expr>, right: Box<Expr> },
    /// Runs `other`, then `actual`.
    Call { other: Box<Expr>, actual: Box<Expr> },
    /// A number literal.
    Number(Box<Val>),
    /// Prints every live value.
    PrintStack,
    /// Ends the program.
    ProgramEnd,
    /// Prints a text.
    StringPrint(Box<String>),
}

/// The mathematical form of an [`Expr`]: the same tree, with texts as
/// sequences of characters.
pub ghost enum Ast {
    Binary { op: char, left: Box<Ast>, right: Box<Ast> },
    Call { other: Box<Ast>, actual: Box<Ast> },
    Number(i32),
    PrintStack,
    ProgramEnd,
    StringPrint(Seq<char>),
}

impl Expr {
    /// The expression in mathematical form.
    pub open spec fn ast(self) -> Ast
        decreases self,
    {
        match self {
            Expr::Binary { op, left, right } => Ast::Binary {
                op,
                left: Box::new((*left).ast()),
                right: Box::new((*right).ast()),
            },
            Expr::Call { other, actual } => Ast::Call {
                other: Box::new((*other).ast()),
                actual: Box::new((*actual).ast()),
            },
            Expr::Number(val) => Ast::Number(val.n),
            Expr::PrintStack => Ast::PrintStack,
            Expr::ProgramEnd => Ast::ProgramEnd,
            Expr::StringPrint(text) => Ast::StringPrint(text@),
        }
    }
}

impl View for Expr {
    type V = Ast;

    open spec fn view(&self) -> Ast {
        self.ast()
    }
}

impl Expr {
    /// A deep copy of the expression.
    pub fn duplicate(&self) -> (copy: Expr)
        ensures
            copy@ == self@,
        decreases self,
    {
        match self {
            Expr::Binary { op, left, right } => Expr::Binary {
                op: *op,
                left: Box::new(left.duplicate()),
                right: Box::new(right.duplicate()),
            },
            Expr::Call { other, actual } => Expr::Call {
                other: Box::new(other.duplicate()),
                actual: Box::new(actual.duplicate()),
            },
            Expr::Number(val) => Expr::Number(Box::new(Val { n: val.n })),
            Expr::PrintStack => Expr::PrintStack,
            Expr::ProgramEnd => Expr::ProgramEnd,
            Expr::StringPrint(text) => Expr::StringPrint(Box::new(String::from_str(text.as_str()))),
        }
    }
}

/// Whether `op` is one of the four operators.
pub open spec fn is_operator(op: char) -> bool {
    op == '+' || op == '-' || op == '*' || op == '/'
}

impl Ast {
    /// Whether the expression stands for exactly one value: a number, an
    /// operation on two such expressions, or such an expression with
    /// statements threaded after it.
    pub open spec fn yields_value(self) -> bool
        decreases self,
    {
        match self {
            Ast::Number(_) => true,
            Ast::Binary { op, left, right } => {
                &&& is_operator(op)
                &&& (*left).yields_value()
                &&& (*right).yields_value()
            },
            Ast::Call { other, actual } => (*other).yields_value() && (*actual).yields_nothing(),
            _ => false,
        }
    }

    /// Whether no number in the expression is negative.
    pub open spec fn natural(self) -> bool
        decreases self,
    {
        match self {
            Ast::Number(n) => n >= 0,
            Ast::Binary { left, right, .. } => (*left).natural() && (*right).natural(),
            Ast::Call { other, actual } => (*other).natural() && (*actual).natural(),
            _ => true,
        }
    }

    /// Whether the expression stands for no value: a print statement, the end
    /// of the program, or a sequence of such.
    pub open spec fn yields_nothing(self) -> bool
        decreases self,
    {
        match self {
            Ast::StringPrint(_) => true,
            Ast::PrintStack => true,
            Ast::ProgramEnd => true,
            Ast::Call { other, actual } => (*other).yields_nothing() && (*actual).yields_nothing(),
            _ => false,
        }
    }
}

impl Clone for Expr {
    fn clone(&self) -> (copy: Self)
        ensures
            copy@ == self@,
    {
        self.duplicate()
    }
}

/// Why a parsing step failed.
#[derive(Debug, PartialEq, Eq, Clone, Copy, Structural)]
pub enum ParseError {
    /// A run of tally marks is not closed, or is too long for an `i32`.
    MalformedNumber,
    /// An operator found fewer than two operands.
    InsufficientOperands,
    /// A binary expression was asked for where no operator stands.
    UnknownOperator,
    /// The opening of a string statement is not followed by a string body.
    NoStringFound,
    /// The body of a string statement is not followed by its closing.
    StringNotTerminated,
    /// No construct starts with the token at hand, or the input is at its end.
    UnrecognizedConstruct,
}

/// How parsing ended: the failure of the last step, and the token that was at
/// hand then.
#[derive(Debug, PartialEq, Eq, Clone, Copy)]
pub struct ParseEnd {
    pub failure: ParseError,
    pub token: Option<Token>,
}

impl ParseEnd {
    /// Whether the whole input was read: the last step failed for want of a
    /// token, not over one. Any other end is a syntax error at `token`.
    pub fn is_clean(&self) -> (clean: bool)
        ensures
            clean == (self.failure == ParseError::UnrecognizedConstruct && self.token is None),
    {
        match (self.failure, self.token) {
            (ParseError::UnrecognizedConstruct, None) => true,
            _ => false,
        }
    }
}

/// The kind of the token at the head of `input`, if there is one.
pub open spec fn head(input: Seq<Word>) -> Option<Token> {
    if input.len() > 0 {
        Some(input[0].token)
    } else {
        None
    }
}

/// The expressions that a stack holds, oldest first.
pub open spec fn asts(stack: Seq<Box<Expr>>) -> Seq<Ast> {
    Seq::new(stack.len(), |i: int| stack[i]@)
}

/// The state of a parser: the words not yet consumed, the expression stack
/// with its oldest entry first, and the number of operands on record.
#[verifier::ext_equal]
pub ghost struct Model {
    pub input: Seq<Word>,
    pub stack: Seq<Ast>,
    pub operands: nat,
}

impl Model {
    /// The state is sound: every operand on record is on the stack, every
    /// stack entry stands for one value or for none and holds no negative
    /// number, and while input is left the operands on record are the newest
    /// entries and stand for one value each.
    pub open spec fn sound(self) -> bool {
        &&& self.operands <= self.stack.len()
        &&& forall|i: int|
            0 <= i < self.stack.len() ==> {
                &&& (#[trigger] self.stack[i]).yields_value() || self.stack[i].yields_nothing()
                &&& self.stack[i].natural()
            }
        &&& self.input.len() > 0 ==> forall|i: int|
            self.stack.len() - self.operands <= i < self.stack.len() ==> (
            #[trigger] self.stack[i]).yields_value()
    }
}

/// The length of the run of tally marks at the head of `input`.
pub open spec fn ones(input: Seq<Word>) -> nat
    decreases input.len(),
{
    if input.len() > 0 && input[0].token == Token::ONE {
        1 + ones(input.skip(1))
    } else {
        0
    }
}

/// Decodes the unary number at the head of `input`: what is left of the
/// input, and the value or the failure.
///
/// The value is the length of the run of tally marks, which the closing mark
/// must follow. A run longer than `i32::MAX` is refused once that many marks
/// have been read.
pub open spec fn number_step(input: Seq<Word>) -> (Seq<Word>, Result<i32, ParseError>) {
    let n = ones(input) as int;
    if n > i32::MAX {
        (input.skip(i32::MAX as int), Err(ParseError::MalformedNumber))
    } else if n < input.len() && input[n].token == Token::FINALIZER {
        (input.skip(n + 1), Ok(n as i32))
    } else {
        (input.skip(n), Err(ParseError::MalformedNumber))
    }
}

/// The operator that a token denotes.
pub open spec fn operator_of(token: Token) -> Option<char> {
    match token {
        Token::PLUS => Some('+'),
        Token::MINUS => Some('-'),
        Token::MULT => Some('*'),
        Token::DIV => Some('/'),
        _ => None,
    }
}

/// Builds a binary expression from the operator at the head of the input and
/// the two newest stack entries; the newer one becomes the right operand.
///
/// With fewer than two operands on record nothing changes. Otherwise the two
/// entries leave the stack, also where no operator stands at the head.
pub open spec fn binary_step(m: Model) -> (Model, Result<Ast, ParseError>) {
    if m.operands < 2 {
        (m, Err(ParseError::InsufficientOperands))
    } else {
        let rest = m.stack.take(m.stack.len() - 2);
        let left = m.stack[m.stack.len() - 2];
        let right = m.stack[m.stack.len() - 1];
        let taken = Model { input: m.input, stack: rest, operands: (m.operands - 2) as nat };
        if m.input.len() > 0 && operator_of(m.input[0].token) is Some {
            (
                Model { input: m.input.skip(1), ..taken },
                Ok(
                    Ast::Binary {
                        op: operator_of(m.input[0].token)->0,
                        left: Box::new(left),
                        right: Box::new(right),
                    },
                ),
            )
        } else {
            (taken, Err(ParseError::UnknownOperator))
        }
    }
}

/// Threads a print statement after the newest stack entry: the entry and the
/// statement become one sequencing node in its place. On an empty stack the
/// statement stands alone.
pub open spec fn thread(stack: Seq<Ast>, statement: Ast) -> Ast {
    if stack.len() > 0 {
        Ast::Call { other: Box::new(stack.last()), actual: Box::new(statement) }
    } else {
        statement
    }
}

/// The stack after `statement` was threaded onto it.
pub open spec fn threaded(stack: Seq<Ast>, statement: Ast) -> Seq<Ast> {
    if stack.len() > 0 {
        stack.drop_last().push(thread(stack, statement))
    } else {
        stack.push(statement)
    }
}

/// The text that a string statement prints: its body and one space.
pub open spec fn printed_text(body: Seq<char>) -> Seq<char> {
    body.push(' ')
}

/// Parses the string statement whose opening stands at the head of the input.
pub open spec fn string_step(m: Model) -> (Model, Result<Ast, ParseError>) {
    if !(m.input.len() > 1 && m.input[1].token == Token::STRINGLITERAL) {
        (Model { input: m.input.skip(1), ..m }, Err(ParseError::NoStringFound))
    } else if !(m.input.len() > 2 && m.input[2].token == Token::STRINGEND) {
        (Model { input: m.input.skip(2), ..m }, Err(ParseError::StringNotTerminated))
    } else {
        let statement = Ast::StringPrint(printed_text(m.input[1].text));
        (
            Model { input: m.input.skip(3), stack: threaded(m.stack, statement), ..m },
            Ok(thread(m.stack, statement)),
        )
    }
}

/// Parses the stack-dump statement whose marker stands at the head of the
/// input.
pub open spec fn print_stack_step(m: Model) -> (Model, Result<Ast, ParseError>) {
    (
        Model { input: m.input.skip(1), stack: threaded(m.stack, Ast::PrintStack), ..m },
        Ok(thread(m.stack, Ast::PrintStack)),
    )
}

/// Parses the number at the head of the input and puts it on the stack.
pub open spec fn literal_step(m: Model) -> (Model, Result<Ast, ParseError>) {
    let (rest, value) = number_step(m.input);
    match value {
        Ok(n) => (
            Model {
                input: rest,
                stack: m.stack.push(Ast::Number(n)),
                operands: m.operands + 1,
            },
            Ok(Ast::Number(n)),
        ),
        Err(e) => (Model { input: rest, ..m }, Err(e)),
    }
}

/// Applies the operator at the head of the input and puts the result on the
/// stack.
pub open spec fn operator_step(m: Model) -> (Model, Result<Ast, ParseError>) {
    let (taken, built) = binary_step(m);
    match built {
        Ok(node) => (
            Model { stack: taken.stack.push(node), operands: taken.operands + 1, ..taken },
            Ok(node),
        ),
        Err(e) => (taken, Err(e)),
    }
}

/// One step of the parser: the state it leaves, and the expression it put on
/// the stack or the failure.
///
/// The token at the head of the input decides. The end-of-program token
/// discards the rest of the input. At the end of the input, and before a
/// token that starts no construct, the step fails and changes nothing.
pub open spec fn step(m: Model) -> (Model, Result<Ast, ParseError>) {
    if m.input.len() == 0 {
        (m, Err(ParseError::UnrecognizedConstruct))
    } else {
        match m.input[0].token {
            Token::PLUS | Token::MINUS | Token::MULT | Token::DIV => operator_step(m),
            Token::ONE => literal_step(m),
            Token::STRINGSTART => string_step(m),
            Token::PRINTSTACK => print_stack_step(m),
            Token::PROGRAMEND => (
                Model { input: Seq::empty(), stack: m.stack.push(Ast::ProgramEnd), ..m },
                Ok(Ast::ProgramEnd),
            ),
            _ => (m, Err(ParseError::UnrecognizedConstruct)),
        }
    }
}

/// The outcome of a step in mathematical form.
pub open spec fn outcome(result: Result<Expr, ParseError>) -> Result<Ast, ParseError> {
    match result {
        Ok(expr) => Ok(expr@),
        Err(e) => Err(e),
    }
}

/// All the steps from `m` on until one fails: the state then, and the
/// failure.
pub open spec fn run(m: Model) -> (Model, ParseError)
    decreases m.input.len(),
{
    let (next, result) = step(m);
    match result {
        Ok(_) => if next.input.len() < m.input.len() {
            run(next)
        } else {
            (next, ParseError::UnrecognizedConstruct)
        },
        Err(e) => (next, e),
    }
}

/// The kinds of the tokens in `input`.
pub open spec fn kinds(input: Seq<Word>) -> Seq<Token> {
    Seq::new(input.len(), |i: int| input[i].token)
}

/// The unary spelling of `n`: `n` tally marks and the closing mark.
pub open spec fn tally(n: nat) -> Seq<Token> {
    Seq::new(n + 1, |i: int| if i < n { Token::ONE } else { Token::FINALIZER })
}

/// A run of `n` tally marks is followed by `ones(input) - n` more.
pub proof fn lemma_ones_skip(input: Seq<Word>, n: nat)
    requires
        n <= input.len(),
        forall|i: int| 0 <= i < n ==> (#[trigger] input[i]).token == Token::ONE,
    ensures
        ones(input) == n + ones(input.skip(n as int)),
    decreases n,
{
    if n == 0 {
        assert(input.skip(0) =~= input);
    } else {
        lemma_ones_skip(input.skip(1), (n - 1) as nat);
        assert(input.skip(1).skip(n - 1) =~= input.skip(n as int));
    }
}

/// The run of tally marks at the head of `input` lies inside it, holds only
/// tally marks, and ends before another kind of token or at the end.
pub proof fn lemma_ones(input: Seq<Word>)
    ensures
        ones(input) <= input.len(),
        forall|i: int| 0 <= i < ones(input) ==> (#[trigger] input[i]).token == Token::ONE,
        ones(input) < input.len() ==> input[ones(input) as int].token != Token::ONE,
    decreases input.len(),
{
    if input.len() > 0 && input[0].token == Token::ONE {
        lemma_ones(input.skip(1));
        assert forall|i: int| 0 <= i < ones(input) implies (#[trigger] input[i]).token
            == Token::ONE by {
            if i > 0 {
                assert(input[i] == input.skip(1)[i - 1]);
            }
        }
    }
}

/// Building a binary expression keeps the state sound, and what it builds
/// stands for one value.
pub proof fn lemma_binary_step_sound(m: Model)
    requires
        m.sound(),
    ensures
        binary_step(m).0.sound(),
        binary_step(m).1 is Ok ==> binary_step(m).1->Ok_0.yields_value(),
        binary_step(m).1 is Ok ==> binary_step(m).1->Ok_0.natural(),
{
    if m.operands >= 2 && m.input.len() > 0 {
        let len = m.stack.len() as int;
        assert(m.stack[len - 1].yields_value());
        assert(m.stack[len - 2].yields_value());
    }
}

/// Putting an expression that stands for one value on the stack as an
/// operand keeps the state sound.
pub proof fn lemma_operand_sound(m: Model, node: Ast)
    requires
        m.sound(),
        node.yields_value(),
        node.natural(),
    ensures
        (Model { stack: m.stack.push(node), operands: m.operands + 1, ..m }).sound(),
{
    let end = Model { stack: m.stack.push(node), operands: m.operands + 1, ..m };
    assert forall|i: int| 0 <= i < end.stack.len() implies {
        &&& (#[trigger] end.stack[i]).yields_value() || end.stack[i].yields_nothing()
        &&& end.stack[i].natural()
    } by {
        if i < m.stack.len() {
            assert(end.stack[i] == m.stack[i]);
        }
    }
    if end.input.len() > 0 {
        assert forall|i: int| end.stack.len() - end.operands <= i < end.stack.len() implies (
        #[trigger] end.stack[i]).yields_value() by {
            if i < m.stack.len() {
                assert(end.stack[i] == m.stack[i]);
            }
        }
    }
}

/// Threading a statement onto the stack keeps the state sound.
pub proof fn lemma_threaded_sound(m: Model, statement: Ast, rest: Seq<Word>)
    requires
        m.sound(),
        m.input.len() > 0,
        statement is StringPrint || statement is PrintStack,
    ensures
        (Model { input: rest, stack: threaded(m.stack, statement), ..m }).sound(),
{
    let stack = threaded(m.stack, statement);
    assert forall|i: int| 0 <= i < stack.len() implies {
        &&& (#[trigger] stack[i]).yields_value() || stack[i].yields_nothing()
        &&& stack[i].natural()
    } by {
        assert(statement.natural());
        if i < m.stack.len() - 1 {
            assert(stack[i] == m.stack[i]);
        } else if m.stack.len() > 0 {
            assert(m.stack[m.stack.len() - 1] == m.stack.last());
            assert(m.stack.last().natural());
            assert(stack[i] == thread(m.stack, statement));
        }
    }
    assert forall|i: int| stack.len() - m.operands <= i < stack.len() implies (
    #[trigger] stack[i]).yields_value() by {
        if m.stack.len() > 0 {
            if i < m.stack.len() - 1 {
                assert(stack[i] == m.stack[i]);
            } else {
                assert(m.stack[m.stack.len() - 1] == m.stack.last());
            }
        }
    }
}

/// A change of the input alone keeps the state sound.
pub proof fn lemma_input_sound(m: Model, rest: Seq<Word>)
    requires
        m.sound(),
        m.input.len() > 0,
    ensures
        (Model { input: rest, ..m }).sound(),
{
}

/// Every step keeps the state sound.
pub proof fn law_step_keeps_sound(m: Model)
    requires
        m.sound(),
    ensures
        step(m).0.sound(),
{
    if m.input.len() > 0 {
        match m.input[0].token {
            Token::PLUS | Token::MINUS | Token::MULT | Token::DIV => {
                lemma_binary_step_sound(m);
                let (taken, built) = binary_step(m);
                if built is Ok {
                    lemma_operand_sound(taken, built->Ok_0);
                }
            },
            Token::ONE => {
                let (rest, value) = number_step(m.input);
                lemma_input_sound(m, rest);
                if value is Ok {
                    lemma_ones(m.input);
                    lemma_operand_sound(Model { input: rest, ..m }, Ast::Number(value->Ok_0));
                }
            },
            Token::STRINGSTART => {
                lemma_input_sound(m, m.input.skip(1));
                lemma_input_sound(m, m.input.skip(2));
                if m.input.len() > 1 {
                    lemma_threaded_sound(
                        m,
                        Ast::StringPrint(printed_text(m.input[1].text)),
                        m.input.skip(3),
                    );
                }
            },
            Token::PRINTSTACK => {
                lemma_threaded_sound(m, Ast::PrintStack, m.input.skip(1));
            },
            Token::PROGRAMEND => {
                let end = step(m).0;
                assert forall|i: int| 0 <= i < end.stack.len() implies {
                    &&& (#[trigger] end.stack[i]).yields_value() || end.stack[i].yields_nothing()
                    &&& end.stack[i].natural()
                } by {
                    if i < m.stack.len() {
                        assert(end.stack[i] == m.stack[i]);
                    }
                }
            },
            _ => {},
        }
    }
}

/// Parsing to the first failure keeps the state sound.
pub proof fn law_run_keeps_sound(m: Model)
    requires
        m.sound(),
    ensures
        run(m).0.sound(),
    decreases m.input.len(),
{
    law_step_keeps_sound(m);
    lemma_step_consumes(m);
    if step(m).1 is Ok {
        law_run_keeps_sound(step(m).0);
    }
}

/// A step that succeeds consumes at least one word.
pub proof fn lemma_step_consumes(m: Model)
    ensures
        step(m).1 is Ok ==> step(m).0.input.len() < m.input.len(),
{
    lemma_ones(m.input);
}

/// Decoding inverts the unary spelling: the spelling of `n`, whatever
/// follows it, decodes to `n` and leaves what follows.
pub proof fn law_decode_tally(number: Seq<Word>, n: nat, rest: Seq<Word>)
    requires
        kinds(number) == tally(n),
        n <= i32::MAX,
    ensures
        number_step(number + rest) == (rest, Ok::<i32, ParseError>(n as i32)),
{
    let input = number + rest;
    assert(kinds(number).len() == n + 1);
    assert forall|i: int| 0 <= i < n implies (#[trigger] input[i]).token == Token::ONE by {
        assert(kinds(number)[i] == number[i].token);
    }
    assert(kinds(number)[n as int] == number[n as int].token);
    lemma_ones_skip(input, n);
    assert(input.skip(n as int)[0] == input[n as int]);
    assert(input.skip(n as int + 1) =~= rest);
}

/// Only a unary spelling decodes: where decoding gives `n`, the input starts
/// with the spelling of `n`, and what is left is what follows it.
pub proof fn law_decoded_is_tally(input: Seq<Word>)
    requires
        number_step(input).1 is Ok,
    ensures
        ({
            let n = number_step(input).1->Ok_0;
            &&& 0 <= n
            &&& n < input.len()
            &&& kinds(input.take(n + 1)) == tally(n as nat)
            &&& number_step(input).0 == input.skip(n + 1)
        }),
{
    lemma_ones(input);
    let n = ones(input) as int;
    assert(kinds(input.take(n + 1)) =~= tally(n as nat));
}

/// The source text of the number `n`: the spelling of the tally mark `n`
/// times, and that of the closing mark.
pub open spec fn unary_source(n: nat) -> Seq<u8>
    decreases n,
{
    if n == 0 {
        Token::FINALIZER.spelling()
    } else {
        Token::ONE.spelling() + unary_source((n - 1) as nat)
    }
}

/// Where two texts stand one after the other, each of them stands.
proof fn lemma_spelled_parts(bytes: Seq<u8>, pos: int, first: Seq<u8>, second: Seq<u8>)
    requires
        spelled(bytes, pos, first + second),
    ensures
        spelled(bytes, pos, first),
        spelled(bytes, pos + first.len(), second),
{
    let both = bytes.subrange(pos, pos + (first + second).len());
    assert(bytes.subrange(pos, pos + first.len()) =~= first) by {
        assert forall|i: int| 0 <= i < first.len() implies bytes[pos + i] == first[i] by {
            assert(both[i] == (first + second)[i]);
        }
    }
    assert(bytes.subrange(pos + first.len(), pos + first.len() + second.len()) =~= second) by {
        assert forall|i: int| 0 <= i < second.len() implies bytes[pos + first.len() + i]
            == second[i] by {
            assert(both[first.len() + i] == (first + second)[first.len() + i]);
        }
    }
}

/// The source text of `n` is read as the unary spelling of `n`: where it
/// stands in a source, the words from there on are `n` tally marks and the
/// closing mark, and then the words of what follows the text.
pub proof fn law_unary_source_lexes(bytes: Seq<u8>, pos: int, n: nat)
    requires
        spelled(bytes, pos, unary_source(n)),
    ensures
        words(bytes, pos).len() > n,
        kinds(words(bytes, pos).take(n as int + 1)) == tally(n),
        words(bytes, pos).skip(n as int + 1) == words(bytes, pos + unary_source(n).len()),
    decreases n,
{
    let all = words(bytes, pos);
    lemma_words_step(bytes, pos);
    if n == 0 {
        law_spelling_decides(bytes, pos, Token::FINALIZER);
        assert(all.skip(1) =~= words(bytes, pos + unary_source(0).len()));
        assert(kinds(all.take(1)) =~= tally(0));
    } else {
        let rest = unary_source((n - 1) as nat);
        lemma_spelled_parts(bytes, pos, Token::ONE.spelling(), rest);
        law_spelling_decides(bytes, pos, Token::ONE);
        law_unary_source_lexes(bytes, pos + 6, (n - 1) as nat);
        let tail = words(bytes, pos + 6);
        assert(all.skip(1) =~= tail);
        assert(all.skip(n as int + 1) =~= tail.skip(n as int));
        assert(kinds(all.take(n as int + 1)) =~= tally(n)) by {
            assert forall|i: int| 0 <= i < n + 1 implies kinds(all.take(n as int + 1))[i] == tally(n)[i] by {
                if i > 0 {
                    assert(all[i] == tail[i - 1]);
                    assert(kinds(tail.take(n as int))[i - 1] == tail[i - 1].token);
                    assert(tally((n - 1) as nat)[i - 1] == tally(n)[i]);
                }
            }
        }
    }
}

/// End to end, decoding inverts the source text of a number: where the text
/// of `n` stands in a source, decoding the words from there on gives `n` and
/// leaves the words of what follows the text.
pub proof fn law_unary_source_decodes(bytes: Seq<u8>, pos: int, n: nat)
    requires
        spelled(bytes, pos, unary_source(n)),
        n <= i32::MAX,
    ensures
        number_step(words(bytes, pos)) == (
            words(bytes, pos + unary_source(n).len()),
            Ok::<i32, ParseError>(n as i32),
        ),
{
    law_unary_source_lexes(bytes, pos, n);
    let all = words(bytes, pos);
    assert(all =~= all.take(n as int + 1) + all.skip(n as int + 1));
    law_decode_tally(all.take(n as int + 1), n, all.skip(n as int + 1));
}

/// Two numbers and an operator make one binary expression, with the number
/// written first as its left operand. It takes the place of both on the
/// stack and counts as one operand.
pub proof fn law_binary_expression(
    m: Model,
    a: nat,
    b: nat,
    first: Seq<Word>,
    second: Seq<Word>,
    operator: Word,
    rest: Seq<Word>,
)
    requires
        m.operands <= m.stack.len(),
        1 <= a <= i32::MAX,
        1 <= b <= i32::MAX,
        kinds(first) == tally(a),
        kinds(second) == tally(b),
        operator_of(operator.token) is Some,
        m.input == first + second + seq![operator] + rest,
    ensures
        ({
            let node = Ast::Binary {
                op: operator_of(operator.token)->0,
                left: Box::new(Ast::Number(a as i32)),
                right: Box::new(Ast::Number(b as i32)),
            };
            let after_first = step(m).0;
            let after_second = step(after_first).0;
            let (end, result) = step(after_second);
            &&& step(m).1 == Ok::<Ast, ParseError>(Ast::Number(a as i32))
            &&& step(after_first).1 == Ok::<Ast, ParseError>(Ast::Number(b as i32))
            &&& result == Ok::<Ast, ParseError>(node)
            &&& end.input == rest
            &&& end.stack == m.stack.push(node)
            &&& end.operands == m.operands + 1
        }),
{
    let tail = second + seq![operator] + rest;
    assert(first.len() == kinds(first).len() == a + 1);
    assert(second.len() == kinds(second).len() == b + 1);
    assert(m.input =~= first + tail);
    assert(kinds(first)[0] == first[0].token);
    assert(m.input[0] == first[0]);
    law_decode_tally(first, a, tail);
    let after_first = step(m).0;
    assert(after_first.input == tail);
    let last = seq![operator] + rest;
    assert(tail =~= second + last);
    assert(kinds(second)[0] == second[0].token);
    assert(tail[0] == second[0]);
    law_decode_tally(second, b, last);
    let after_second = step(after_first).0;
    assert(after_second.input == last);
    assert(last[0] == operator);
    assert(last.skip(1) =~= rest);
    let stack = after_second.stack;
    assert(stack == m.stack.push(Ast::Number(a as i32)).push(Ast::Number(b as i32)));
    assert(stack.take(stack.len() - 2) =~= m.stack);
}

/// An operator that finds fewer than two operands fails and changes nothing.
pub proof fn law_insufficient_operands(m: Model)
    requires
        m.input.len() > 0,
        operator_of(m.input[0].token) is Some,
        m.operands < 2,
    ensures
        step(m) == (m, Err::<Ast, ParseError>(ParseError::InsufficientOperands)),
        binary_step(m) == (m, Err::<Ast, ParseError>(ParseError::InsufficientOperands)),
{
}

/// A string statement on an empty stack stands alone. After a pending
/// expression it is threaded behind it: the sequencing node of both takes the
/// place of that expression, and the stack is no longer than before.
pub proof fn law_string_statement(m: Model)
    requires
        m.input.len() >= 3,
        m.input[0].token == Token::STRINGSTART,
        m.input[1].token == Token::STRINGLITERAL,
        m.input[2].token == Token::STRINGEND,
    ensures
        ({
            let print = Ast::StringPrint(printed_text(m.input[1].text));
            let (end, result) = step(m);
            &&& end.input == m.input.skip(3)
            &&& end.operands == m.operands
            &&& m.stack.len() == 0 ==> {
                &&& result == Ok::<Ast, ParseError>(print)
                &&& end.stack == seq![print]
            }
            &&& m.stack.len() > 0 ==> {
                let node = Ast::Call { other: Box::new(m.stack.last()), actual: Box::new(print) };
                &&& result == Ok::<Ast, ParseError>(node)
                &&& end.stack == m.stack.drop_last().push(node)
                &&& end.stack.len() == m.stack.len()
            }
        }),
{
    let print = Ast::StringPrint(printed_text(m.input[1].text));
    if m.stack.len() == 0 {
        assert(m.stack.push(print) =~= seq![print]);
    }
}

/// The end-of-program token discards what follows it: the step leaves an
/// empty input whatever stood behind the token, and every later step fails
/// without a change.
pub proof fn law_program_end(m: Model)
    requires
        m.input.len() > 0,
        m.input[0].token == Token::PROGRAMEND,
    ensures
        step(m) == step(Model { input: m.input.take(1), ..m }),
        step(m).1 == Ok::<Ast, ParseError>(Ast::ProgramEnd),
        step(m).0 == (Model { input: Seq::empty(), stack: m.stack.push(Ast::ProgramEnd), ..m }),
        step(step(m).0) == (step(m).0, Err::<Ast, ParseError>(ParseError::UnrecognizedConstruct)),
        run(m) == (step(m).0, ParseError::UnrecognizedConstruct),
{
    let cut = Model { input: m.input.take(1), ..m };
    assert(cut.input[0] == m.input[0]);
    let end = step(m).0;
    assert(run(end) == (end, ParseError::UnrecognizedConstruct));
}

/// A parser over the tokens of one lexer.
pub struct Parser<'a> {
    lex: Lexer<'a>,
    current: Option<Token>,
    /// The expressions parsed so far that nothing has consumed, oldest first.
    pub stack: Vec<Box<Expr>>,
    variables: usize,
}

impl<'a> Parser<'a> {
    /// The words not yet consumed: the token at hand, then what the lexer has
    /// left.
    pub closed spec fn input(&self) -> Seq<Word> {
        match self.current {
            Some(token) => seq![Word { token, text: self.lex.text() }] + words(
                self.lex.source(),
                self.lex.end() as int,
            ),
            None => Seq::empty(),
        }
    }

    /// The number of operands on record for the next operator.
    pub closed spec fn operands(&self) -> nat {
        self.variables as nat
    }

    /// The expressions on the stack, oldest first.
    pub closed spec fn pending(&self) -> Seq<Ast> {
        asts(self.stack@)
    }

    /// The parser's state in mathematical form.
    pub open spec fn model(&self) -> Model {
        Model { input: self.input(), stack: self.pending(), operands: self.operands() }
    }

    /// The parser's state is sound; see [`Model::sound`].
    pub open spec fn wf(&self) -> bool {
        self.model().sound()
    }

    /// A parser that starts at the next token of `l`, with an empty stack.
    pub fn new(mut l: Lexer<'a>) -> (parser: Self)
        ensures
            parser.wf(),
            parser.input() == words(l.source(), l.end() as int),
            parser.pending() == Seq::<Ast>::empty(),
            parser.operands() == 0,
    {
        let ghost from = l.end() as int;
        let cur = l.next();
        proof {
            lemma_words_step(l.source(), from);
        }
        Parser { lex: l, current: cur, stack: Vec::new(), variables: 0 }
    }

    /// The expressions on the stack, oldest first: the program parsed so
    /// far.
    pub fn program(&self) -> (program: &Vec<Box<Expr>>)
        ensures
            asts(program@) == self.pending(),
    {
        &self.stack
    }

    /// The token at hand, `None` at the end of the input.
    pub fn current(&self) -> (token: Option<Token>)
        ensures
            token == head(self.input()),
    {
        self.current
    }

    /// Moves to the next token.
    fn advance(&mut self)
        requires
            old(self).current is Some,
        ensures
            final(self).input() == old(self).input().skip(1),
            final(self).stack == old(self).stack,
            final(self).variables == old(self).variables,
    {
        let ghost bytes = self.lex.source();
        let ghost from = self.lex.end() as int;
        let ghost rest = words(bytes, from);
        self.current = self.lex.next();
        proof {
            lemma_words_step(bytes, from);
            assert(old(self).input().skip(1) =~= rest);
        }
    }

    /// Decodes the unary number at the head of the input.
    ///
    /// Consumes the tally marks and the closing mark, and returns the number
    /// of tally marks. Fails with `MalformedNumber` before any other token,
    /// which is then the token at hand, and after `i32::MAX` tally marks
    /// where another one follows.
    pub fn parse_nb_expr(&mut self) -> (result: Result<Val, ParseError>)
        ensures
            final(self).input() == number_step(old(self).input()).0,
            final(self).pending() == old(self).pending(),
            final(self).operands() == old(self).operands(),
            match result {
                Ok(val) => number_step(old(self).input()).1 == Ok::<i32, ParseError>(val.n),
                Err(e) => number_step(old(self).input()).1 == Err::<i32, ParseError>(e),
            },
    {
        let ghost start = self.input();
        let mut n: i32 = 0;
        proof {
            assert(start.skip(0) =~= start);
        }
        loop
            invariant
                0 <= n <= start.len(),
                self.input() == start.skip(n as int),
                forall|i: int| 0 <= i < n ==> (#[trigger] start[i]).token == Token::ONE,
                self.stack == old(self).stack,
                self.variables == old(self).variables,
                start == old(self).input(),
            decreases start.len() - n,
        {
            proof {
                lemma_ones_skip(start, n as nat);
                lemma_ones(self.input());
            }
            match self.current {
                Some(Token::ONE) => {
                    if n == i32::MAX {
                        return Err(ParseError::MalformedNumber);
                    }
                    self.advance();
                    proof {
                        assert(start.skip(n as int).skip(1) =~= start.skip(n + 1));
                        assert(start[n as int] == start.skip(n as int)[0]);
                    }
                    n = n + 1;
                },
                Some(Token::FINALIZER) => {
                    self.advance();
                    proof {
                        assert(start.skip(n as int).skip(1) =~= start.skip(n + 1));
                        assert(start[n as int] == start.skip(n as int)[0]);
                    }
                    return Ok(Val { n });
                },
                _ => {
                    proof {
                        if self.input().len() > 0 {
                            assert(start[n as int] == start.skip(n as int)[0]);
                        }
                    }
                    return Err(ParseError::MalformedNumber);
                },
            }
        }
    }

    /// Puts `expr` on the stack.
    fn push(&mut self, expr: Expr)
        ensures
            final(self).pending() == old(self).pending().push(expr@),
            final(self).input() == old(self).input(),
            final(self).variables == old(self).variables,
    {
        self.stack.push(Box::new(expr));
        assert(asts(self.stack@) =~= asts(old(self).stack@).push(expr@));
    }

    /// Puts `expr` on the stack and records it as an operand.
    fn push_operand(&mut self, expr: Expr)
        requires
            old(self).operands() <= old(self).pending().len(),
        ensures
            final(self).pending() == old(self).pending().push(expr@),
            final(self).input() == old(self).input(),
            final(self).operands() == old(self).operands() + 1,
    {
        self.push(expr);
        let len = self.stack.len();
        assert(self.pending().len() == len);
        self.variables = self.variables + 1;
    }

    /// The token at hand is the head of the input.
    proof fn lemma_head(&self)
        ensures
            match self.current {
                Some(token) => {
                    &&& self.input().len() > 0
                    &&& self.input()[0].token == token
                    &&& self.input()[0].text == self.lex.text()
                },
                None => self.input().len() == 0,
            },
    {
    }

    /// Takes the newest entry from the stack.
    fn pop(&mut self) -> (expr: Box<Expr>)
        requires
            old(self).pending().len() > 0,
        ensures
            expr@ == old(self).pending().last(),
            final(self).pending() == old(self).pending().drop_last(),
            final(self).input() == old(self).input(),
            final(self).variables == old(self).variables,
    {
        let expr = self.stack.pop().unwrap();
        assert(asts(self.stack@) =~= asts(old(self).stack@).drop_last());
        expr
    }

    /// Builds a binary expression from the operator at hand and the two
    /// newest stack entries, and moves past the operator.
    ///
    /// The entry pushed last becomes the right operand. With fewer than two
    /// operands on record the parser is left as it was. The result is not put
    /// on the stack.
    pub fn parse_binary_expr(&mut self) -> (result: Result<Expr, ParseError>)
        requires
            old(self).wf(),
        ensures
            final(self).wf(),
            final(self).model() =~= binary_step(old(self).model()).0,
            outcome(result) == binary_step(old(self).model()).1,
    {
        if self.variables < 2 {
            return Err(ParseError::InsufficientOperands);
        }
        let right = self.pop();
        let left = self.pop();
        self.variables = self.variables - 2;
        proof {
            let stack = old(self).pending();
            assert(stack.drop_last().drop_last() =~= stack.take(stack.len() - 2));
        }
        let op = match self.current {
            Some(Token::PLUS) => '+',
            Some(Token::MINUS) => '-',
            Some(Token::MULT) => '*',
            Some(Token::DIV) => '/',
            _ => {
                return Err(ParseError::UnknownOperator);
            },
        };
        self.advance();
        Ok(Expr::Binary { op, left, right })
    }

    /// Threads `statement` after the newest stack entry and returns a copy of
    /// what now stands on the stack in its place.
    fn thread_statement(&mut self, statement: Expr) -> (node: Expr)
        ensures
            final(self).pending() == threaded(old(self).pending(), statement@),
            node@ == thread(old(self).pending(), statement@),
            final(self).input() == old(self).input(),
            final(self).variables == old(self).variables,
    {
        if self.stack.len() > 0 {
            let call = Expr::Call { other: self.pop(), actual: Box::new(statement) };
            let node = call.duplicate();
            self.push(call);
            node
        } else {
            let node = statement.duplicate();
            self.push(statement);
            node
        }
    }

    /// Parses a string statement: its opening, which is the token at hand,
    /// its body and its closing.
    fn parse_string_expr(&mut self) -> (result: Result<Expr, ParseError>)
        requires
            old(self).wf(),
            old(self).current == Some(Token::STRINGSTART),
        ensures
            final(self).wf(),
            final(self).model() =~= string_step(old(self).model()).0,
            outcome(result) == string_step(old(self).model()).1,
    {
        let ghost input = self.input();
        proof {
            self.lemma_head();
            law_step_keeps_sound(self.model());
        }
        self.advance();
        proof {
            self.lemma_head();
            if input.len() > 1 {
                assert(input[1] == input.skip(1)[0]);
            }
        }
        match self.current {
            Some(Token::STRINGLITERAL) => {},
            _ => {
                return Err(ParseError::NoStringFound);
            },
        }
        proof {
            reveal_strlit(" ");
            assert(" "@ =~= seq![' ']);
        }
        let the_string = String::from_str(self.lex.slice()).concat(" ");
        assert(the_string@ =~= printed_text(input[1].text));
        self.advance();
        proof {
            self.lemma_head();
            assert(input.skip(1).skip(1) =~= input.skip(2));
            if input.len() > 2 {
                assert(input[2] == input.skip(2)[0]);
            }
        }
        match self.current {
            Some(Token::STRINGEND) => {},
            _ => {
                return Err(ParseError::StringNotTerminated);
            },
        }
        self.advance();
        proof {
            assert(input.skip(2).skip(1) =~= input.skip(3));
        }
        let statement = Expr::StringPrint(Box::new(the_string));
        assert(statement@ == Ast::StringPrint(printed_text(input[1].text)));
        Ok(self.thread_statement(statement))
    }

    /// Parses a stack-dump statement, whose marker is the token at hand.
    fn parse_print_stack_expr(&mut self) -> (result: Result<Expr, ParseError>)
        requires
            old(self).wf(),
            old(self).current == Some(Token::PRINTSTACK),
        ensures
            final(self).wf(),
            final(self).model() =~= print_stack_step(old(self).model()).0,
            outcome(result) == print_stack_step(old(self).model()).1,
    {
        proof {
            self.lemma_head();
            law_step_keeps_sound(self.model());
        }
        self.advance();
        Ok(self.thread_statement(Expr::PrintStack))
    }

    /// Parses the construct that starts with the token at hand and leaves its
    /// expression on the stack; a copy of it is returned.
    ///
    /// A failure leaves the stack as it was. After the end-of-program token
    /// the input is empty, so the next call fails.
    pub fn parse_expr(&mut self) -> (result: Result<Expr, ParseError>)
        requires
            old(self).wf(),
        ensures
            final(self).wf(),
            final(self).model() =~= step(old(self).model()).0,
            outcome(result) == step(old(self).model()).1,
    {
        match self.current {
            Some(Token::PLUS) | Some(Token::MINUS) | Some(Token::MULT) | Some(Token::DIV) => {
                match self.parse_binary_expr() {
                    Ok(node) => {
                        self.push_operand(node.duplicate());
                        Ok(node)
                    },
                    Err(e) => Err(e),
                }
            },
            Some(Token::ONE) => {
                match self.parse_nb_expr() {
                    Ok(val) => {
                        self.push_operand(Expr::Number(Box::new(val)));
                        Ok(Expr::Number(Box::new(val)))
                    },
                    Err(e) => Err(e),
                }
            },
            Some(Token::STRINGSTART) => self.parse_string_expr(),
            Some(Token::PRINTSTACK) => self.parse_print_stack_expr(),
            Some(Token::PROGRAMEND) => {
                proof {
                    reveal_strlit("");
                }
                self.lex = Token::lexer("");
                self.current = self.lex.next();
                self.push(Expr::ProgramEnd);
                Ok(Expr::ProgramEnd)
            },
            _ => Err(ParseError::UnrecognizedConstruct),
        }
    }

    /// Parses construct after construct until a step fails, and returns that
    /// failure with the token then at hand.
    ///
    /// At the end of the input, and after the end-of-program token, the
    /// failure is `UnrecognizedConstruct` with no token at hand. Any other
    /// end is a syntax error at the token at hand.
    pub fn parse_program(&mut self) -> (end: ParseEnd)
        requires
            old(self).wf(),
        ensures
            final(self).wf(),
            final(self).model() =~= run(old(self).model()).0,
            end.failure == run(old(self).model()).1,
            end.token == head(final(self).input()),
    {
        loop
            invariant
                self.wf(),
                run(self.model()) == run(old(self).model()),
            decreases self.input().len(),
        {
            proof {
                lemma_step_consumes(self.model());
            }
            match self.parse_expr() {
                Ok(_) => {},
                Err(failure) => {
                    return ParseEnd { failure, token: self.current };
                },
            }
        }
    }
}

} // verus!
