//! Turns expressions into instructions for the backend.
//!
//! Code generation has two halves. [`Compiler::compile_expr`] walks an
//! expression and appends instructions to a list, keeping the list of live
//! values in step; what it appends is stated exactly by [`lower`].
//! [`Compiler::emit`] then hands the listed instructions to the LLVM backend
//! one by one.

use crate::backend::{
    add_function, append_basic_block, as_pointer_value, build_call, build_int_add, build_int_mul,
    build_int_signed_div, build_int_sub, build_return, const_int, default_address_space,
    external_linkage, fn_type, get_function, i32_type, i8_type, int_argument, pointer_argument,
    pointer_parameter, position_at_end, ptr_type, set_call_conventions,
};
use crate::lexer::words;
use crate::parser::{
    asts, head, law_run_keeps_sound, run, Ast, Expr, Model, ParseEnd, ParseError, Parser,
};
use crate::tokens::Token;
use inkwell::builder::Builder;
use inkwell::context::Context;
use inkwell::execution_engine::ExecutionEngine;
use inkwell::module::Module;
use inkwell::types::BasicMetadataTypeEnum;
use inkwell::values::{BasicMetadataValueEnum, IntValue};
use vstd::prelude::*;
use vstd::string::{StringExecFns, StringSliceAdditionalSpecFns};

verus! {

/// A 32-bit integer value of the generated program.
#[derive(Debug, PartialEq, Eq, Clone, Copy, Structural)]
pub enum Value {
    /// A constant.
    Const(i32),
    /// The result of the instruction at this place in the list.
    Temp(usize),
}

/// The four arithmetic operations.
#[derive(Debug, PartialEq, Eq, Clone, Copy, Structural)]
pub enum Arith {
    Add,
    Sub,
    Mul,
    /// Signed division.
    Div,
}

/// One instruction for the backend.
#[derive(Debug, PartialEq, Eq)]
pub enum Instr {
    /// Applies `op` to two values.
    Arith { op: Arith, lhs: Value, rhs: Value },
    /// Declares the formatted-output function.
    DeclarePrint,
    /// Stores `text` as a constant named `name` and calls the
    /// formatted-output function with it as the format, followed by `args`.
    Print { text: String, name: String, args: Vec<Value> },
}

/// The mathematical form of an [`Instr`].
pub ghost enum InstrView {
    Arith { op: Arith, lhs: Value, rhs: Value },
    DeclarePrint,
    Print { text: Seq<char>, name: Seq<char>, args: Seq<Value> },
}

impl View for Instr {
    type V = InstrView;

    open spec fn view(&self) -> InstrView {
        match self {
            Instr::Arith { op, lhs, rhs } => InstrView::Arith { op: *op, lhs: *lhs, rhs: *rhs },
            Instr::DeclarePrint => InstrView::DeclarePrint,
            Instr::Print { text, name, args } => InstrView::Print {
                text: text@,
                name: name@,
                args: args@,
            },
        }
    }
}

/// Why code generation failed.
#[derive(Debug, PartialEq, Eq, Clone, Copy, Structural)]
pub enum CodegenError {
    /// The expression holds an operator that is none of `+ - * /`.
    CodeGenFailure,
    /// The backend is not ready for an instruction, or lacks what it needs.
    BackendFailure,
}

/// The instructions that a list holds, in order.
pub open spec fn instrs(code: Seq<Instr>) -> Seq<InstrView> {
    Seq::new(code.len(), |i: int| code[i]@)
}

/// The state of code generation: the instructions listed so far, the live
/// values with the oldest first, whether the output function was declared,
/// and the numbers of the next string and stack-dump constants.
#[verifier::ext_equal]
pub ghost struct Gen {
    pub code: Seq<InstrView>,
    pub live: Seq<Value>,
    pub declared: bool,
    pub strings: nat,
    pub dumps: nat,
}

/// The operation that an operator character denotes.
pub open spec fn arith_of(op: char) -> Option<Arith> {
    if op == '+' {
        Some(Arith::Add)
    } else if op == '-' {
        Some(Arith::Sub)
    } else if op == '*' {
        Some(Arith::Mul)
    } else if op == '/' {
        Some(Arith::Div)
    } else {
        None
    }
}

/// The list without its newest value, if it has one.
pub open spec fn without_newest(live: Seq<Value>) -> Seq<Value> {
    if live.len() > 0 {
        live.drop_last()
    } else {
        live
    }
}

/// The character of a decimal digit.
pub open spec fn digit(d: nat) -> char {
    if d == 0 {
        '0'
    } else if d == 1 {
        '1'
    } else if d == 2 {
        '2'
    } else if d == 3 {
        '3'
    } else if d == 4 {
        '4'
    } else if d == 5 {
        '5'
    } else if d == 6 {
        '6'
    } else if d == 7 {
        '7'
    } else if d == 8 {
        '8'
    } else {
        '9'
    }
}

/// The decimal spelling of `n`, without leading zeros.
pub open spec fn decimal(n: nat) -> Seq<char>
    decreases n,
{
    if n < 10 {
        seq![digit(n)]
    } else {
        decimal(n / 10).push(digit(n % 10))
    }
}

/// The format of a stack dump of `n` values: `n` times `%d` and a space.
pub open spec fn placeholders(n: nat) -> Seq<char>
    decreases n,
{
    if n == 0 {
        Seq::empty()
    } else {
        placeholders((n - 1) as nat) + seq!['%', 'd', ' ']
    }
}

/// The name of the string constant with the given number.
pub open spec fn string_name(number: nat) -> Seq<char> {
    seq!['s', 't', 'r', 'i', 'n', 'g'] + decimal(number)
}

/// The name of the stack-dump format with the given number.
pub open spec fn dump_name(number: nat) -> Seq<char> {
    seq!['p', 'r', 'i', 'n', 't', '_', 's', 't', 'a', 'c', 'k'] + decimal(number)
}

/// The state after the output function was declared, if it was not before.
pub open spec fn declared(g: Gen) -> Gen {
    if g.declared {
        g
    } else {
        Gen { code: g.code.push(InstrView::DeclarePrint), declared: true, ..g }
    }
}

/// Applies the operator `op` to two generated values: the two newest live
/// values leave the list, one instruction is listed, and its result becomes
/// the newest live value. A character that is none of `+ - * /` fails once
/// the two values have left.
pub open spec fn lower_operator(op: char, lhs: Value, rhs: Value, g: Gen) -> (
    Gen,
    Result<Value, CodegenError>,
) {
    let live = without_newest(without_newest(g.live));
    match arith_of(op) {
        None => (Gen { live, ..g }, Err(CodegenError::CodeGenFailure)),
        Some(op) => {
            let result = Value::Temp(g.code.len() as usize);
            (
                Gen {
                    code: g.code.push(InstrView::Arith { op, lhs, rhs }),
                    live: live.push(result),
                    ..g
                },
                Ok(result),
            )
        },
    }
}

/// Prints `text`: one print instruction without arguments, after the
/// declaration of the output function where that is still missing. The
/// constant takes the next string number.
pub open spec fn lower_string(text: Seq<char>, g: Gen) -> (Gen, Result<Value, CodegenError>) {
    let g1 = declared(g);
    let print = InstrView::Print { text, name: string_name(g.strings), args: Seq::empty() };
    (Gen { code: g1.code.push(print), strings: g.strings + 1, ..g1 }, Ok(Value::Const(0)))
}

/// Prints the live values: one print instruction whose format holds one
/// placeholder for each live value and whose arguments are the live values,
/// oldest first, after the declaration of the output function where that is
/// still missing. The live values stay. The format takes the next stack-dump
/// number.
pub open spec fn lower_dump(g: Gen) -> (Gen, Result<Value, CodegenError>) {
    let g1 = declared(g);
    let print = InstrView::Print {
        text: placeholders(g.live.len()),
        name: dump_name(g.dumps),
        args: g.live,
    };
    (Gen { code: g1.code.push(print), dumps: g.dumps + 1, ..g1 }, Ok(Value::Const(0)))
}

/// What generating code for `e` in state `g` leaves: the new state, and the
/// value of `e` or the failure.
///
/// - A number is a constant; it becomes the newest live value.
/// - A binary expression generates its left operand, then its right one, and
///   applies its operator to their values.
/// - A sequencing node generates both parts in order and has the value of the
///   first.
/// - The two print statements list their print instruction and have the
///   value zero. So has the end of the program, which lists nothing.
///
/// A failure in a part is the failure of the whole; nothing is generated
/// after it.
pub open spec fn lower(e: Ast, g: Gen) -> (Gen, Result<Value, CodegenError>)
    decreases e,
{
    match e {
        Ast::Number(n) => (Gen { live: g.live.push(Value::Const(n)), ..g }, Ok(Value::Const(n))),
        Ast::Binary { op, left, right } => {
            let (g1, l) = lower(*left, g);
            match l {
                Err(e) => (g1, Err(e)),
                Ok(lhs) => {
                    let (g2, r) = lower(*right, g1);
                    match r {
                        Err(e) => (g2, Err(e)),
                        Ok(rhs) => lower_operator(op, lhs, rhs, g2),
                    }
                },
            }
        },
        Ast::Call { other, actual } => {
            let (g1, first) = lower(*other, g);
            match first {
                Err(e) => (g1, Err(e)),
                Ok(value) => {
                    let (g2, second) = lower(*actual, g1);
                    match second {
                        Err(e) => (g2, Err(e)),
                        Ok(_) => (g2, Ok(value)),
                    }
                },
            }
        },
        Ast::StringPrint(text) => lower_string(text, g),
        Ast::PrintStack => lower_dump(g),
        Ast::ProgramEnd => (g, Ok(Value::Const(0))),
    }
}

/// Whether `value` can be used once `len` instructions are listed.
pub open spec fn in_scope(value: Value, len: int) -> bool {
    match value {
        Value::Const(_) => true,
        Value::Temp(i) => i < len,
    }
}

/// Whether every value in `values` can be used once `len` instructions are
/// listed.
pub open spec fn all_in_scope(values: Seq<Value>, len: int) -> bool {
    forall|k: int| 0 <= k < values.len() ==> in_scope(#[trigger] values[k], len)
}

/// Whether the instruction at place `at` uses only results of earlier
/// instructions.
pub open spec fn instr_scoped(instr: InstrView, at: int) -> bool {
    match instr {
        InstrView::Arith { lhs, rhs, .. } => in_scope(lhs, at) && in_scope(rhs, at),
        InstrView::DeclarePrint => true,
        InstrView::Print { args, .. } => all_in_scope(args, at),
    }
}

/// Whether each instruction of `code` uses only results of instructions
/// before it.
pub open spec fn scoped(code: Seq<InstrView>) -> bool {
    forall|i: int| 0 <= i < code.len() ==> instr_scoped(#[trigger] code[i], i)
}

impl Gen {
    /// The state is sound: instructions and live values use only results
    /// that exist, the list is no longer than a machine can index, and the
    /// numbers of the constants started at one and grew with the list.
    pub open spec fn wf(self) -> bool {
        &&& scoped(self.code)
        &&& all_in_scope(self.live, self.code.len() as int)
        &&& self.code.len() <= usize::MAX
        &&& self.strings >= 1
        &&& self.dumps >= 1
        &&& self.strings + self.dumps <= self.code.len() + if self.declared {
            1nat
        } else {
            2nat
        }
    }
}

/// What generating code for every expression of `program` in turn leaves,
/// from state `g` on. The first failure ends it.
pub open spec fn lower_all(program: Seq<Ast>, g: Gen) -> (Gen, Result<(), CodegenError>)
    decreases program.len(),
{
    if program.len() == 0 {
        (g, Ok(()))
    } else {
        let (next, result) = lower(program[0], g);
        match result {
            Ok(_) => lower_all(program.skip(1), next),
            Err(e) => (next, Err(e)),
        }
    }
}

/// Code for an expression that leaves no value is generated without failure
/// and keeps the live values as they were.
pub proof fn law_statement_keeps_live_values(e: Ast, g: Gen)
    requires
        e.yields_nothing(),
    ensures
        lower(e, g).1 is Ok,
        lower(e, g).0.live == g.live,
    decreases e,
{
    match e {
        Ast::Call { other, actual } => {
            law_statement_keeps_live_values(*other, g);
            law_statement_keeps_live_values(*actual, lower(*other, g).0);
        },
        _ => {},
    }
}

/// Code for an expression that leaves a value is generated without failure,
/// and its value becomes the newest live value; the values that were live
/// before stay, in their order. So an operator takes from the list exactly
/// the values of its two operands, however many values were live before.
pub proof fn law_value_becomes_live(e: Ast, g: Gen)
    requires
        e.yields_value(),
    ensures
        lower(e, g).1 is Ok,
        lower(e, g).0.live == g.live.push(lower(e, g).1->Ok_0),
    decreases e,
{
    match e {
        Ast::Binary { op, left, right } => {
            law_value_becomes_live(*left, g);
            let (g1, l) = lower(*left, g);
            law_value_becomes_live(*right, g1);
            let (g2, r) = lower(*right, g1);
            assert(without_newest(without_newest(g2.live)) =~= g.live);
        },
        Ast::Call { other, actual } => {
            law_value_becomes_live(*other, g);
            law_statement_keeps_live_values(*actual, lower(*other, g).0);
        },
        _ => {},
    }
}

/// Code for a program whose expressions each stand for one value or for
/// none is generated without failure. The stack of a sound parser is such a
/// program, so code generation fails on no program that the parser built.
pub proof fn law_sound_program_compiles(program: Seq<Ast>, g: Gen)
    requires
        forall|i: int|
            0 <= i < program.len() ==> (#[trigger] program[i]).yields_value()
                || program[i].yields_nothing(),
    ensures
        lower_all(program, g).1 is Ok,
    decreases program.len(),
{
    if program.len() > 0 {
        if program[0].yields_value() {
            law_value_becomes_live(program[0], g);
        } else {
            law_statement_keeps_live_values(program[0], g);
        }
        let rest = program.skip(1);
        assert forall|i: int| 0 <= i < rest.len() implies (#[trigger] rest[i]).yields_value()
            || rest[i].yields_nothing() by {
            assert(rest[i] == program[i + 1]);
        }
        law_sound_program_compiles(rest, lower(program[0], g).0);
    }
}

/// The format of a stack dump holds one placeholder for each value, and
/// nothing else: it is `%d` and a space, `n` times.
pub proof fn law_placeholders(n: nat)
    ensures
        placeholders(n).len() == 3 * n,
        forall|k: int|
            0 <= k < n ==> {
                &&& #[trigger] placeholders(n)[3 * k] == '%'
                &&& placeholders(n)[3 * k + 1] == 'd'
                &&& placeholders(n)[3 * k + 2] == ' '
            },
    decreases n,
{
    if n > 0 {
        let shorter = placeholders((n - 1) as nat);
        law_placeholders((n - 1) as nat);
        assert forall|k: int| 0 <= k < n implies {
            &&& #[trigger] placeholders(n)[3 * k] == '%'
            &&& placeholders(n)[3 * k + 1] == 'd'
            &&& placeholders(n)[3 * k + 2] == ' '
        } by {
            if k < n - 1 {
                assert(placeholders(n)[3 * k] == shorter[3 * k]);
                assert(placeholders(n)[3 * k + 1] == shorter[3 * k + 1]);
                assert(placeholders(n)[3 * k + 2] == shorter[3 * k + 2]);
            }
        }
    }
}

/// A stack dump lists one print instruction. Its format holds as many
/// placeholders as there are live values, and its arguments are the live
/// values, oldest first. The live values stay live.
pub proof fn law_stack_dump(g: Gen)
    ensures
        ({
            let (end, result) = lower(Ast::PrintStack, g);
            &&& result == Ok::<Value, CodegenError>(Value::Const(0))
            &&& end.live == g.live
            &&& end.code.drop_last() == declared(g).code
            &&& end.code.last() == (InstrView::Print {
                text: placeholders(g.live.len()),
                name: dump_name(g.dumps),
                args: g.live,
            })
            &&& placeholders(g.live.len()).len() == 3 * g.live.len()
        }),
{
    law_placeholders(g.live.len());
    let end = lower(Ast::PrintStack, g).0;
    assert(end.code.drop_last() =~= declared(g).code);
}

/// Whether `code` holds a print instruction at or after place `from`.
pub open spec fn prints_from(code: Seq<InstrView>, from: int) -> bool {
    exists|i: int| from <= i < code.len() && #[trigger] code[i] is Print
}

/// Where parsing `source` ends: the state at the first step that fails, and
/// the failure.
pub open spec fn parsed(source: Seq<u8>) -> (Model, ParseError) {
    run(Model { input: words(source, 0), stack: Seq::empty(), operands: 0 })
}

/// The text of one decimal digit.
fn digit_text(d: usize) -> (text: &'static str)
    requires
        d < 10,
    ensures
        text@ == seq![digit(d as nat)],
{
    proof {
        reveal_strlit("0");
        reveal_strlit("1");
        reveal_strlit("2");
        reveal_strlit("3");
        reveal_strlit("4");
        reveal_strlit("5");
        reveal_strlit("6");
        reveal_strlit("7");
        reveal_strlit("8");
        reveal_strlit("9");
    }
    let text = if d == 0 {
        "0"
    } else if d == 1 {
        "1"
    } else if d == 2 {
        "2"
    } else if d == 3 {
        "3"
    } else if d == 4 {
        "4"
    } else if d == 5 {
        "5"
    } else if d == 6 {
        "6"
    } else if d == 7 {
        "7"
    } else if d == 8 {
        "8"
    } else {
        "9"
    };
    assert(text@ =~= seq![digit(d as nat)]);
    text
}

/// Appends the decimal spelling of `n` to `text`.
fn append_decimal(text: &mut String, n: usize)
    ensures
        final(text)@ == old(text)@ + decimal(n as nat),
    decreases n,
{
    if n >= 10 {
        append_decimal(text, n / 10);
    }
    text.append(digit_text(n % 10));
    assert(text@ =~= old(text)@ + decimal(n as nat));
}

/// The format of a stack dump of `n` values.
fn stack_format(n: usize) -> (format: String)
    ensures
        format@ == placeholders(n as nat),
{
    let mut format = String::new();
    let mut i: usize = 0;
    proof {
        reveal_strlit("%d ");
        assert("%d "@ =~= seq!['%', 'd', ' ']);
    }
    while i < n
        invariant
            i <= n,
            format@ == placeholders(i as nat),
            "%d "@ == seq!['%', 'd', ' '],
        decreases n - i,
    {
        format.append("%d ");
        i = i + 1;
    }
    format
}

/// A copy of `values`.
fn copy_values(values: &Vec<Value>) -> (copy: Vec<Value>)
    ensures
        copy@ == values@,
{
    let mut copy: Vec<Value> = Vec::new();
    let mut i: usize = 0;
    while i < values.len()
        invariant
            i <= values@.len(),
            copy@ == values@.take(i as int),
        decreases values@.len() - i,
    {
        copy.push(values[i]);
        proof {
            assert(copy@ =~= values@.take(i + 1));
        }
        i = i + 1;
    }
    proof {
        assert(values@.take(values@.len() as int) =~= values@);
    }
    copy
}

/// The code generator.
///
/// It holds the instructions listed so far and the live values, and the
/// backend objects that the instructions are emitted to.
pub struct Compiler<'a, 'ctx> {
    pub context: &'ctx Context,
    pub builder: &'a Builder<'ctx>,
    pub module: &'a Module<'ctx>,
    /// The values that no operator has consumed yet, oldest first.
    pub variables: Vec<Value>,
    /// The engine that is to run the module.
    pub execution_engine: &'a ExecutionEngine<'ctx>,
    /// Whether the output function was declared.
    pub printf_defined: bool,
    /// The number of the next string constant.
    pub string_count: usize,
    /// The number of the next stack-dump format.
    pub print_stack_count: usize,
    pub(crate) code: Vec<Instr>,
    pub(crate) emitted: Vec<IntValue<'ctx>>,
    pub(crate) entry_built: bool,
}

impl<'a, 'ctx> Compiler<'a, 'ctx> {
    /// The state of code generation in mathematical form.
    pub closed spec fn gen(&self) -> Gen {
        Gen {
            code: instrs(self.code@),
            live: self.variables@,
            declared: self.printf_defined,
            strings: self.string_count as nat,
            dumps: self.print_stack_count as nat,
        }
    }

    /// How many of the listed instructions the backend has received.
    pub closed spec fn emitted(&self) -> nat {
        self.emitted@.len()
    }

    /// Whether the entry block was built, so that the backend takes
    /// instructions.
    pub closed spec fn entry_built(&self) -> bool {
        self.entry_built
    }

    /// The generator's state is sound, and nothing was emitted that is not
    /// listed.
    pub open spec fn wf(&self) -> bool {
        &&& self.gen().wf()
        &&& self.emitted() <= self.gen().code.len()
    }

    /// A generator for the given backend objects: nothing listed, nothing
    /// live, nothing emitted.
    ///
    /// The builder, the module and the execution engine must belong to
    /// `context`, and the engine to the module.
    pub fn new(
        context: &'ctx Context,
        builder: &'a Builder<'ctx>,
        module: &'a Module<'ctx>,
        execution_engine: &'a ExecutionEngine<'ctx>,
    ) -> (compiler: Self)
        ensures
            compiler.wf(),
            compiler.gen() == (Gen {
                code: Seq::empty(),
                live: Seq::empty(),
                declared: false,
                strings: 1,
                dumps: 1,
            }),
            compiler.emitted() == 0,
            !compiler.entry_built(),
    {
        let compiler = Compiler {
            context,
            builder,
            module,
            variables: Vec::new(),
            execution_engine,
            printf_defined: false,
            string_count: 1,
            print_stack_count: 1,
            code: Vec::new(),
            emitted: Vec::new(),
            entry_built: false,
        };
        assert(compiler.gen().code =~= Seq::empty());
        compiler
    }

    /// The instructions listed so far.
    pub fn code(&self) -> (code: &Vec<Instr>)
        ensures
            instrs(code@) == self.gen().code,
    {
        &self.code
    }

    /// Lists `instr`.
    fn list(&mut self, instr: Instr)
        ensures
            final(self).code@ == old(self).code@.push(instr),
            instrs(final(self).code@) == instrs(old(self).code@).push(instr@),
            final(self).code@.len() <= usize::MAX,
            final(self).variables == old(self).variables,
            final(self).printf_defined == old(self).printf_defined,
            final(self).string_count == old(self).string_count,
            final(self).print_stack_count == old(self).print_stack_count,
            final(self).emitted == old(self).emitted,
            final(self).entry_built == old(self).entry_built,
    {
        self.code.push(instr);
        let _ = self.code.len();
        assert(instrs(self.code@) =~= instrs(old(self).code@).push(instr@));
    }

    /// Lists the declaration of the output function unless it is declared.
    fn declare(&mut self)
        requires
            old(self).wf(),
        ensures
            final(self).wf(),
            final(self).gen() =~= declared(old(self).gen()),
            final(self).emitted == old(self).emitted,
            final(self).entry_built == old(self).entry_built,
    {
        if !self.printf_defined {
            self.list(Instr::DeclarePrint);
            self.printf_defined = true;
        }
    }

    /// Lists the instruction for the operator `op` on two generated values
    /// and replaces the two newest live values by its result.
    fn apply_operator(&mut self, op: char, lhs: Value, rhs: Value) -> (result: Result<
        Value,
        CodegenError,
    >)
        requires
            old(self).wf(),
            in_scope(lhs, old(self).gen().code.len() as int),
            in_scope(rhs, old(self).gen().code.len() as int),
        ensures
            final(self).wf(),
            final(self).gen() =~= lower_operator(op, lhs, rhs, old(self).gen()).0,
            result == lower_operator(op, lhs, rhs, old(self).gen()).1,
            final(self).emitted == old(self).emitted,
            final(self).entry_built == old(self).entry_built,
    {
        self.variables.pop();
        self.variables.pop();
        let op = if op == '+' {
            Arith::Add
        } else if op == '-' {
            Arith::Sub
        } else if op == '*' {
            Arith::Mul
        } else if op == '/' {
            Arith::Div
        } else {
            return Err(CodegenError::CodeGenFailure);
        };
        let result = Value::Temp(self.code.len());
        self.list(Instr::Arith { op, lhs, rhs });
        self.variables.push(result);
        Ok(result)
    }

    /// Lists the print instruction for `text`.
    fn print_string(&mut self, text: &str) -> (result: Result<Value, CodegenError>)
        requires
            old(self).wf(),
        ensures
            final(self).wf(),
            final(self).gen() =~= lower_string(text@, old(self).gen()).0,
            result == lower_string(text@, old(self).gen()).1,
            final(self).emitted == old(self).emitted,
            final(self).entry_built == old(self).entry_built,
    {
        self.declare();
        let mut name = String::from_str("string");
        append_decimal(&mut name, self.string_count);
        proof {
            reveal_strlit("string");
            assert(name@ =~= string_name(self.string_count as nat));
        }
        self.list(Instr::Print { text: String::from_str(text), name, args: Vec::new() });
        self.string_count = self.string_count + 1;
        Ok(Value::Const(0))
    }

    /// Lists the print instruction for a dump of the live values.
    fn print_stack(&mut self) -> (result: Result<Value, CodegenError>)
        requires
            old(self).wf(),
        ensures
            final(self).wf(),
            final(self).gen() =~= lower_dump(old(self).gen()).0,
            result == lower_dump(old(self).gen()).1,
            final(self).emitted == old(self).emitted,
            final(self).entry_built == old(self).entry_built,
    {
        self.declare();
        let mut name = String::from_str("print_stack");
        append_decimal(&mut name, self.print_stack_count);
        proof {
            reveal_strlit("print_stack");
            assert(name@ =~= dump_name(self.print_stack_count as nat));
        }
        let text = stack_format(self.variables.len());
        let args = copy_values(&self.variables);
        self.list(Instr::Print { text, name, args });
        self.print_stack_count = self.print_stack_count + 1;
        Ok(Value::Const(0))
    }

    /// Lists the instructions for `expr` and keeps the live values in step.
    ///
    /// Returns the value of `expr`. Nothing is handed to the backend yet:
    /// that is the work of [`Compiler::emit`].
    pub fn compile_expr(&mut self, expr: &Expr) -> (result: Result<Value, CodegenError>)
        requires
            old(self).wf(),
        ensures
            final(self).wf(),
            final(self).gen() =~= lower(expr@, old(self).gen()).0,
            result == lower(expr@, old(self).gen()).1,
            result is Ok ==> in_scope(result->Ok_0, final(self).gen().code.len() as int),
            old(self).gen().code.len() <= final(self).gen().code.len(),
            final(self).emitted() == old(self).emitted(),
            final(self).entry_built() == old(self).entry_built(),
        decreases expr,
    {
        match expr {
            Expr::Number(val) => {
                let value = Value::Const(val.n);
                self.variables.push(value);
                Ok(value)
            },
            Expr::Binary { op, left, right } => {
                let lhs = match self.compile_expr(left) {
                    Ok(value) => value,
                    Err(e) => {
                        return Err(e);
                    },
                };
                let rhs = match self.compile_expr(right) {
                    Ok(value) => value,
                    Err(e) => {
                        return Err(e);
                    },
                };
                self.apply_operator(*op, lhs, rhs)
            },
            Expr::Call { other, actual } => {
                let value = match self.compile_expr(other) {
                    Ok(value) => value,
                    Err(e) => {
                        return Err(e);
                    },
                };
                match self.compile_expr(actual) {
                    Ok(_) => Ok(value),
                    Err(e) => Err(e),
                }
            },
            Expr::StringPrint(text) => self.print_string(text.as_str()),
            Expr::PrintStack => self.print_stack(),
            Expr::ProgramEnd => Ok(Value::Const(0)),
        }
    }

    /// The 32-bit constant `n` of the backend.
    fn const_i32(&self, n: i32) -> IntValue<'ctx> {
        const_int(i32_type(self.context), n)
    }

    /// Declares the formatted-output function in the module: `printf`, which
    /// takes a pointer to the bytes of a format and any number of further
    /// arguments and returns a 32-bit integer. It is external and has the C
    /// calling convention.
    pub fn define_printf(&self) {
        let format = ptr_type(i8_type(self.context), default_address_space());
        let mut parameters: Vec<BasicMetadataTypeEnum<'ctx>> = Vec::new();
        parameters.push(pointer_parameter(format));
        let signature = fn_type(i32_type(self.context), &parameters, true);
        let printf = add_function(self.module, "printf", signature, Some(external_linkage()));
        set_call_conventions(printf, 0);
    }

    /// Creates the entry function in the module, `main`, which takes nothing
    /// and returns a 32-bit integer, gives it its one block, `entry`, and
    /// places the builder at the end of that block. The backend takes
    /// instructions from then on.
    pub fn build_main(&mut self)
        ensures
            final(self).entry_built(),
            final(self).gen() == old(self).gen(),
            final(self).emitted() == old(self).emitted(),
    {
        let parameters: Vec<BasicMetadataTypeEnum<'ctx>> = Vec::new();
        let signature = fn_type(i32_type(self.context), &parameters, false);
        let main = add_function(self.module, "main", signature, Some(external_linkage()));
        let entry = append_basic_block(self.context, main, "entry");
        position_at_end(self.builder, entry);
        self.entry_built = true;
    }

    /// Ends the entry function: appends the instruction that returns zero.
    pub fn build_end_return(&self) {
        build_return(self.builder, self.const_i32(0));
    }

    /// The backend's handle for `value`: `None` for the result of an
    /// instruction that the backend has not received.
    pub fn backend_value(&self, value: Value) -> (handle: Option<IntValue<'ctx>>)
        ensures
            handle is Some <==> in_scope(value, self.emitted() as int),
    {
        match value {
            Value::Const(n) => Some(self.const_i32(n)),
            Value::Temp(i) => {
                if i < self.emitted.len() {
                    Some(self.emitted[i])
                } else {
                    None
                }
            },
        }
    }

    /// The backend's handle for a value that it has; for an instruction's result, the one stored.
    fn operand(&self, value: Value) -> (handle: IntValue<'ctx>)
        requires
            in_scope(value, self.emitted() as int),
        ensures
            value matches Value::Temp(i) ==> handle == self.emitted@[i as int],
    {
        match value {
            Value::Const(n) => self.const_i32(n),
            Value::Temp(i) => self.emitted[i],
        }
    }

    /// Hands the listed instructions that the backend has not received to it,
    /// in order.
    ///
    /// Fails with `BackendFailure`, and emits nothing, before the entry block
    /// is built. Fails with `BackendFailure` at a print instruction for which
    /// the module has no output function; what stood before it is emitted.
    /// With the entry block built and no print instruction to emit, it
    /// succeeds.
    pub fn emit(&mut self) -> (result: Result<(), CodegenError>)
        requires
            old(self).wf(),
        ensures
            final(self).wf(),
            final(self).gen() == old(self).gen(),
            final(self).entry_built() == old(self).entry_built(),
            old(self).emitted() <= final(self).emitted(),
            result is Ok ==> final(self).emitted() == final(self).gen().code.len(),
            result is Err ==> result == Err::<(), CodegenError>(CodegenError::BackendFailure),
            !old(self).entry_built() ==> result is Err && final(self).emitted() == old(
                self,
            ).emitted(),
            old(self).entry_built() && !prints_from(
                old(self).gen().code,
                old(self).emitted() as int,
            ) ==> result is Ok,
    {
        if !self.entry_built {
            return Err(CodegenError::BackendFailure);
        }
        while self.emitted.len() < self.code.len()
            invariant
                self.wf(),
                self.gen() == old(self).gen(),
                self.entry_built,
                old(self).entry_built,
                old(self).emitted() <= self.emitted(),
            decreases self.code@.len() - self.emitted@.len(),
        {
            let at = self.emitted.len();
            assert(instr_scoped(instrs(self.code@)[at as int], at as int));
            let value = match &self.code[at] {
                Instr::Arith { op, lhs, rhs } => {
                    let lhs = self.operand(*lhs);
                    let rhs = self.operand(*rhs);
                    match op {
                        Arith::Add => build_int_add(self.builder, lhs, rhs, "anAdd"),
                        Arith::Sub => build_int_sub(self.builder, lhs, rhs, "aSub"),
                        Arith::Mul => build_int_mul(self.builder, lhs, rhs, "aMult"),
                        Arith::Div => build_int_signed_div(self.builder, lhs, rhs, "aDiv"),
                    }
                },
                Instr::DeclarePrint => {
                    self.define_printf();
                    self.const_i32(0)
                },
                Instr::Print { text, name, args } => {
                    assert(instrs(self.code@)[at as int] is Print);
                    let function = match get_function(self.module, "printf") {
                        Some(function) => function,
                        None => {
                            return Err(CodegenError::BackendFailure);
                        },
                    };
                    let format = as_pointer_value(
                        self.build_global_string_ptr(text.as_str(), name.as_str()),
                    );
                    let mut arguments: Vec<BasicMetadataValueEnum<'ctx>> = Vec::new();
                    arguments.push(pointer_argument(format));
                    let mut k: usize = 0;
                    while k < args.len()
                        invariant
                            k <= args@.len(),
                            arguments@.len() == k + 1,
                            all_in_scope(args@, self.emitted() as int),
                        decreases args@.len() - k,
                    {
                        arguments.push(int_argument(self.operand(args[k])));
                        k = k + 1;
                    }
                    build_call(self.builder, function, &arguments, "printf");
                    self.const_i32(0)
                },
            };
            self.emitted.push(value);
        }
        Ok(())
    }

    /// Lists the instructions for every expression of `program`, in order,
    /// and stops at the first that fails.
    ///
    /// An expression whose value nothing consumes is generated like any
    /// other: its instructions are listed, and its value stays live to the
    /// end, where it is dropped.
    pub fn compile_program(&mut self, program: &Vec<Box<Expr>>) -> (result: Result<
        (),
        CodegenError,
    >)
        requires
            old(self).wf(),
        ensures
            final(self).wf(),
            final(self).gen() =~= lower_all(asts(program@), old(self).gen()).0,
            result == lower_all(asts(program@), old(self).gen()).1,
            final(self).emitted() == old(self).emitted(),
            final(self).entry_built() == old(self).entry_built(),
    {
        let mut i: usize = 0;
        proof {
            assert(asts(program@).skip(0) =~= asts(program@));
        }
        while i < program.len()
            invariant
                i <= program@.len(),
                self.wf(),
                lower_all(asts(program@).skip(i as int), self.gen()) == lower_all(
                    asts(program@),
                    old(self).gen(),
                ),
                self.emitted() == old(self).emitted(),
                self.entry_built() == old(self).entry_built(),
            decreases program@.len() - i,
        {
            proof {
                assert(asts(program@).skip(i as int)[0] == program@[i as int]@);
                assert(asts(program@).skip(i as int).skip(1) =~= asts(program@).skip(i + 1));
            }
            match self.compile_expr(&program[i]) {
                Ok(_) => {},
                Err(e) => {
                    return Err(e);
                },
            }
            i = i + 1;
        }
        Ok(())
    }

    /// Parses `source` to the first step that fails and lists the
    /// instructions for everything that was parsed, in order.
    ///
    /// Returns how the parsing ended. Code generation does not fail on what
    /// the parser builds.
    pub fn compile_source(&mut self, source: &str) -> (end: ParseEnd)
        requires
            old(self).wf(),
        ensures
            final(self).wf(),
            end.failure == parsed(source.spec_bytes()).1,
            end.token == head(parsed(source.spec_bytes()).0.input),
            lower_all(parsed(source.spec_bytes()).0.stack, old(self).gen()).1 is Ok,
            final(self).gen() =~= lower_all(
                parsed(source.spec_bytes()).0.stack,
                old(self).gen(),
            ).0,
            final(self).emitted() == old(self).emitted(),
            final(self).entry_built() == old(self).entry_built(),
    {
        let mut parser = Parser::new(Token::lexer(source));
        proof {
            law_run_keeps_sound(parser.model());
        }
        let end = parser.parse_program();
        proof {
            law_sound_program_compiles(parser.pending(), self.gen());
        }
        let _ = self.compile_program(parser.program());
        end
    }

    /// Builds the whole program for `source`: the entry block, the
    /// instructions for everything that parses, and the final return.
    ///
    /// Returns how the parsing ended. Where the backend refuses an
    /// instruction the result is `BackendFailure`, and no return is built.
    pub fn build_program(&mut self, source: &str) -> (result: Result<ParseEnd, CodegenError>)
        requires
            old(self).wf(),
        ensures
            final(self).wf(),
            final(self).entry_built(),
            final(self).gen() =~= lower_all(
                parsed(source.spec_bytes()).0.stack,
                old(self).gen(),
            ).0,
            match result {
                Ok(end) => {
                    &&& end.failure == parsed(source.spec_bytes()).1
                    &&& end.token == head(parsed(source.spec_bytes()).0.input)
                    &&& final(self).emitted() == final(self).gen().code.len()
                },
                Err(e) => e == CodegenError::BackendFailure,
            },
    {
        self.build_main();
        let end = self.compile_source(source);
        match self.emit() {
            Ok(()) => {
                self.build_end_return();
                Ok(end)
            },
            Err(e) => Err(e),
        }
    }
}

} // verus!
