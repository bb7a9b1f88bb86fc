//! The mathematical model of the calculator: its state, what each token does
//! to it, and what a sequence of tokens does.
use vstd::prelude::*;
use vstd::arithmetic::power::pow;
use crate::numeral::{int_of, decimal_of, in_isize};
use crate::tokens::words;

verus! {

/// The binary arithmetic operators.
#[derive(Clone, Copy, Debug, PartialEq, Eq, Structural)]
pub enum Op {
    Add,
    Sub,
    Mul,
    Div,
    Pow,
}

/// Why an operation failed, as the model sees it.
pub enum Fault {
    StackUnderflow,
    NotANumber,
    DivisionByZero,
    InvalidExponent,
    Overflow,
    UndefinedVariable(Seq<char>),
    UnknownToken(Seq<char>),
    TrailingOperand,
}

/// Why an operation failed.
#[derive(Clone, Debug, PartialEq, Eq)]
pub enum EvalError {
    /// A value was needed from the stack and there was none.
    StackUnderflow,
    /// A value taken from the stack is not a numeral.
    NotANumber,
    /// A division by zero.
    DivisionByZero,
    /// An exponent below zero.
    InvalidExponent,
    /// A result outside the range of `isize`.
    Overflow,
    /// A recall of a name that holds no value; carries the name.
    UndefinedVariable(String),
    /// A token of no known kind; carries the token.
    UnknownToken(String),
    /// An expression whose last token is a numeral.
    TrailingOperand,
}

impl View for EvalError {
    type V = Fault;

    open spec fn view(&self) -> Fault {
        match self {
            EvalError::StackUnderflow => Fault::StackUnderflow,
            EvalError::NotANumber => Fault::NotANumber,
            EvalError::DivisionByZero => Fault::DivisionByZero,
            EvalError::InvalidExponent => Fault::InvalidExponent,
            EvalError::Overflow => Fault::Overflow,
            EvalError::UndefinedVariable(name) => Fault::UndefinedVariable(name@),
            EvalError::UnknownToken(token) => Fault::UnknownToken(token@),
            EvalError::TrailingOperand => Fault::TrailingOperand,
        }
    }
}

/// The state of a calculator: the stack (top last), the named values in
/// the order they were first stored, and the diagnostic lines written so far.
pub struct CalcState {
    pub stack: Seq<Seq<char>>,
    pub vars: Seq<(Seq<char>, Seq<char>)>,
    pub output: Seq<Seq<char>>,
}

pub open spec fn empty_state() -> CalcState {
    CalcState { stack: seq![], vars: seq![], output: seq![] }
}

pub open spec fn with_stack(st: CalcState, stack: Seq<Seq<char>>) -> CalcState {
    CalcState { stack, vars: st.vars, output: st.output }
}

/// The value stored under `name`, if any (the first entry with that name).
pub open spec fn lookup(vars: Seq<(Seq<char>, Seq<char>)>, name: Seq<char>) -> Option<Seq<char>>
    decreases vars.len(),
{
    if vars.len() == 0 {
        None
    } else if vars[0].0 == name {
        Some(vars[0].1)
    } else {
        lookup(vars.drop_first(), name)
    }
}

/// `vars` with `name` bound to `value`: the entry for `name` is overwritten
/// in place, or a new entry is added at the end.
pub open spec fn assign(vars: Seq<(Seq<char>, Seq<char>)>, name: Seq<char>, value: Seq<char>) -> Seq<
    (Seq<char>, Seq<char>),
>
    decreases vars.len(),
{
    if vars.len() == 0 {
        seq![(name, value)]
    } else if vars[0].0 == name {
        vars.update(0, (name, value))
    } else {
        seq![vars[0]] + assign(vars.drop_first(), name, value)
    }
}

/// Integer division that rounds toward zero.
pub open spec fn quotient(y: int, x: int) -> int {
    let q = (if y < 0 { -y } else { y }) / (if x < 0 { -x } else { x });
    if (y < 0) == (x < 0) {
        q
    } else {
        -q
    }
}

/// What `op` computes from `x`, taken first from the stack, and `y`, taken
/// second: `y + x`, `y - x`, `y * x`, `y / x`, and `x` to the power `y`.
pub open spec fn raw_result(op: Op, x: int, y: int) -> int {
    match op {
        Op::Add => y + x,
        Op::Sub => y - x,
        Op::Mul => y * x,
        Op::Div => quotient(y, x),
        Op::Pow => pow(x, y as nat),
    }
}

/// The result of `op` on `x` (taken first) and `y` (taken second), or why it fails.
pub open spec fn combine(op: Op, x: int, y: int) -> Result<int, Fault> {
    if op == Op::Div && x == 0 {
        Err(Fault::DivisionByZero)
    } else if op == Op::Pow && y < 0 {
        Err(Fault::InvalidExponent)
    } else if !in_isize(raw_result(op, x, y)) {
        Err(Fault::Overflow)
    } else {
        Ok(raw_result(op, x, y))
    }
}

/// A binary operator: it reads the top two entries as integers and replaces
/// them with the result's decimal form. On failure the state is left as it was.
pub open spec fn binary_step(st: CalcState, op: Op) -> Result<CalcState, Fault> {
    let s = st.stack;
    let n = s.len();
    if n == 0 {
        Err(Fault::StackUnderflow)
    } else if int_of(s[n - 1]) is None {
        Err(Fault::NotANumber)
    } else if n < 2 {
        Err(Fault::StackUnderflow)
    } else if int_of(s[n - 2]) is None {
        Err(Fault::NotANumber)
    } else {
        match combine(op, int_of(s[n - 1])->0, int_of(s[n - 2])->0) {
            Ok(v) => Ok(with_stack(st, s.subrange(0, n - 2).push(decimal_of(v)))),
            Err(f) => Err(f),
        }
    }
}

/// Swaps the top two entries of the stack.
pub open spec fn exchange_step(st: CalcState) -> Result<CalcState, Fault> {
    let s = st.stack;
    let n = s.len();
    if n < 2 {
        Err(Fault::StackUnderflow)
    } else {
        Ok(with_stack(st, s.subrange(0, n - 2).push(s[n - 1]).push(s[n - 2])))
    }
}

/// Binds `name` to the top of the stack, which stays where it is.
pub open spec fn store_step(st: CalcState, name: Seq<char>) -> Result<CalcState, Fault> {
    if st.stack.len() == 0 {
        Err(Fault::StackUnderflow)
    } else {
        Ok(CalcState { stack: st.stack, vars: assign(st.vars, name, st.stack.last()), output: st.output })
    }
}

/// Pushes the value bound to `name`; an empty name pushes the empty string.
pub open spec fn recall_step(st: CalcState, name: Seq<char>) -> Result<CalcState, Fault> {
    if name.len() == 0 {
        Ok(with_stack(st, st.stack.push(seq![])))
    } else {
        match lookup(st.vars, name) {
            Some(v) => Ok(with_stack(st, st.stack.push(v))),
            None => Err(Fault::UndefinedVariable(name)),
        }
    }
}

/// The diagnostic lines that show the stack, top first; none when it is empty.
pub open spec fn stack_lines(stack: Seq<Seq<char>>) -> Seq<Seq<char>> {
    if stack.len() == 0 {
        seq![]
    } else {
        seq!["STACK:"@] + Seq::new(stack.len(), |i: int| "\tStack = "@ + stack[stack.len() - 1 - i])
            + seq![seq![]]
    }
}

/// The diagnostic lines that show the named values; none when the stack is empty.
pub open spec fn var_lines(st: CalcState) -> Seq<Seq<char>> {
    if st.stack.len() == 0 {
        seq![]
    } else {
        seq!["TEMP VARS"@] + Seq::new(
            st.vars.len(),
            |i: int| "\tKey = "@ + st.vars[i].0 + " = "@ + st.vars[i].1,
        ) + seq![seq![]]
    }
}

/// The operator that a one-character token names, if any.
pub open spec fn op_of(c: char) -> Option<Op> {
    if c == '+' {
        Some(Op::Add)
    } else if c == '-' {
        Some(Op::Sub)
    } else if c == '*' {
        Some(Op::Mul)
    } else if c == '/' {
        Some(Op::Div)
    } else if c == '^' {
        Some(Op::Pow)
    } else {
        None
    }
}

/// What one token does to the state; `last` tells whether it ends the expression.
pub open spec fn apply(st: CalcState, tok: Seq<char>, last: bool) -> Result<CalcState, Fault> {
    if int_of(tok) is Some {
        if last {
            Err(Fault::TrailingOperand)
        } else {
            Ok(with_stack(st, st.stack.push(decimal_of(int_of(tok)->0))))
        }
    } else if tok.len() == 1 && (tok[0] == 'x' || tok[0] == 'X') {
        exchange_step(st)
    } else if tok.len() == 1 && tok[0] == '?' {
        Ok(CalcState { stack: st.stack, vars: st.vars, output: st.output + stack_lines(st.stack) })
    } else if tok.len() == 1 && tok[0] == '&' {
        Ok(CalcState { stack: st.stack, vars: st.vars, output: st.output + var_lines(st) })
    } else if tok.len() == 1 && op_of(tok[0]) is Some {
        binary_step(st, op_of(tok[0])->0)
    } else if tok.len() > 0 && tok[0] == '!' {
        store_step(st, tok.drop_first())
    } else if tok.len() > 0 && tok[0] == '@' {
        recall_step(st, tok.drop_first())
    } else {
        Err(Fault::UnknownToken(tok))
    }
}

/// Runs the tokens `toks[lo..hi]` in order from `st`, stopping at the first
/// failure. Gives the final state (on failure, the state before the failing
/// token) and the outcome. A token is the last one when it ends `toks`.
pub open spec fn run(st: CalcState, toks: Seq<Seq<char>>, lo: int, hi: int) -> (
    CalcState,
    Result<(), Fault>,
)
    decreases hi - lo,
{
    if lo >= hi {
        (st, Ok(()))
    } else {
        match apply(st, toks[lo], lo == toks.len() - 1) {
            Ok(next) => run(next, toks, lo + 1, hi),
            Err(f) => (st, Err(f)),
        }
    }
}

/// What evaluating `expression` from `st` leads to: its words run in order.
pub open spec fn evaluation(st: CalcState, expression: Seq<char>) -> (CalcState, Result<(), Fault>) {
    run(st, words(expression), 0, words(expression).len() as int)
}

/// Whether `r` reports the outcome `res`.
pub open spec fn reports(r: Result<(), EvalError>, res: Result<(), Fault>) -> bool {
    match res {
        Ok(()) => r is Ok,
        Err(f) => r is Err && r->Err_0@ == f,
    }
}

/// Whether a call that returned `r` and moved the state from `before` to
/// `after` did what `expected` says: the new state on success, and on
/// failure the same fault with the state unchanged.
pub open spec fn settles<T>(
    r: Result<T, EvalError>,
    before: CalcState,
    after: CalcState,
    expected: Result<CalcState, Fault>,
) -> bool {
    match expected {
        Ok(s) => r is Ok && after == s,
        Err(f) => r is Err && r->Err_0@ == f && after == before,
    }
}

} // verus!
