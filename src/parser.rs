//! The calculator itself: a stack of numerals, a store of named values, and
//! the evaluator that runs expressions against them.
use vstd::prelude::*;
use vstd::string::*;
use vstd::arithmetic::power::pow;
use crate::model::{
    Op, Fault, EvalError, CalcState, empty_state, with_stack, lookup, assign, quotient, raw_result,
    binary_step, exchange_step, store_step, recall_step, stack_lines, var_lines,
    apply, run, settles, evaluation, reports,
};
use crate::numeral::{int_of, decimal_of, in_isize, parse_isize, decimal};
use crate::tokens::{split_tokens, views};

verus! {

pub open spec fn pair_views(v: Seq<(String, String)>) -> Seq<(Seq<char>, Seq<char>)> {
    v.map_values(|p: (String, String)| (p.0@, p.1@))
}

proof fn lemma_pow_unit(b: int, e: nat)
    ensures
        b == 0 ==> pow(b, e) == (if e == 0 { 1int } else { 0int }),
        b == 1 ==> pow(b, e) == 1,
        b == -1 ==> pow(b, e) == (if e % 2 == 0 { 1int } else { -1int }),
    decreases e,
{
    reveal(pow);
    if e > 0 {
        lemma_pow_unit(b, (e - 1) as nat);
    }
}

spec fn abs(v: int) -> int {
    if v < 0 {
        -v
    } else {
        v
    }
}

proof fn lemma_pow_grows(b: int, j: nat, k: nat)
    requires
        abs(b) >= 2,
        j < k,
    ensures
        abs(pow(b, k)) >= 2 * abs(pow(b, j)),
    decreases k - j,
{
    reveal(pow);
    let p = pow(b, (k - 1) as nat);
    assert(pow(b, k) == b * p);
    assert(abs(b * p) >= 2 * abs(p)) by {
        if b >= 2 {
            if p >= 0 {
                assert(b * p >= 2 * p) by (nonlinear_arith)
                    requires b >= 2, p >= 0;
            } else {
                assert(b * p <= 2 * p) by (nonlinear_arith)
                    requires b >= 2, p < 0;
            }
        } else {
            if p >= 0 {
                assert(b * p <= -2 * p) by (nonlinear_arith)
                    requires b <= -2, p >= 0;
            } else {
                assert(b * p >= -2 * p) by (nonlinear_arith)
                    requires b <= -2, p < 0;
            }
        }
    }
    if j + 1 < k {
        lemma_pow_grows(b, j, (k - 1) as nat);
    }
}

/// `base` to the power `exp`, or `None` where that leaves the range of `isize`.
fn checked_power(base: isize, exp: isize) -> (r: Option<isize>)
    requires
        exp >= 0,
    ensures
        r == (if in_isize(pow(base as int, exp as nat)) {
            Some(pow(base as int, exp as nat) as isize)
        } else {
            None::<isize>
        }),
{
    proof {
        lemma_pow_unit(base as int, exp as nat);
    }
    if base == 0 {
        if exp == 0 {
            Some(1)
        } else {
            Some(0)
        }
    } else if base == 1 {
        Some(1)
    } else if base == -1 {
        if exp % 2 == 0 {
            Some(1)
        } else {
            Some(-1)
        }
    } else {
        let mut acc: isize = 1;
        let mut i: isize = 0;
        proof {
            reveal(pow);
        }
        while i < exp
            invariant
                0 <= i <= exp,
                abs(base as int) >= 2,
                acc as int == pow(base as int, i as nat),
            decreases exp - i,
        {
            proof {
                reveal(pow);
            }
            assert(pow(base as int, (i + 1) as nat) == base * pow(base as int, i as nat));
            assert(pow(base as int, (i + 1) as nat) == acc * base) by (nonlinear_arith)
                requires
                    pow(base as int, (i + 1) as nat) == base * pow(base as int, i as nat),
                    acc as int == pow(base as int, i as nat);
            match acc.checked_mul(base) {
                Some(next) => {
                    acc = next;
                    i += 1;
                },
                None => {
                    proof {
                        if i + 1 < exp {
                            lemma_pow_grows(base as int, (i + 1) as nat, exp as nat);
                        }
                    }
                    return None;
                },
            }
        }
        Some(acc)
    }
}

proof fn lemma_first_match(
    vars: Seq<(Seq<char>, Seq<char>)>,
    name: Seq<char>,
    value: Seq<char>,
    j: int,
)
    requires
        0 <= j <= vars.len(),
        forall|m: int| 0 <= m < j ==> vars[m].0 != name,
        j < vars.len() ==> vars[j].0 == name,
    ensures
        j < vars.len() ==> assign(vars, name, value) == vars.update(j, (name, value)) && lookup(
            vars,
            name,
        ) == Some(vars[j].1),
        j == vars.len() ==> assign(vars, name, value) == vars.push((name, value)) && lookup(
            vars,
            name,
        ) is None,
    decreases vars.len(),
{
    if vars.len() > 0 && j > 0 {
        lemma_first_match(vars.drop_first(), name, value, j - 1);
        if j < vars.len() {
            assert(assign(vars, name, value) =~= vars.update(j, (name, value)));
        } else {
            assert(assign(vars, name, value) =~= vars.push((name, value)));
        }
    } else if vars.len() == 0 {
        assert(assign(vars, name, value) =~= vars.push((name, value)));
    }
}

/// An RPN calculator. Its state lasts from one expression to the next until
/// it is cleared.
pub struct RPNParser {
    stack: Vec<String>,
    vars: Vec<(String, String)>,
    output: Vec<String>,
}

impl View for RPNParser {
    type V = CalcState;

    closed spec fn view(&self) -> CalcState {
        CalcState { stack: views(self.stack@), vars: pair_views(self.vars@), output: views(self.output@) }
    }
}

impl Default for RPNParser {
    fn default() -> (r: Self)
        ensures
            r@ == empty_state(),
    {
        RPNParser::new()
    }
}

impl RPNParser {
    /// A calculator with an empty stack and no named values.
    pub fn new() -> (r: Self)
        ensures
            r@ == empty_state(),
    {
        let r = RPNParser { stack: Vec::new(), vars: Vec::new(), output: Vec::new() };
        assert(r@.stack =~= seq![]);
        assert(r@.vars =~= seq![]);
        assert(r@.output =~= seq![]);
        r
    }

    /// Puts `value` on top of the stack.
    pub fn push(&mut self, value: String)
        ensures
            final(self)@ == with_stack(old(self)@, old(self)@.stack.push(value@)),
    {
        self.stack.push(value);
        assert(views(self.stack@) =~= views(old(self).stack@).push(value@));
    }

    /// Removes the top of the stack and returns it.
    pub fn pop(&mut self) -> (r: Result<String, EvalError>)
        ensures
            old(self)@.stack.len() == 0 ==> r == Err::<String, EvalError>(EvalError::StackUnderflow)
                && final(self)@ == old(self)@,
            old(self)@.stack.len() > 0 ==> r is Ok && r->Ok_0@ == old(self)@.stack.last()
                && final(self)@ == with_stack(old(self)@, old(self)@.stack.drop_last()),
    {
        match self.stack.pop() {
            Some(v) => {
                assert(views(self.stack@) =~= views(old(self).stack@).drop_last());
                Ok(v)
            },
            None => Err(EvalError::StackUnderflow),
        }
    }

    /// Returns a copy of the top of the stack, which stays where it is.
    pub fn peek(&mut self) -> (r: Result<String, EvalError>)
        ensures
            final(self)@ == old(self)@,
            old(self)@.stack.len() == 0 ==> r == Err::<String, EvalError>(EvalError::StackUnderflow),
            old(self)@.stack.len() > 0 ==> r is Ok && r->Ok_0@ == old(self)@.stack.last(),
    {
        let n = self.stack.len();
        if n == 0 {
            Err(EvalError::StackUnderflow)
        } else {
            Ok(self.stack[n - 1].clone())
        }
    }

    /// Empties the stack and forgets every named value.
    pub fn clear(&mut self)
        ensures
            final(self)@ == (CalcState { stack: seq![], vars: seq![], output: old(self)@.output }),
    {
        self.stack.clear();
        self.vars.clear();
        assert(views(self.stack@) =~= seq![]);
        assert(pair_views(self.vars@) =~= seq![]);
    }

    /// The top two entries read as integers, the top one first; the stack is
    /// not changed. Fails as a binary operator would before it computes.
    fn retrieve_stack_values(&self) -> (r: Result<(isize, isize), EvalError>)
        ensures
            ({
                let s = self@.stack;
                let n = s.len();
                if n == 0 {
                    r == Err::<(isize, isize), EvalError>(EvalError::StackUnderflow)
                } else if int_of(s[n - 1]) is None {
                    r == Err::<(isize, isize), EvalError>(EvalError::NotANumber)
                } else if n < 2 {
                    r == Err::<(isize, isize), EvalError>(EvalError::StackUnderflow)
                } else if int_of(s[n - 2]) is None {
                    r == Err::<(isize, isize), EvalError>(EvalError::NotANumber)
                } else {
                    r is Ok && r->Ok_0.0 == int_of(s[n - 1])->0 && r->Ok_0.1 == int_of(
                        s[n - 2],
                    )->0
                }
            }),
    {
        let n = self.stack.len();
        if n == 0 {
            return Err(EvalError::StackUnderflow);
        }
        let x = match parse_isize(self.stack[n - 1].as_str()) {
            Some(x) => x,
            None => {
                return Err(EvalError::NotANumber);
            },
        };
        if n < 2 {
            return Err(EvalError::StackUnderflow);
        }
        let y = match parse_isize(self.stack[n - 2].as_str()) {
            Some(y) => y,
            None => {
                return Err(EvalError::NotANumber);
            },
        };
        Ok((x, y))
    }

    /// Applies `op` to the top two entries, replacing them with the result.
    fn arith(&mut self, op: Op) -> (r: Result<(), EvalError>)
        ensures
            settles(r, old(self)@, final(self)@, binary_step(old(self)@, op)),
    {
        let (x, y) = self.retrieve_stack_values()?;
        let v: isize = match op {
            Op::Add => match y.checked_add(x) {
                Some(v) => v,
                None => {
                    return Err(EvalError::Overflow);
                },
            },
            Op::Sub => match y.checked_sub(x) {
                Some(v) => v,
                None => {
                    return Err(EvalError::Overflow);
                },
            },
            Op::Mul => match y.checked_mul(x) {
                Some(v) => v,
                None => {
                    return Err(EvalError::Overflow);
                },
            },
            Op::Div => {
                if x == 0 {
                    return Err(EvalError::DivisionByZero);
                }
                assert(y.checked_div(x) matches Some(q) ==> q == quotient(y as int, x as int));
                match y.checked_div(x) {
                    Some(v) => v,
                    None => {
                        return Err(EvalError::Overflow);
                    },
                }
            },
            Op::Pow => {
                if y < 0 {
                    return Err(EvalError::InvalidExponent);
                }
                match checked_power(x, y) {
                    Some(v) => v,
                    None => {
                        return Err(EvalError::Overflow);
                    },
                }
            },
        };
        assert(v as int == raw_result(op, x as int, y as int));
        let ghost before = self@.stack;
        self.stack.pop();
        self.stack.pop();
        self.stack.push(decimal(v));
        assert(self@.stack =~= before.subrange(0, before.len() - 2).push(decimal_of(v as int)));
        Ok(())
    }

    /// Pops `x`, then `y`, and pushes `y + x`.
    pub fn add(&mut self) -> (r: Result<(), EvalError>)
        ensures
            settles(r, old(self)@, final(self)@, binary_step(old(self)@, Op::Add)),
    {
        self.arith(Op::Add)
    }

    /// Pops `x`, then `y`, and pushes `y - x`.
    pub fn subtract(&mut self) -> (r: Result<(), EvalError>)
        ensures
            settles(r, old(self)@, final(self)@, binary_step(old(self)@, Op::Sub)),
    {
        self.arith(Op::Sub)
    }

    /// Pops `x`, then `y`, and pushes `y * x`.
    pub fn multiply(&mut self) -> (r: Result<(), EvalError>)
        ensures
            settles(r, old(self)@, final(self)@, binary_step(old(self)@, Op::Mul)),
    {
        self.arith(Op::Mul)
    }

    /// Pops `x`, then `y`, and pushes `y / x`, rounded toward zero.
    pub fn divide(&mut self) -> (r: Result<(), EvalError>)
        ensures
            settles(r, old(self)@, final(self)@, binary_step(old(self)@, Op::Div)),
    {
        self.arith(Op::Div)
    }

    /// Pops the base, then the power, and pushes the base raised to the power.
    pub fn exponent(&mut self) -> (r: Result<(), EvalError>)
        ensures
            settles(r, old(self)@, final(self)@, binary_step(old(self)@, Op::Pow)),
    {
        self.arith(Op::Pow)
    }

    /// Swaps the top two entries of the stack.
    pub fn exchange(&mut self) -> (r: Result<(), EvalError>)
        ensures
            settles(r, old(self)@, final(self)@, exchange_step(old(self)@)),
    {
        let n = self.stack.len();
        if n < 2 {
            return Err(EvalError::StackUnderflow);
        }
        let ghost before = self@.stack;
        let t = self.stack.pop().unwrap();
        let t1 = self.stack.pop().unwrap();
        self.stack.push(t);
        self.stack.push(t1);
        assert(self@.stack =~= before.subrange(0, n - 2).push(before[n - 1]).push(before[n - 2]));
        Ok(())
    }

    /// The position of the first entry named `name`, or the number of
    /// entries where there is none.
    fn find_var(&self, name: &String) -> (r: usize)
        ensures
            r <= self@.vars.len(),
            forall|m: int| 0 <= m < r ==> self@.vars[m].0 != name@,
            r < self@.vars.len() ==> self@.vars[r as int].0 == name@,
    {
        let mut j: usize = 0;
        while j < self.vars.len()
            invariant
                j <= self.vars@.len(),
                forall|m: int| 0 <= m < j ==> self@.vars[m].0 != name@,
            decreases self.vars@.len() - j,
        {
            if self.vars[j].0 == *name {
                return j;
            }
            j += 1;
        }
        j
    }

    /// Binds `name` to a copy of the top of the stack.
    fn store(&mut self, name: String) -> (r: Result<(), EvalError>)
        ensures
            settles(r, old(self)@, final(self)@, store_step(old(self)@, name@)),
    {
        let n = self.stack.len();
        if n == 0 {
            return Err(EvalError::StackUnderflow);
        }
        let value = self.stack[n - 1].clone();
        let j = self.find_var(&name);
        proof {
            lemma_first_match(self@.vars, name@, value@, j as int);
        }
        let ghost before = self@.vars;
        if j < self.vars.len() {
            self.vars.set(j, (name, value));
            assert(self@.vars =~= before.update(j as int, (name@, value@)));
        } else {
            self.vars.push((name, value));
            assert(self@.vars =~= before.push((name@, value@)));
        }
        Ok(())
    }

    /// Pushes the value bound to `name`; an empty name pushes the empty string.
    fn recall(&mut self, name: String) -> (r: Result<(), EvalError>)
        ensures
            settles(r, old(self)@, final(self)@, recall_step(old(self)@, name@)),
    {
        if name.as_str().unicode_len() == 0 {
            self.push(String::new());
            return Ok(());
        }
        let j = self.find_var(&name);
        proof {
            lemma_first_match(self@.vars, name@, seq![], j as int);
        }
        if j < self.vars.len() {
            let value = self.vars[j].1.clone();
            self.push(value);
            Ok(())
        } else {
            Err(EvalError::UndefinedVariable(name))
        }
    }

    /// The lines that show the stack, top first; none when the stack is empty.
    pub fn stack_dump(&self) -> (r: Vec<String>)
        ensures
            views(r@) == stack_lines(self@.stack),
    {
        let mut out: Vec<String> = Vec::new();
        let n = self.stack.len();
        if n == 0 {
            assert(views(out@) =~= seq![]);
            return out;
        }
        let ghost s = self@.stack;
        out.push(String::from_str("STACK:"));
        assert(views(out@) =~= seq!["STACK:"@] + Seq::new(0, |i: int| "\tStack = "@ + s[s.len() - 1 - i]));
        let mut k: usize = 0;
        while k < n
            invariant
                n == s.len(),
                s == self@.stack,
                k <= n,
                views(out@) == seq!["STACK:"@] + Seq::new(
                    k as nat,
                    |i: int| "\tStack = "@ + s[s.len() - 1 - i],
                ),
            decreases n - k,
        {
            let mut line = String::from_str("\tStack = ");
            line.append(self.stack[n - 1 - k].as_str());
            let ghost prev = views(out@);
            out.push(line);
            assert(views(out@) =~= prev.push(line@));
            assert(seq!["STACK:"@] + Seq::new(
                (k + 1) as nat,
                |i: int| "\tStack = "@ + s[s.len() - 1 - i],
            ) =~= prev.push(line@));
            k += 1;
        }
        out.push(String::new());
        assert(views(out@) =~= stack_lines(s));
        out
    }

    /// The lines that show the named values in the order they were first
    /// stored; none when the stack is empty.
    pub fn var_dump(&self) -> (r: Vec<String>)
        ensures
            views(r@) == var_lines(self@),
    {
        let mut out: Vec<String> = Vec::new();
        if self.stack.len() == 0 {
            assert(views(out@) =~= seq![]);
            return out;
        }
        let ghost v = self@.vars;
        out.push(String::from_str("TEMP VARS"));
        assert(views(out@) =~= seq!["TEMP VARS"@] + Seq::new(0, |i: int| "\tKey = "@ + v[i].0 + " = "@ + v[i].1));
        let mut k: usize = 0;
        while k < self.vars.len()
            invariant
                v == self@.vars,
                k <= v.len(),
                views(out@) == seq!["TEMP VARS"@] + Seq::new(
                    k as nat,
                    |i: int| "\tKey = "@ + v[i].0 + " = "@ + v[i].1,
                ),
            decreases v.len() - k,
        {
            let mut line = String::from_str("\tKey = ");
            line.append(self.vars[k].0.as_str());
            line.append(" = ");
            line.append(self.vars[k].1.as_str());
            let ghost prev = views(out@);
            out.push(line);
            assert(views(out@) =~= prev.push(line@));
            assert(seq!["TEMP VARS"@] + Seq::new(
                (k + 1) as nat,
                |i: int| "\tKey = "@ + v[i].0 + " = "@ + v[i].1,
            ) =~= prev.push(line@));
            k += 1;
        }
        out.push(String::new());
        assert(views(out@) =~= var_lines(self@));
        out
    }

    /// Adds `lines` to the diagnostic output.
    fn emit(&mut self, lines: Vec<String>)
        ensures
            final(self)@ == (CalcState {
                stack: old(self)@.stack,
                vars: old(self)@.vars,
                output: old(self)@.output + views(lines@),
            }),
    {
        let ghost added = views(lines@);
        let mut lines = lines;
        self.output.append(&mut lines);
        assert(views(self.output@) =~= views(old(self).output@) + added);
    }

    /// Hands over the diagnostic lines written so far and forgets them.
    pub fn take_output(&mut self) -> (r: Vec<String>)
        ensures
            views(r@) == old(self)@.output,
            final(self)@ == (CalcState {
                stack: old(self)@.stack,
                vars: old(self)@.vars,
                output: seq![],
            }),
    {
        let mut out: Vec<String> = Vec::new();
        std::mem::swap(&mut out, &mut self.output);
        assert(views(self.output@) =~= seq![]);
        out
    }

    /// Runs one token; `last` tells whether it ends the expression.
    fn apply_token(&mut self, tok: &String, last: bool) -> (r: Result<(), EvalError>)
        ensures
            settles(r, old(self)@, final(self)@, apply(old(self)@, tok@, last)),
    {
        if let Some(v) = parse_isize(tok.as_str()) {
            if last {
                return Err(EvalError::TrailingOperand);
            }
            self.push(decimal(v));
            return Ok(());
        }
        let t = tok.as_str();
        let n = t.unicode_len();
        if n == 1 {
            let c = t.get_char(0);
            if c == 'x' || c == 'X' {
                return self.exchange();
            } else if c == '?' {
                let lines = self.stack_dump();
                self.emit(lines);
                return Ok(());
            } else if c == '&' {
                let lines = self.var_dump();
                self.emit(lines);
                return Ok(());
            } else if c == '+' {
                return self.add();
            } else if c == '-' {
                return self.subtract();
            } else if c == '*' {
                return self.multiply();
            } else if c == '/' {
                return self.divide();
            } else if c == '^' {
                return self.exponent();
            }
        }
        if n > 0 {
            let c = t.get_char(0);
            if c == '!' || c == '@' {
                let name = String::from_str(t.substring_char(1, n));
                assert(name@ =~= tok@.drop_first());
                if c == '!' {
                    return self.store(name);
                } else {
                    return self.recall(name);
                }
            }
        }
        Err(EvalError::UnknownToken(tok.clone()))
    }

    /// Runs `tokens` in order against the current state. Stops at the first
    /// token that fails; what the tokens before it did stays done.
    pub fn evaluate_tokens(&mut self, tokens: &Vec<String>) -> (r: Result<(), EvalError>)
        ensures
            final(self)@ == run(old(self)@, views(tokens@), 0, tokens@.len() as int).0,
            reports(r, run(old(self)@, views(tokens@), 0, tokens@.len() as int).1),
    {
        let ghost toks = views(tokens@);
        let n = tokens.len();
        let mut i: usize = 0;
        while i < n
            invariant
                n == tokens@.len(),
                toks == views(tokens@),
                toks.len() == n,
                i <= n,
                run(self@, toks, i as int, n as int) == run(old(self)@, toks, 0, n as int),
            decreases n - i,
        {
            assert(toks[i as int] == tokens@[i as int]@);
            let ghost pre = self@;
            match self.apply_token(&tokens[i], i + 1 == n) {
                Ok(()) => {},
                Err(e) => {
                    assert(run(pre, toks, i as int, n as int) == (pre, Err::<(), Fault>(e@)));
                    return Err(e);
                },
            }
            i += 1;
        }
        Ok(())
    }

    /// Evaluates `expression`: its tokens, separated by white space, run in
    /// order against the current state. Stops at the first token that fails;
    /// what the tokens before it did stays done.
    pub fn parse(&mut self, expression: &str) -> (r: Result<(), EvalError>)
        ensures
            final(self)@ == evaluation(old(self)@, expression@).0,
            reports(r, evaluation(old(self)@, expression@).1),
    {
        let tokens = split_tokens(expression);
        self.evaluate_tokens(&tokens)
    }
}

} // verus!
