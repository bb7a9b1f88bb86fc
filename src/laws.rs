//! Laws of the calculator, stated over its model and proved.
use vstd::prelude::*;
use vstd::arithmetic::power::pow;
use crate::model::{
    Op, Fault, CalcState, with_stack, lookup, assign, quotient, raw_result, combine, binary_step,
    op_of, apply, run, evaluation, recall_step,
};
use crate::numeral::{int_of, decimal_of, in_isize, is_digit, lemma_int_of_decimal};
use crate::tokens::words;

verus! {

/// An arithmetic expression over integers.
pub enum Expr {
    Num(int),
    Node(Op, Box<Expr>, Box<Expr>),
}

/// The one-character token of an operator.
pub open spec fn op_token(op: Op) -> Seq<char> {
    match op {
        Op::Add => seq!['+'],
        Op::Sub => seq!['-'],
        Op::Mul => seq!['*'],
        Op::Div => seq!['/'],
        Op::Pow => seq!['^'],
    }
}

/// The tokens of `e` in postfix order: both operands, then the operator.
pub open spec fn rpn(e: Expr) -> Seq<Seq<char>>
    decreases e,
{
    match e {
        Expr::Num(n) => seq![decimal_of(n)],
        Expr::Node(op, l, r) => rpn(*l) + rpn(*r) + seq![op_token(op)],
    }
}

/// The value of `e` read as an infix expression `l op r`: `l + r`, `l - r`,
/// `l * r`, `l / r` rounded toward zero, and for `^` the right operand raised
/// to the power of the left one (the base is the operand taken first from the
/// stack). `None` where a division by zero, a negative exponent or a value
/// outside `isize` occurs.
pub open spec fn infix_value(e: Expr) -> Option<int>
    decreases e,
{
    match e {
        Expr::Num(n) => if in_isize(n) {
            Some(n)
        } else {
            None
        },
        Expr::Node(op, l, r) => match (infix_value(*l), infix_value(*r)) {
            (Some(a), Some(b)) => {
                let v = match op {
                    Op::Add => Some(a + b),
                    Op::Sub => Some(a - b),
                    Op::Mul => Some(a * b),
                    Op::Div => if b == 0 {
                        None
                    } else {
                        Some(quotient(a, b))
                    },
                    Op::Pow => if a < 0 {
                        None
                    } else {
                        Some(pow(b, a as nat))
                    },
                };
                match v {
                    Some(x) => if in_isize(x) {
                        Some(x)
                    } else {
                        None
                    },
                    None => None,
                }
            },
            _ => None,
        },
    }
}

proof fn lemma_rpn_len(e: Expr)
    ensures
        rpn(e).len() >= 1,
    decreases e,
{
    match e {
        Expr::Num(n) => {},
        Expr::Node(op, l, r) => {
            lemma_rpn_len(*l);
            lemma_rpn_len(*r);
        },
    }
}

proof fn lemma_run_split(st: CalcState, toks: Seq<Seq<char>>, a: int, b: int, c: int)
    requires
        a <= b <= c,
        run(st, toks, a, b).1 is Ok,
    ensures
        run(st, toks, a, c) == run(run(st, toks, a, b).0, toks, b, c),
    decreases b - a,
{
    if a < b {
        match apply(st, toks[a], a == toks.len() - 1) {
            Ok(next) => lemma_run_split(next, toks, a + 1, b, c),
            Err(f) => {},
        }
    }
}

proof fn lemma_run_tree(st: CalcState, e: Expr, toks: Seq<Seq<char>>, a: int)
    requires
        0 <= a,
        a + rpn(e).len() <= toks.len(),
        toks.subrange(a, a + rpn(e).len()) == rpn(e),
        infix_value(e) is Some,
        e is Node || a + 1 < toks.len(),
    ensures
        run(st, toks, a, a + rpn(e).len()) == (
            with_stack(st, st.stack.push(decimal_of(infix_value(e)->0))),
            Ok::<(), Fault>(()),
        ),
    decreases e,
{
    match e {
        Expr::Num(n) => {
            lemma_int_of_decimal(n);
            assert(toks[a] == toks.subrange(a, a + 1)[0]);
            let next = with_stack(st, st.stack.push(decimal_of(n)));
            assert(apply(st, toks[a], a == toks.len() - 1) == Ok::<CalcState, Fault>(next));
            assert(run(next, toks, a + 1, a + 1) == (next, Ok::<(), Fault>(())));
            assert(run(st, toks, a, a + 1) == (next, Ok::<(), Fault>(())));
            assert(rpn(e).len() == 1);
            assert(infix_value(e)->0 == n);
        },
        Expr::Node(op, l, r) => {
            lemma_rpn_len(*l);
            lemma_rpn_len(*r);
            let ll = rpn(*l).len() as int;
            let lr = rpn(*r).len() as int;
            let b = a + ll;
            let c = b + lr;
            let va = infix_value(*l)->0;
            let vb = infix_value(*r)->0;
            assert(toks.subrange(a, b) =~= rpn(*l)) by {
                assert forall|i: int| 0 <= i < ll implies toks.subrange(a, b)[i] == rpn(*l)[i] by {
                    assert(toks.subrange(a, a + rpn(e).len())[i] == rpn(e)[i]);
                }
            }
            assert(toks.subrange(b, c) =~= rpn(*r)) by {
                assert forall|i: int| 0 <= i < lr implies toks.subrange(b, c)[i] == rpn(*r)[i] by {
                    assert(toks.subrange(a, a + rpn(e).len())[ll + i] == rpn(e)[ll + i]);
                }
            }
            assert(toks[c] == op_token(op)) by {
                assert(toks.subrange(a, a + rpn(e).len())[ll + lr] == rpn(e)[ll + lr]);
            }
            lemma_run_tree(st, *l, toks, a);
            let st1 = with_stack(st, st.stack.push(decimal_of(va)));
            lemma_run_tree(st1, *r, toks, b);
            let st2 = with_stack(st1, st1.stack.push(decimal_of(vb)));
            lemma_run_split(st, toks, a, b, c + 1);
            lemma_run_split(st1, toks, b, c, c + 1);
            lemma_int_of_decimal(va);
            lemma_int_of_decimal(vb);
            let tok = op_token(op);
            assert(int_of(tok) is None) by {
                assert(!is_digit(tok[0]));
            }
            assert(op_of(tok[0]) == Some(op));
            let n = st2.stack.len();
            assert(st2.stack[n - 1] == decimal_of(vb));
            assert(st2.stack[n - 2] == decimal_of(va));
            assert(raw_result(op, vb, va) == infix_value(e)->0);
            assert(combine(op, vb, va) == Ok::<int, Fault>(infix_value(e)->0));
            assert(st2.stack.subrange(0, n - 2) =~= st.stack);
            let done = with_stack(st, st.stack.push(decimal_of(infix_value(e)->0)));
            assert(apply(st2, tok, c == toks.len() - 1) == Ok::<CalcState, Fault>(done));
            assert(run(done, toks, c + 1, c + 1) == (done, Ok::<(), Fault>(())));
            assert(run(st2, toks, c, c + 1) == (done, Ok::<(), Fault>(())));
            assert(run(st1, toks, b, c + 1) == (done, Ok::<(), Fault>(())));
            assert(run(st, toks, a, c + 1) == (done, Ok::<(), Fault>(())));
            assert(rpn(e).len() == c + 1 - a);
        },
    }
}

/// An expression that ends on an operator, written in postfix form, leaves
/// its infix value on top of the stack, with nothing else changed, whenever
/// that value and every intermediate one are defined.
pub proof fn lemma_postfix_matches_infix(st: CalcState, e: Expr, expression: Seq<char>)
    requires
        e is Node,
        words(expression) == rpn(e),
        infix_value(e) is Some,
    ensures
        evaluation(st, expression) == (
            with_stack(st, st.stack.push(decimal_of(infix_value(e)->0))),
            Ok::<(), Fault>(()),
        ),
{
    let toks = words(expression);
    assert(toks.subrange(0, rpn(e).len() as int) =~= rpn(e));
    lemma_run_tree(st, e, toks, 0);
}

/// After a push, the top of the stack is the value pushed and the stack has
/// grown by one.
pub proof fn lemma_push_then_peek(st: CalcState, v: Seq<char>)
    ensures
        with_stack(st, st.stack.push(v)).stack.last() == v,
        with_stack(st, st.stack.push(v)).stack.len() == st.stack.len() + 1,
{
}

/// Popping right after a push gives back the value pushed and the stack as
/// it was before.
pub proof fn lemma_push_then_pop(st: CalcState, v: Seq<char>)
    ensures
        with_stack(st, st.stack.push(v)).stack.last() == v,
        with_stack(st, st.stack.push(v)).stack.drop_last() == st.stack,
{
    assert(st.stack.push(v).drop_last() =~= st.stack);
}

proof fn lemma_lookup_assign(vars: Seq<(Seq<char>, Seq<char>)>, name: Seq<char>, value: Seq<char>)
    ensures
        lookup(assign(vars, name, value), name) == Some(value),
    decreases vars.len(),
{
    if vars.len() > 0 && vars[0].0 != name {
        lemma_lookup_assign(vars.drop_first(), name, value);
        assert((seq![vars[0]] + assign(vars.drop_first(), name, value)).drop_first()
            =~= assign(vars.drop_first(), name, value));
    }
}

/// `!name` keeps the stack as it is, and a following `@name` pushes the value
/// that was on top when `!name` ran.
pub proof fn lemma_store_then_recall(st: CalcState, name: Seq<char>, last: bool)
    requires
        st.stack.len() > 0,
        name.len() > 0,
    ensures
        apply(st, seq!['!'] + name, false) is Ok,
        apply(st, seq!['!'] + name, false)->Ok_0.stack == st.stack,
        apply(apply(st, seq!['!'] + name, false)->Ok_0, seq!['@'] + name, last) is Ok,
        apply(apply(st, seq!['!'] + name, false)->Ok_0, seq!['@'] + name, last)->Ok_0.stack
            == st.stack.push(st.stack.last()),
{
    let store = seq!['!'] + name;
    let fetch = seq!['@'] + name;
    assert(int_of(store) is None) by {
        assert(!is_digit(store[0]));
    }
    assert(int_of(fetch) is None) by {
        assert(!is_digit(fetch[0]));
    }
    assert(store.drop_first() =~= name);
    assert(fetch.drop_first() =~= name);
    lemma_lookup_assign(st.vars, name, st.stack.last());
}

/// After a clear, nothing is on the stack and no name holds a value: taking
/// from the stack fails, and so does recalling any name.
pub proof fn lemma_clear_forgets(output: Seq<Seq<char>>, name: Seq<char>, last: bool)
    requires
        name.len() > 0,
    ensures
        ({
            let st = CalcState { stack: seq![], vars: seq![], output };
            &&& binary_step(st, Op::Add) == Err::<CalcState, Fault>(Fault::StackUnderflow)
            &&& recall_step(st, name) == Err::<CalcState, Fault>(Fault::UndefinedVariable(name))
            &&& apply(st, seq!['@'] + name, last) == Err::<CalcState, Fault>(
                Fault::UndefinedVariable(name),
            )
        }),
{
    let fetch = seq!['@'] + name;
    assert(int_of(fetch) is None) by {
        assert(!is_digit(fetch[0]));
    }
    assert(fetch.drop_first() =~= name);
}

/// Dividing by a zero on top of the stack fails with `DivisionByZero`.
pub proof fn lemma_divide_by_zero(st: CalcState)
    requires
        st.stack.len() >= 2,
        int_of(st.stack.last()) == Some(0int),
        int_of(st.stack[st.stack.len() - 2]) is Some,
    ensures
        binary_step(st, Op::Div) == Err::<CalcState, Fault>(Fault::DivisionByZero),
{
}

} // verus!
