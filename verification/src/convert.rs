//! Infix-to-postfix conversion by the shunting-yard algorithm.
//!
//! The scan buffers numeric literals (a `-` opens a literal whenever an
//! operand is expected, which yields unary-minus-prefixed literals), reorders
//! the four binary operators through a precedence stack, and silently ignores
//! every other character — a deliberately loose validation policy:
//! unrecognized input is dropped, not rejected.

use vstd::prelude::*;
use vstd::string::StrSliceExecFns;
use crate::CalcError;
use crate::value::is_operator;
use crate::value::is_operator_char;
use crate::text::chars_to_string;

verus! {

/// Whether a character is an ASCII decimal digit.
pub open spec fn is_digit(c: char) -> bool {
    48 <= c as u32 && c as u32 <= 57
}

/// Whether a character is an ASCII decimal digit.
pub fn is_digit_char(c: char) -> (r: bool)
    ensures
        r == is_digit(c),
{
    let u: u32 = c as u32;
    48 <= u && u <= 57
}

/// Operator precedence: multiplicative operators bind tighter than the
/// additive ones; every other character has no precedence.
pub open spec fn precedence(c: char) -> int {
    if c == '+' || c == '-' {
        1int
    } else if c == '*' || c == '/' {
        2int
    } else {
        -1int
    }
}

/// Operator precedence, executable form.
pub fn precedence_of(c: char) -> (r: i32)
    ensures
        r as int == precedence(c),
{
    if c == '+' || c == '-' {
        1
    } else if c == '*' || c == '/' {
        2
    } else {
        -1
    }
}

/// Whether the scan buffers this character into the current literal: digits
/// and the decimal point always, a minus sign only while an operand is
/// expected.
pub open spec fn buffers_char(c: char, expect: bool) -> bool {
    is_digit(c) || c == '.' || (c == '-' && expect)
}

/// Append the pending literal, if any, to the token sequence.
pub open spec fn flush_buf(buf: Seq<char>, out: Seq<Seq<char>>) -> Seq<Seq<char>> {
    if buf.len() > 0 {
        out.push(buf)
    } else {
        out
    }
}

/// Pop every stacked operator of precedence at least `p` to the token
/// sequence, top first.
pub open spec fn pop_ge(stack: Seq<char>, p: int, out: Seq<Seq<char>>) -> (Seq<char>, Seq<
    Seq<char>,
>)
    decreases stack.len(),
{
    if stack.len() == 0 {
        (stack, out)
    } else if precedence(stack.last()) >= p {
        pop_ge(stack.drop_last(), p, out.push(seq![stack.last()]))
    } else {
        (stack, out)
    }
}

/// Pop every remaining operator to the token sequence, top first.
pub open spec fn drain_ops(stack: Seq<char>, out: Seq<Seq<char>>) -> Seq<Seq<char>>
    decreases stack.len(),
{
    if stack.len() == 0 {
        out
    } else {
        drain_ops(stack.drop_last(), out.push(seq![stack.last()]))
    }
}

/// One full left-to-right scan of the shunting-yard algorithm, from position
/// `i` with the given literal buffer, operator stack, emitted tokens and
/// operand-expectation flag; yields the complete postfix token sequence.
pub open spec fn sy_scan(
    s: Seq<char>,
    i: int,
    buf: Seq<char>,
    stack: Seq<char>,
    out: Seq<Seq<char>>,
    expect: bool,
) -> Seq<Seq<char>>
    decreases s.len() - i,
{
    if i < 0 || i >= s.len() {
        drain_ops(stack, flush_buf(buf, out))
    } else {
        let c = s[i];
        if buffers_char(c, expect) {
            sy_scan(s, i + 1, buf.push(c), stack, out, false)
        } else {
            let out1 = flush_buf(buf, out);
            if is_operator(c) {
                let popped = pop_ge(stack, precedence(c), out1);
                sy_scan(s, i + 1, Seq::empty(), popped.0.push(c), popped.1, true)
            } else {
                sy_scan(s, i + 1, Seq::empty(), stack, out1, expect)
            }
        }
    }
}

/// The postfix token sequence of an infix expression.
pub open spec fn convert_tokens(s: Seq<char>) -> Seq<Seq<char>> {
    sy_scan(s, 0, Seq::empty(), Seq::empty(), Seq::empty(), true)
}

/// Tokens joined by single spaces.
pub open spec fn join_sp(toks: Seq<Seq<char>>) -> Seq<char>
    decreases toks.len(),
{
    if toks.len() == 0 {
        Seq::empty()
    } else if toks.len() == 1 {
        toks[0]
    } else {
        toks[0] + seq![' '] + join_sp(toks.drop_first())
    }
}

/// The converter's full result: the postfix tokens of the input, joined by
/// single spaces.
pub open spec fn spec_convert(s: Seq<char>) -> Seq<char> {
    join_sp(convert_tokens(s))
}

/// Joining distributes over appending one more token: a space and the token
/// follow the join of the rest (no space when it is the first token).
pub proof fn lemma_join_push(toks: Seq<Seq<char>>, t: Seq<char>)
    ensures
        join_sp(toks.push(t)) == if toks.len() == 0 {
            t
        } else {
            join_sp(toks) + seq![' '] + t
        },
    decreases toks.len(),
{
    if toks.len() == 0 {
        assert(toks.push(t)[0] == t);
    } else {
        assert(toks.push(t).drop_first() =~= toks.drop_first().push(t));
        lemma_join_push(toks.drop_first(), t);
        if toks.len() == 1 {
            assert(toks.push(t)[0] == toks[0]);
        } else {
            assert(toks.push(t)[0] == toks[0]);
            assert((toks[0] + seq![' ']) + (join_sp(toks.drop_first()) + seq![' '] + t) =~= ((
            toks[0] + seq![' ']) + join_sp(toks.drop_first())) + seq![' '] + t);
        }
    }
}

/// Append one token to the space-joined output, separating it from an
/// earlier token by a single space.
fn emit_token(out: &mut Vec<char>, tok: &Vec<char>)
    ensures
        final(out)@ == if old(out)@.len() == 0 {
            tok@
        } else {
            old(out)@ + seq![' '] + tok@
        },
{
    if out.len() > 0 {
        out.push(' ');
    }
    let ghost base: Seq<char> = out@;
    proof {
        assert(out@ =~= base + tok@.subrange(0, 0));
    }
    let mut j: usize = 0;
    while j < tok.len()
        invariant
            j <= tok@.len(),
            out@ == base + tok@.subrange(0, j as int),
        decreases tok@.len() - j,
    {
        out.push(tok[j]);
        j += 1;
        proof {
            assert(base + tok@.subrange(0, j - 1) + seq![tok@[j - 1]] =~= base + tok@.subrange(
                0,
                j as int,
            ));
        }
    }
    proof {
        assert(out@ =~= base + tok@);
    }
}

/// Convert an infix expression to a space-separated postfix token string.
///
/// Every input converts: digits, the decimal point and a unary minus grow
/// the current literal, the four operator symbols are reordered by
/// precedence (equal precedence pops first, so the result evaluates
/// left-to-right), and all other characters are ignored.  The `Result` is
/// kept for the callers' sake; this stage itself never reports an error.
pub fn shunting_yard(expression: &str) -> (r: Result<String, CalcError>)
    ensures
        r is Ok,
        r matches Ok(out) ==> out@ == spec_convert(expression@),
{
    let ghost s: Seq<char> = expression@;
    let n: usize = expression.unicode_len();
    let mut out: Vec<char> = Vec::new();
    let ghost mut toks: Seq<Seq<char>> = Seq::<Seq<char>>::empty();
    let mut stack: Vec<char> = Vec::new();
    let mut buf: Vec<char> = Vec::new();
    let mut expect: bool = true;
    let mut i: usize = 0;
    while i < n
        invariant
            n == s.len(),
            expression@ == s,
            i <= n,
            out@ == join_sp(toks),
            (toks.len() == 0) <==> (out@.len() == 0),
            forall|k: int| 0 <= k < toks.len() ==> (#[trigger] toks[k]).len() > 0,
            sy_scan(s, i as int, buf@, stack@, toks, expect) == convert_tokens(s),
        decreases n - i,
    {
        let ghost buf_e: Seq<char> = buf@;
        let ghost stack_e: Seq<char> = stack@;
        let ghost toks_e: Seq<Seq<char>> = toks;
        let ghost expect_e: bool = expect;
        let c = expression.get_char(i);
        if is_digit_char(c) || c == '.' || (c == '-' && expect) {
            buf.push(c);
            expect = false;
            proof {
                assert(sy_scan(s, i as int, buf_e, stack_e, toks_e, expect_e) == sy_scan(
                    s,
                    i + 1,
                    buf_e.push(c),
                    stack_e,
                    toks_e,
                    false,
                ));
            }
        } else {
            if buf.len() > 0 {
                emit_token(&mut out, &buf);
                proof {
                    lemma_join_push(toks, buf@);
                    toks = toks.push(buf@);
                }
                buf.clear();
            }
            proof {
                assert(toks == flush_buf(buf_e, toks_e));
            }
            if is_operator_char(c) {
                let p: i32 = precedence_of(c);
                let ghost stack0: Seq<char> = stack@;
                let ghost toks0: Seq<Seq<char>> = toks;
                while stack.len() > 0 && precedence_of(stack[stack.len() - 1]) >= p
                    invariant
                        p as int == precedence(c),
                        out@ == join_sp(toks),
                        (toks.len() == 0) <==> (out@.len() == 0),
                        forall|k: int| 0 <= k < toks.len() ==> (#[trigger] toks[k]).len() > 0,
                        pop_ge(stack@, p as int, toks) == pop_ge(stack0, p as int, toks0),
                    decreases stack@.len(),
                {
                    let ghost stack_b: Seq<char> = stack@;
                    let ghost toks_b: Seq<Seq<char>> = toks;
                    let top = stack.pop().unwrap();
                    let mut t: Vec<char> = Vec::new();
                    t.push(top);
                    emit_token(&mut out, &t);
                    proof {
                        assert(t@ =~= seq![top]);
                        lemma_join_push(toks, seq![top]);
                        toks = toks.push(seq![top]);
                        assert(stack@ =~= stack_b.drop_last());
                        assert(top == stack_b.last());
                        assert(pop_ge(stack_b, p as int, toks_b) == pop_ge(
                            stack_b.drop_last(),
                            p as int,
                            toks_b.push(seq![top]),
                        ));
                    }
                }
                proof {
                    assert(pop_ge(stack@, p as int, toks) == (stack@, toks));
                }
                stack.push(c);
                expect = true;
                proof {
                    assert(sy_scan(s, i as int, buf_e, stack_e, toks_e, expect_e) == sy_scan(
                        s,
                        i + 1,
                        Seq::empty(),
                        stack@,
                        toks,
                        true,
                    ));
                    assert(buf@ =~= Seq::<char>::empty());
                }
            } else {
                proof {
                    assert(sy_scan(s, i as int, buf_e, stack_e, toks_e, expect_e) == sy_scan(
                        s,
                        i + 1,
                        Seq::empty(),
                        stack_e,
                        toks,
                        expect_e,
                    ));
                    assert(buf@ =~= Seq::<char>::empty());
                }
            }
        }
        i += 1;
    }
    let ghost buf_f: Seq<char> = buf@;
    let ghost toks_f: Seq<Seq<char>> = toks;
    proof {
        assert(sy_scan(s, n as int, buf_f, stack@, toks_f, expect) == drain_ops(
            stack@,
            flush_buf(buf_f, toks_f),
        ));
    }
    if buf.len() > 0 {
        emit_token(&mut out, &buf);
        proof {
            lemma_join_push(toks, buf@);
            toks = toks.push(buf@);
        }
    }
    proof {
        assert(toks == flush_buf(buf_f, toks_f));
    }
    let ghost stack1: Seq<char> = stack@;
    let ghost toks1: Seq<Seq<char>> = toks;
    while stack.len() > 0
        invariant
            out@ == join_sp(toks),
            (toks.len() == 0) <==> (out@.len() == 0),
            forall|k: int| 0 <= k < toks.len() ==> (#[trigger] toks[k]).len() > 0,
            drain_ops(stack@, toks) == drain_ops(stack1, toks1),
        decreases stack@.len(),
    {
        let ghost stack_b: Seq<char> = stack@;
        let ghost toks_b: Seq<Seq<char>> = toks;
        let top = stack.pop().unwrap();
        let mut t: Vec<char> = Vec::new();
        t.push(top);
        emit_token(&mut out, &t);
        proof {
            assert(t@ =~= seq![top]);
            lemma_join_push(toks, seq![top]);
            toks = toks.push(seq![top]);
            assert(stack@ =~= stack_b.drop_last());
            assert(drain_ops(stack_b, toks_b) == drain_ops(stack_b.drop_last(), toks_b.push(
                seq![top],
            )));
        }
    }
    proof {
        assert(drain_ops(stack@, toks) == toks);
        assert(toks == convert_tokens(s));
    }
    Ok(chars_to_string(&out))
}

} // verus!
