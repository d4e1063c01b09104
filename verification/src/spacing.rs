//! Canonical spacing around operators and punctuation.
//!
//! The transform is specified as a one-character-per-step scanner
//! (`spacer_step`): multi-character operators are collected greedily in
//! `op`, and whitespace directly after an opening delimiter is dropped
//! while `skip_ws` is set. `add_operator_spaces` is proved to emit exactly
//! the text the scanner describes.

use vstd::prelude::*;
use crate::text::is_space;
use crate::text::is_space_char;

verus! {

/// Characters that can begin an operator token.
pub open spec fn is_op_start(c: char) -> bool {
    c == '=' || c == '+' || c == '-' || c == '*' || c == '/' || c == '%' || c == '>' || c == '<'
        || c == '!' || c == '&' || c == '|' || c == '^' || c == '~'
}

/// Scanner state of the operator-spacing pass.
#[verifier::ext_equal]
pub struct SpacerSt {
    /// Output emitted so far.
    pub out: Seq<char>,
    /// Operator token currently being collected (empty when none is).
    pub op: Seq<char>,
    /// True directly after an opening delimiter, while whitespace is dropped.
    pub skip_ws: bool,
}

/// Whether a collected operator token absorbs the next character:
/// `=` always extends, and `&`/`|` double up.
pub open spec fn op_extends(op: Seq<char>, c: char) -> bool {
    c == '=' || (op.len() == 1 && op[0] == '&' && c == '&') || (op.len() == 1 && op[0] == '|' && c
        == '|')
}

/// Emit a collected operator token: one space before it unless the output
/// ends in a space or an opening delimiter, and one space after it unless
/// the next character (`peek`) is whitespace, a closer, a comma or a
/// semicolon.
pub open spec fn emit_op(out: Seq<char>, op: Seq<char>, peek: Option<char>) -> Seq<char> {
    let out1 = if out.len() > 0 && out.last() != ' ' && out.last() != '(' && out.last() != '['
        && out.last() != '{' {
        out.push(' ')
    } else {
        out
    };
    let out2 = out1 + op;
    match peek {
        Some(p) => if !is_space_char(p) && p != ')' && p != ']' && p != '}' && p != ',' && p != ';' {
            out2.push(' ')
        } else {
            out2
        },
        None => out2,
    }
}

/// Handling of one character outside any operator token.
pub open spec fn norm_step(out: Seq<char>, c: char, peek: Option<char>) -> SpacerSt {
    if is_op_start(c) {
        SpacerSt { out, op: seq![c], skip_ws: false }
    } else if c == ',' || c == ';' {
        let out1 = out.push(c);
        let out2 = match peek {
            Some(p) => if !is_space_char(p) && p != ')' && p != ']' && p != '}' && p != '\n' {
                out1.push(' ')
            } else {
                out1
            },
            None => out1,
        };
        SpacerSt { out: out2, op: Seq::empty(), skip_ws: false }
    } else if c == '(' || c == '[' || c == '{' {
        let out1 = if out.len() > 0 && out.last() != ' ' && out.last() != '(' && out.last() != '['
            && out.last() != '{' && out.last() != '=' && out.last() != '+' && out.last() != '-'
            && out.last() != '*' && out.last() != '/' {
            out.push(' ')
        } else {
            out
        };
        SpacerSt { out: out1.push(c), op: Seq::empty(), skip_ws: true }
    } else if c == ')' || c == ']' || c == '}' {
        let out1 = if out.len() > 0 && out.last() == ' ' {
            out.drop_last()
        } else {
            out
        };
        let out2 = out1.push(c);
        let out3 = match peek {
            Some(p) => if !is_space_char(p) && p != ')' && p != ']' && p != '}' && p != ',' && p
                != ';' && p != '+' && p != '-' && p != '*' && p != '/' {
                out2.push(' ')
            } else {
                out2
            },
            None => out2,
        };
        SpacerSt { out: out3, op: Seq::empty(), skip_ws: false }
    } else {
        SpacerSt { out: out.push(c), op: Seq::empty(), skip_ws: false }
    }
}

/// One step of the scanner on character `c`, with `peek` the character that
/// follows it in the input, if any.
pub open spec fn spacer_step(st: SpacerSt, c: char, peek: Option<char>) -> SpacerSt {
    if st.skip_ws && is_space_char(c) {
        st
    } else if st.op.len() > 0 {
        if op_extends(st.op, c) {
            SpacerSt { out: st.out, op: st.op.push(c), skip_ws: false }
        } else {
            norm_step(emit_op(st.out, st.op, Some(c)), c, peek)
        }
    } else {
        norm_step(st.out, c, peek)
    }
}

/// The character after position `i - 1`, if any.
pub open spec fn peek_at(s: Seq<char>, i: int) -> Option<char> {
    if 0 <= i < s.len() {
        Some(s[i])
    } else {
        None
    }
}

/// Scanner state after consuming the first `i` characters of `s`.
pub open spec fn spacer_run(s: Seq<char>, i: int) -> SpacerSt
    decreases i,
{
    if i <= 0 {
        SpacerSt { out: Seq::empty(), op: Seq::empty(), skip_ws: false }
    } else {
        spacer_step(spacer_run(s, i - 1), s[i - 1], peek_at(s, i))
    }
}

/// Flush a pending operator token at the end of the input.
pub open spec fn spacer_finish(st: SpacerSt) -> Seq<char> {
    if st.op.len() > 0 {
        emit_op(st.out, st.op, None)
    } else {
        st.out
    }
}

/// The full operator-spacing transform of `s`.
pub open spec fn spacer_spec(s: Seq<char>) -> Seq<char> {
    spacer_finish(spacer_run(s, s.len() as int))
}

/// Emit the collected operator `op` into `out` as `emit_op` describes.
fn emit_op_exec(out: &mut Vec<char>, op: &Vec<char>, peek: Option<char>)
    ensures
        final(out)@ == emit_op(old(out)@, op@, peek),
{
    if out.len() > 0 {
        let l = out[out.len() - 1];
        if l != ' ' && l != '(' && l != '[' && l != '{' {
            out.push(' ');
        }
    }
    crate::text::push_all(out, op);
    match peek {
        Some(p) => {
            if !is_space(p) && p != ')' && p != ']' && p != '}' && p != ',' && p != ';' {
                out.push(' ');
            }
        },
        None => {},
    }
}

/// Handle one character outside any operator token, as `norm_step` describes.
fn norm_step_exec(out: &mut Vec<char>, op: &mut Vec<char>, skip_ws: &mut bool, c: char, peek: Option<
    char,
>)
    requires
        old(op)@.len() == 0,
        *old(skip_ws) == false,
    ensures
        ({
            let st = norm_step(old(out)@, c, peek);
            final(out)@ == st.out && final(op)@ == st.op && *final(skip_ws) == st.skip_ws
        }),
{
    if c == '=' || c == '+' || c == '-' || c == '*' || c == '/' || c == '%' || c == '>' || c == '<'
        || c == '!' || c == '&' || c == '|' || c == '^' || c == '~' {
        op.push(c);
        proof {
            assert(op@ =~= seq![c]);
        }
    } else if c == ',' || c == ';' {
        out.push(c);
        match peek {
            Some(p) => {
                if !is_space(p) && p != ')' && p != ']' && p != '}' && p != '\n' {
                    out.push(' ');
                }
            },
            None => {},
        }
    } else if c == '(' || c == '[' || c == '{' {
        if out.len() > 0 {
            let l = out[out.len() - 1];
            if l != ' ' && l != '(' && l != '[' && l != '{' && l != '=' && l != '+' && l != '-' && l
                != '*' && l != '/' {
                out.push(' ');
            }
        }
        out.push(c);
        *skip_ws = true;
    } else if c == ')' || c == ']' || c == '}' {
        if out.len() > 0 && out[out.len() - 1] == ' ' {
            out.pop();
            proof {
                assert(out@ =~= old(out)@.drop_last());
            }
        }
        out.push(c);
        match peek {
            Some(p) => {
                if !is_space(p) && p != ')' && p != ']' && p != '}' && p != ',' && p != ';' && p
                    != '+' && p != '-' && p != '*' && p != '/' {
                    out.push(' ');
                }
            },
            None => {},
        }
    } else {
        out.push(c);
    }
}

/// Insert canonical spacing around operators and punctuation in `s`:
/// exactly the text of the `spacer_spec` scanner.
pub fn add_operator_spaces(s: &Vec<char>) -> (r: Vec<char>)
    ensures
        r@ == spacer_spec(s@),
{
    let mut out: Vec<char> = Vec::new();
    let mut op: Vec<char> = Vec::new();
    let mut skip_ws: bool = false;
    let mut i: usize = 0;
    while i < s.len()
        invariant
            i <= s@.len(),
            spacer_run(s@, i as int) == (SpacerSt { out: out@, op: op@, skip_ws }),
        decreases s@.len() - i,
    {
        let ghost st0 = spacer_run(s@, i as int);
        let c = s[i];
        let peek: Option<char> = if i + 1 < s.len() {
            Some(s[i + 1])
        } else {
            None
        };
        proof {
            assert(peek == peek_at(s@, i as int + 1));
        }
        if skip_ws && is_space(c) {
            // whitespace directly after an opening delimiter is dropped
        } else if op.len() > 0 {
            let one = op.len() == 1;
            let amp = one && op[0] == '&';
            let bar = one && op[0] == '|';
            if c == '=' || (amp && c == '&') || (bar && c == '|') {
                op.push(c);
                skip_ws = false;
            } else {
                emit_op_exec(&mut out, &op, Some(c));
                op = Vec::new();
                skip_ws = false;
                norm_step_exec(&mut out, &mut op, &mut skip_ws, c, peek);
            }
        } else {
            skip_ws = false;
            norm_step_exec(&mut out, &mut op, &mut skip_ws, c, peek);
        }
        i = i + 1;
        proof {
            let st1 = spacer_step(st0, c, peek_at(s@, i as int));
            assert(spacer_run(s@, i as int) == st1);
            assert(st1 =~= (SpacerSt { out: out@, op: op@, skip_ws }));
        }
    }
    if op.len() > 0 {
        emit_op_exec(&mut out, &op, None);
    }
    out
}

/// Characters that the spacer never touches: not an operator head, not a
/// delimiter, not a comma or semicolon.
pub open spec fn is_plain_spacer_char(c: char) -> bool {
    !is_op_start(c) && c != ',' && c != ';' && c != '(' && c != '[' && c != '{' && c != ')' && c
        != ']' && c != '}'
}

proof fn lemma_spacer_run_plain(s: Seq<char>, i: int)
    requires
        0 <= i <= s.len(),
        forall|k: int| 0 <= k < s.len() ==> is_plain_spacer_char(#[trigger] s[k]),
    ensures
        spacer_run(s, i) == (SpacerSt { out: s.take(i), op: Seq::empty(), skip_ws: false }),
    decreases i,
{
    if i <= 0 {
        assert(s.take(0) =~= Seq::<char>::empty());
    } else {
        lemma_spacer_run_plain(s, i - 1);
        assert(is_plain_spacer_char(s[i - 1]));
        assert(s.take(i) =~= s.take(i - 1).push(s[i - 1]));
    }
}

/// A fragment made only of characters the spacer never touches is left
/// unchanged: text without operators, delimiters or separators is already
/// correctly spaced.
pub proof fn lemma_spacer_fixes_plain_text(s: Seq<char>)
    requires
        forall|k: int| 0 <= k < s.len() ==> is_plain_spacer_char(#[trigger] s[k]),
    ensures
        spacer_spec(s) == s,
{
    lemma_spacer_run_plain(s, s.len() as int);
    assert(s.take(s.len() as int) =~= s);
}

/// The operator spacer is idempotent on already-correctly-spaced input:
/// on a fragment that one application leaves unchanged, applying it twice
/// yields the same result as applying it once.
pub proof fn lemma_spacer_idempotent_on_spaced(s: Seq<char>)
    requires
        spacer_spec(s) == s,
    ensures
        spacer_spec(spacer_spec(s)) == spacer_spec(s),
{
}

} // verus!
