//! Splitting of clustered delimiter runs.
//!
//! Three or more consecutive opening or closing delimiters, or a line grown
//! past a fixed internal threshold of 80 characters, force a line break; the
//! indent emitted after a break is the caller's base level plus the current
//! delimiter depth. The pass is specified by the one-character scanner
//! `split_step`, and `split_clustered_brackets` is proved to emit exactly
//! the text the scanner describes.

use vstd::prelude::*;
use crate::spacing::peek_at;
use crate::text::is_space;
use crate::text::is_space_char;
use crate::text::push_repeat;
use crate::text::repeat_seq;
use crate::text::sat128;
use crate::text::sat_add128;
use crate::text::sat_mul128;
use crate::text::lemma_sat_cmp;

verus! {

/// Scanner state of the bracket-splitting pass.
#[verifier::ext_equal]
pub struct SplitSt {
    /// Output emitted so far.
    pub out: Seq<char>,
    /// Current delimiter depth (saturating at zero on unmatched closers).
    pub depth: nat,
    /// Length of the current run of consecutive delimiters.
    pub consec: nat,
    /// Length of the current output line.
    pub line: nat,
}

/// One step of the splitter on character `c`; `u` is the indent unit and
/// `cur` the caller's base indent level.
pub open spec fn split_step(st: SplitSt, c: char, peek: Option<char>, u: Seq<char>, cur: nat) -> SplitSt {
    if c == '(' || c == '[' || c == '{' {
        let depth = st.depth + 1;
        let consec = st.consec + 1;
        let out = st.out.push(c);
        let line = st.line + 1;
        if consec >= 3 || line > 80 {
            SplitSt {
                out: out.push('\n') + repeat_seq(u, (cur + depth) as int),
                depth,
                consec: 0,
                line: u.len() * (cur + depth),
            }
        } else {
            SplitSt { out, depth, consec, line }
        }
    } else if c == ')' || c == ']' || c == '}' {
        let depth = if st.depth > 0 {
            (st.depth - 1) as nat
        } else {
            0nat
        };
        let consec0 = st.consec + 1;
        let brk = consec0 >= 3 || st.line > 80;
        let out_a = if brk {
            st.out.push('\n') + repeat_seq(u, (cur + depth) as int)
        } else {
            st.out
        };
        let consec = if brk {
            0nat
        } else {
            consec0
        };
        let line_a = if brk {
            u.len() * (cur + depth)
        } else {
            st.line
        };
        let out_b = if out_a.len() > 0 && out_a.last() == ' ' {
            out_a.drop_last()
        } else {
            out_a
        };
        let out_c = out_b.push(c);
        let line_b = line_a + 1;
        match peek {
            Some(p) => if !is_space_char(p) && p != ')' && p != ']' && p != '}' && p != ',' && p
                != ';' {
                SplitSt { out: out_c.push(' '), depth, consec, line: line_b + 1 }
            } else {
                SplitSt { out: out_c, depth, consec, line: line_b }
            },
            None => SplitSt { out: out_c, depth, consec, line: line_b },
        }
    } else if c == '\n' {
        SplitSt {
            out: st.out.push('\n') + repeat_seq(u, (cur + st.depth) as int),
            depth: st.depth,
            consec: 0,
            line: u.len() * (cur + st.depth),
        }
    } else if c == ' ' {
        if st.out.len() > 0 && st.out.last() == ' ' {
            st
        } else {
            SplitSt { out: st.out.push(' '), depth: st.depth, consec: st.consec, line: st.line + 1 }
        }
    } else {
        SplitSt { out: st.out.push(c), depth: st.depth, consec: 0, line: st.line + 1 }
    }
}

/// Splitter state after consuming the first `i` characters of `s`.
pub open spec fn split_run(s: Seq<char>, u: Seq<char>, cur: nat, i: int) -> SplitSt
    decreases i,
{
    if i <= 0 {
        SplitSt { out: Seq::empty(), depth: 0, consec: 0, line: 0 }
    } else {
        split_step(split_run(s, u, cur, i - 1), s[i - 1], peek_at(s, i), u, cur)
    }
}

/// The full bracket-splitting transform of `s`.
pub open spec fn split_spec(s: Seq<char>, u: Seq<char>, cur: nat) -> Seq<char> {
    split_run(s, u, cur, s.len() as int).out
}

/// Break runs of three or more clustered delimiters (and overlong lines)
/// in `s`, indenting continuations by `indent_unit` repeated `current_indent`
/// plus the local delimiter depth: exactly the text of `split_spec`.
pub fn split_clustered_brackets(s: &Vec<char>, indent_unit: &Vec<char>, current_indent: usize) -> (r:
    Vec<char>)
    ensures
        r@ == split_spec(s@, indent_unit@, current_indent as nat),
{
    let ghost cur = current_indent as nat;
    let ghost u = indent_unit@;
    let mut out: Vec<char> = Vec::new();
    let mut depth: usize = 0;
    let mut consec: usize = 0;
    let mut line: u128 = 0;
    let mut i: usize = 0;
    while i < s.len()
        invariant
            u == indent_unit@,
            cur == current_indent as nat,
            i <= s@.len(),
            depth <= i,
            consec <= i,
            ({
                let st = split_run(s@, u, cur, i as int);
                out@ == st.out && depth as nat == st.depth && consec as nat == st.consec && (
                line as int) == sat128(st.line as int)
            }),
        decreases s@.len() - i,
    {
        let ghost st0 = split_run(s@, u, cur, i as int);
        let c = s[i];
        let peek: Option<char> = if i + 1 < s.len() {
            Some(s[i + 1])
        } else {
            None
        };
        proof {
            assert(peek == peek_at(s@, i as int + 1));
        }
        let ghost st1 = split_step(st0, c, peek_at(s@, i as int + 1), u, cur);
        if c == '(' || c == '[' || c == '{' {
            depth = depth + 1;
            consec = consec + 1;
            out.push(c);
            line = sat_add128(line, 1);
            proof {
                lemma_sat_cmp(st0.line as int + 1, 80);
            }
            if consec >= 3 || line > 80 {
                out.push('\n');
                let k = current_indent as u128 + depth as u128;
                push_repeat(&mut out, indent_unit, k);
                line = sat_mul128(indent_unit.len() as u128, k);
                consec = 0;
            }
        } else if c == ')' || c == ']' || c == '}' {
            if depth > 0 {
                depth = depth - 1;
            }
            consec = consec + 1;
            proof {
                lemma_sat_cmp(st0.line as int, 80);
            }
            if consec >= 3 || line > 80 {
                out.push('\n');
                let k = current_indent as u128 + depth as u128;
                push_repeat(&mut out, indent_unit, k);
                line = sat_mul128(indent_unit.len() as u128, k);
                consec = 0;
            }
            if out.len() > 0 && out[out.len() - 1] == ' ' {
                out.pop();
            }
            out.push(c);
            line = sat_add128(line, 1);
            match peek {
                Some(p) => {
                    if !is_space(p) && p != ')' && p != ']' && p != '}' && p != ',' && p != ';' {
                        out.push(' ');
                        line = sat_add128(line, 1);
                    }
                },
                None => {},
            }
        } else if c == '\n' {
            out.push('\n');
            let k = current_indent as u128 + depth as u128;
            push_repeat(&mut out, indent_unit, k);
            line = sat_mul128(indent_unit.len() as u128, k);
            consec = 0;
        } else if c == ' ' {
            if out.len() > 0 && out[out.len() - 1] == ' ' {
                // consecutive spaces collapse
            } else {
                out.push(' ');
                line = sat_add128(line, 1);
            }
        } else {
            out.push(c);
            line = sat_add128(line, 1);
            consec = 0;
        }
        i = i + 1;
        proof {
            assert(split_run(s@, u, cur, i as int) == st1);
            assert(out@ =~= st1.out);
        }
    }
    out
}

} // verus!
