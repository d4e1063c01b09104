//! The JS/TS layout engine.
//!
//! Statements accumulate until a structural boundary: braces drive the
//! indent level, semicolons flush the statement through the operator
//! spacer, commas flush only on overlong lines, and string literals and
//! comments suppress all structural interpretation. The whole buffer then
//! passes once more through the bracket splitter. The engine is specified
//! by the one-character scanner `js_step`, and `format_js_ts` is proved to
//! produce exactly the text of `js_spec`.

use vstd::prelude::*;
use crate::brackets::split_clustered_brackets;
use crate::brackets::split_spec;
use crate::spacing::add_operator_spaces;
use crate::spacing::peek_at;
use crate::spacing::spacer_spec;
use crate::text::collapse_double_spaces;
use crate::text::collapse_double_spaces_vec;
use crate::text::indent_times;
use crate::text::is_space;
use crate::text::is_space_char;
use crate::text::push_all;
use crate::text::push_spaces;
use crate::text::sat128;
use crate::text::sat_add128;
use crate::text::spaces;
use crate::text::trim_end_ws;
use crate::text::trim_end_ws_vec;
use crate::text::lemma_sat_cmp;
use crate::text::lemma_trim_end_ws_last;

verus! {

/// Scanner state of the JS/TS engine.
#[verifier::ext_equal]
pub struct JsSt {
    /// Output emitted so far.
    pub out: Seq<char>,
    /// Current indent level.
    pub level: nat,
    /// Length of the current output line.
    pub line: nat,
    /// The quote character of an open string literal, if any.
    pub in_str: Option<char>,
    /// True inside a `//` comment.
    pub sc: bool,
    /// True inside a `/* ... */` comment.
    pub mc: bool,
    /// Statement text accumulated since the last boundary.
    pub stmt: Seq<char>,
    /// Input characters already consumed by a two-character token.
    pub skip: nat,
}

/// One step of the JS/TS scanner on character `c`.
pub open spec fn js_step(st: JsSt, c: char, peek: Option<char>, indent: nat, max: nat) -> JsSt {
    if st.skip > 0 {
        JsSt { skip: (st.skip - 1) as nat, ..st }
    } else if st.sc {
        let out1 = st.out.push(c);
        if c == '\n' {
            JsSt {
                out: out1 + spaces((indent * st.level) as int),
                sc: false,
                line: indent * st.level,
                ..st
            }
        } else {
            JsSt { out: out1, ..st }
        }
    } else if st.mc {
        let out1 = st.out.push(c);
        if c == '*' && peek == Some('/') {
            JsSt {
                out: out1 + seq!['/', '\n'] + spaces((indent * st.level) as int),
                mc: false,
                skip: 1,
                line: indent * st.level,
                ..st
            }
        } else {
            JsSt { out: out1, ..st }
        }
    } else if st.in_str is Some {
        JsSt {
            stmt: st.stmt.push(c),
            line: st.line + 1,
            in_str: if c == st.in_str->0 {
                None
            } else {
                st.in_str
            },
            ..st
        }
    } else if c == '"' || c == '\'' {
        JsSt { in_str: Some(c), stmt: st.stmt.push(c), line: st.line + 1, ..st }
    } else if c == '/' && peek == Some('/') {
        JsSt { out: st.out + st.stmt + seq!['/', '/'], stmt: Seq::empty(), sc: true, skip: 1, ..st }
    } else if c == '/' && peek == Some('*') {
        JsSt { out: st.out + st.stmt + seq!['/', '*'], stmt: Seq::empty(), mc: true, skip: 1, ..st }
    } else if c == '{' || c == '(' || c == '[' {
        let out1 = st.out + st.stmt.push(c);
        let lev1 = if c == '{' {
            st.level + 1
        } else {
            st.level
        };
        let out2 = if c == '{' {
            out1 + seq!['\n'] + spaces((indent * lev1) as int)
        } else {
            out1
        };
        JsSt { out: out2, level: lev1, stmt: Seq::empty(), line: indent * lev1, ..st }
    } else if c == '}' || c == ')' || c == ']' {
        let lev1 = if c == '}' {
            if st.level > 0 {
                (st.level - 1) as nat
            } else {
                0nat
            }
        } else {
            st.level
        };
        let out1 = if c == '}' {
            st.out + seq!['\n'] + spaces((indent * lev1) as int)
        } else {
            st.out
        };
        let out2 = (out1 + st.stmt).push(c);
        let line2 = st.line + 1;
        let wrap = match peek {
            Some(p) => p != ',' && p != ';' && p != '}' && p != ')' && line2 > max,
            None => false,
        };
        if wrap {
            JsSt {
                out: out2 + seq!['\n'] + spaces((indent * lev1) as int),
                level: lev1,
                stmt: Seq::empty(),
                line: indent * lev1,
                ..st
            }
        } else {
            JsSt { out: out2, level: lev1, stmt: Seq::empty(), line: line2, ..st }
        }
    } else if c == ';' {
        JsSt {
            out: st.out + spacer_spec(st.stmt.push(';')) + seq!['\n'] + spaces(
                (indent * st.level) as int,
            ),
            stmt: Seq::empty(),
            line: indent * st.level,
            ..st
        }
    } else if c == ',' {
        let stmt1 = st.stmt.push(',');
        let line1 = st.line + 1;
        if line1 > max {
            JsSt {
                out: st.out + stmt1 + seq!['\n'] + spaces((indent * st.level) as int),
                stmt: Seq::empty(),
                line: indent * st.level,
                ..st
            }
        } else {
            JsSt { stmt: stmt1, line: line1, ..st }
        }
    } else {
        if is_space_char(c) && st.stmt.len() > 0 && (st.stmt.last() == ' ' || st.stmt.last()
            == '\t') {
            st
        } else {
            JsSt { stmt: st.stmt.push(c), line: st.line + 1, ..st }
        }
    }
}

/// Scanner state after consuming the first `i` characters of `s`.
pub open spec fn js_run(s: Seq<char>, indent: nat, max: nat, i: int) -> JsSt
    decreases i,
{
    if i <= 0 {
        JsSt {
            out: Seq::empty(),
            level: 0,
            line: 0,
            in_str: None,
            sc: false,
            mc: false,
            stmt: Seq::empty(),
            skip: 0,
        }
    } else {
        js_step(js_run(s, indent, max, i - 1), s[i - 1], peek_at(s, i), indent, max)
    }
}

/// A statement left unterminated at the end of the input is spaced, split,
/// indented, and closed with a synthesized semicolon when needed.
pub open spec fn js_finalize(st: JsSt, indent: nat) -> Seq<char> {
    if st.stmt.len() > 0 {
        let fs = split_spec(spacer_spec(st.stmt), spaces(indent as int), st.level);
        let out_a = st.out + spaces((indent * st.level) as int) + fs;
        let out_b = if fs.len() > 0 && (fs.last() == ';' || fs.last() == '}' || fs.last() == ')'
            || fs.last() == ']') {
            out_a
        } else {
            out_a.push(';')
        };
        out_b.push('\n')
    } else {
        st.out
    }
}

/// The full JS/TS formatting of `s`: the scanner's text passed once more
/// through the bracket splitter, with double spaces collapsed, trimmed,
/// and ending in one newline.
pub open spec fn js_spec(s: Seq<char>, indent: nat, max: nat) -> Seq<char> {
    let st = js_run(s, indent, max, s.len() as int);
    let raw = js_finalize(st, indent);
    trim_end_ws(collapse_double_spaces(split_spec(raw, spaces(indent as int), st.level))).push('\n')
}

/// Reformat JS or TS text: exactly the text of `js_spec`, which always
/// ends in exactly one newline with no trailing whitespace before it.
#[verifier::rlimit(100)]
pub fn format_js_ts(content: &Vec<char>, indent: u8, max_line_length: usize) -> (r: Vec<char>)
    ensures
        r@ == js_spec(content@, indent as nat, max_line_length as nat),
        r@.len() > 0 && r@.last() == '\n',
        r@.len() >= 2 ==> !is_space_char(r@[r@.len() - 2]),
{
    let ghost ind = indent as nat;
    let ghost mx = max_line_length as nat;
    let mut out: Vec<char> = Vec::new();
    let mut level: usize = 0;
    let mut line: u128 = 0;
    let mut in_str: Option<char> = None;
    let mut sc: bool = false;
    let mut mc: bool = false;
    let mut stmt: Vec<char> = Vec::new();
    let mut skip: usize = 0;
    let mut i: usize = 0;
    while i < content.len()
        invariant
            ind == indent as nat,
            mx == max_line_length as nat,
            i <= content@.len(),
            level <= i,
            skip <= 1,
            ({
                let st = js_run(content@, ind, mx, i as int);
                out@ == st.out && level as nat == st.level && (line as int) == sat128(
                    st.line as int,
                ) && in_str == st.in_str && sc == st.sc && mc == st.mc && stmt@ == st.stmt && (
                skip as nat) == st.skip
            }),
        decreases content@.len() - i,
    {
        let ghost st0 = js_run(content@, ind, mx, i as int);
        let c = content[i];
        let peek: Option<char> = if i + 1 < content.len() {
            Some(content[i + 1])
        } else {
            None
        };
        proof {
            assert(peek == peek_at(content@, i as int + 1));
        }
        let peek_slash = match peek {
            Some(p) => p == '/',
            None => false,
        };
        let peek_star = match peek {
            Some(p) => p == '*',
            None => false,
        };
        let ghost st1 = js_step(st0, c, peek_at(content@, i as int + 1), ind, mx);
        let quote = match in_str {
            Some(qc) => Some(qc),
            None => None,
        };
        if skip > 0 {
            skip = skip - 1;
        } else if sc {
            out.push(c);
            if c == '\n' {
                push_spaces(&mut out, indent_times(indent, level));
                line = indent_times(indent, level);
                sc = false;
            }
        } else if mc {
            out.push(c);
            if c == '*' && peek_slash {
                out.push('/');
                out.push('\n');
                push_spaces(&mut out, indent_times(indent, level));
                line = indent_times(indent, level);
                mc = false;
                skip = 1;
            }
        } else if let Some(qc) = quote {
            stmt.push(c);
            line = sat_add128(line, 1);
            if c == qc {
                in_str = None;
            }
        } else if c == '"' || c == '\'' {
            in_str = Some(c);
            stmt.push(c);
            line = sat_add128(line, 1);
        } else if c == '/' && peek_slash {
            push_all(&mut out, &stmt);
            stmt = Vec::new();
            out.push('/');
            out.push('/');
            sc = true;
            skip = 1;
        } else if c == '/' && peek_star {
            push_all(&mut out, &stmt);
            stmt = Vec::new();
            out.push('/');
            out.push('*');
            mc = true;
            skip = 1;
        } else if c == '{' || c == '(' || c == '[' {
            stmt.push(c);
            push_all(&mut out, &stmt);
            stmt = Vec::new();
            if c == '{' {
                out.push('\n');
                level = level + 1;
                push_spaces(&mut out, indent_times(indent, level));
            }
            line = indent_times(indent, level);
        } else if c == '}' || c == ')' || c == ']' {
            if c == '}' {
                out.push('\n');
                if level > 0 {
                    level = level - 1;
                }
                push_spaces(&mut out, indent_times(indent, level));
            }
            push_all(&mut out, &stmt);
            stmt = Vec::new();
            out.push(c);
            line = sat_add128(line, 1);
            proof {
                lemma_sat_cmp(st0.line as int + 1, mx as int);
            }
            match peek {
                Some(p) => {
                    if p != ',' && p != ';' && p != '}' && p != ')' && line
                        > (max_line_length as u128) {
                        out.push('\n');
                        push_spaces(&mut out, indent_times(indent, level));
                        line = indent_times(indent, level);
                    }
                },
                None => {},
            }
        } else if c == ';' {
            stmt.push(';');
            let sp = add_operator_spaces(&stmt);
            push_all(&mut out, &sp);
            out.push('\n');
            push_spaces(&mut out, indent_times(indent, level));
            stmt = Vec::new();
            line = indent_times(indent, level);
        } else if c == ',' {
            stmt.push(',');
            line = sat_add128(line, 1);
            proof {
                lemma_sat_cmp(st0.line as int + 1, mx as int);
            }
            if line > (max_line_length as u128) {
                push_all(&mut out, &stmt);
                out.push('\n');
                push_spaces(&mut out, indent_times(indent, level));
                stmt = Vec::new();
                line = indent_times(indent, level);
            }
        } else {
            let sp = is_space(c);
            let drop_it = sp && stmt.len() > 0 && (stmt[stmt.len() - 1] == ' ' || stmt[stmt.len()
                - 1] == '\t');
            if !drop_it {
                stmt.push(c);
                line = sat_add128(line, 1);
            }
        }
        i = i + 1;
        proof {
            assert(js_run(content@, ind, mx, i as int) == st1);
            assert(out@ =~= st1.out);
            assert(stmt@ =~= st1.stmt);
        }
    }
    let ghost stf = js_run(content@, ind, mx, content@.len() as int);
    let mut unit: Vec<char> = Vec::new();
    push_spaces(&mut unit, indent as u128);
    proof {
        assert(unit@ =~= spaces(indent as int));
    }
    if stmt.len() > 0 {
        let sp = add_operator_spaces(&stmt);
        let fs = split_clustered_brackets(&sp, &unit, level);
        push_spaces(&mut out, indent_times(indent, level));
        push_all(&mut out, &fs);
        let closed = fs.len() > 0 && {
            let l = fs[fs.len() - 1];
            l == ';' || l == '}' || l == ')' || l == ']'
        };
        if !closed {
            out.push(';');
        }
        out.push('\n');
    }
    proof {
        assert(out@ =~= js_finalize(stf, ind));
    }
    let split_again = split_clustered_brackets(&out, &unit, level);
    let collapsed = collapse_double_spaces_vec(&split_again);
    let mut trimmed = trim_end_ws_vec(collapsed);
    proof {
        lemma_trim_end_ws_last(collapse_double_spaces(split_spec(out@, spaces(indent as int), stf.level)));
    }
    trimmed.push('\n');
    trimmed
}

/// The structural projection of the JS/TS scanner: only the mode flags and
/// a saturating brace depth.
#[verifier::ext_equal]
pub struct JsDepth {
    /// Saturating depth of unmatched structural `{`.
    pub depth: nat,
    /// The quote character of an open string literal, if any.
    pub in_str: Option<char>,
    /// True inside a `//` comment.
    pub sc: bool,
    /// True inside a `/* ... */` comment.
    pub mc: bool,
    /// Input characters already consumed by a two-character token.
    pub skip: nat,
}

/// One step of the structural projection.
pub open spec fn js_depth_step(d: JsDepth, c: char, peek: Option<char>) -> JsDepth {
    if d.skip > 0 {
        JsDepth { skip: (d.skip - 1) as nat, ..d }
    } else if d.sc {
        if c == '\n' {
            JsDepth { sc: false, ..d }
        } else {
            d
        }
    } else if d.mc {
        if c == '*' && peek == Some('/') {
            JsDepth { mc: false, skip: 1, ..d }
        } else {
            d
        }
    } else if d.in_str is Some {
        JsDepth {
            in_str: if c == d.in_str->0 {
                None
            } else {
                d.in_str
            },
            ..d
        }
    } else if c == '"' || c == '\'' {
        JsDepth { in_str: Some(c), ..d }
    } else if c == '/' && peek == Some('/') {
        JsDepth { sc: true, skip: 1, ..d }
    } else if c == '/' && peek == Some('*') {
        JsDepth { mc: true, skip: 1, ..d }
    } else if c == '{' {
        JsDepth { depth: d.depth + 1, ..d }
    } else if c == '}' {
        JsDepth {
            depth: if d.depth > 0 {
                (d.depth - 1) as nat
            } else {
                0nat
            },
            ..d
        }
    } else {
        d
    }
}

/// Projection state after the first `i` characters of `s`.
pub open spec fn js_depth_run(s: Seq<char>, i: int) -> JsDepth
    decreases i,
{
    if i <= 0 {
        JsDepth { depth: 0, in_str: None, sc: false, mc: false, skip: 0 }
    } else {
        js_depth_step(js_depth_run(s, i - 1), s[i - 1], peek_at(s, i))
    }
}

/// The engine's indent level is exactly the saturating nesting depth of
/// the structural braces it has recognized — braces inside strings and
/// comments do not count. In particular the level never goes negative and
/// never exceeds the number of unmatched `{` seen so far.
pub proof fn lemma_js_level_is_structural_depth(s: Seq<char>, indent: nat, max: nat, i: int)
    requires
        0 <= i <= s.len(),
    ensures
        ({
            let st = js_run(s, indent, max, i);
            let d = js_depth_run(s, i);
            st.level == d.depth && st.in_str == d.in_str && st.sc == d.sc && st.mc == d.mc
                && st.skip == d.skip
        }),
    decreases i,
{
    if i > 0 {
        lemma_js_level_is_structural_depth(s, indent, max, i - 1);
    }
}

} // verus!
