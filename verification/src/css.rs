//! The CSS layout engine.
//!
//! Selectors accumulate until `{`, declarations until `;` or `}`; a rule's
//! declaration list is rendered at its closing brace, compactly on one line
//! when it has at most three declarations and fits under the configured
//! line length, otherwise one declaration per indented line. Comments
//! outside rules are copied verbatim. The engine is specified by the
//! one-character scanner `css_step`, and `format_css` is proved to produce
//! exactly the text of `css_spec`.

use vstd::prelude::*;
use crate::spacing::peek_at;
use crate::text::collapse_triple_newlines;
use crate::text::collapse_triple_newlines_vec;
use crate::text::is_space;
use crate::text::is_space_char;
use crate::text::push_all;
use crate::text::push_spaces;
use crate::text::spaces;
use crate::text::trim_end_ws;
use crate::text::trim_end_ws_vec;
use crate::text::trim_ws;
use crate::text::trim_ws_vec;
use crate::text::lemma_trim_end_ws_last;
use crate::text::indent_times;

verus! {

/// A declaration with one space inserted after its first colon.
pub open spec fn colon_spaced(d: Seq<char>) -> Seq<char>
    decreases d.len(),
{
    if d.len() == 0 {
        d
    } else if d[0] == ':' {
        seq![':', ' '] + d.skip(1)
    } else {
        seq![d[0]] + colon_spaced(d.skip(1))
    }
}

/// The first `k` colon-spaced declarations joined with `"; "`.
pub open spec fn joined_upto(ds: Seq<Seq<char>>, k: int) -> Seq<char>
    decreases k,
{
    if k <= 0 {
        Seq::empty()
    } else if k == 1 {
        colon_spaced(ds[0])
    } else {
        joined_upto(ds, k - 1) + seq![';', ' '] + colon_spaced(ds[k - 1])
    }
}

/// The first `k` declarations, one per line at the given indent, the first
/// one placed on the current line.
pub open spec fn expanded_upto(ds: Seq<Seq<char>>, indent: nat, level: nat, k: int) -> Seq<char>
    decreases k,
{
    if k <= 0 {
        Seq::empty()
    } else if k == 1 {
        colon_spaced(ds[0]) + seq![';']
    } else {
        expanded_upto(ds, indent, level, k - 1) + seq!['\n'] + spaces((indent * level) as int)
            + colon_spaced(ds[k - 1]) + seq![';']
    }
}

/// The first `k` declarations, each on a fresh indented line (used for a
/// rule still open at the end of the input).
pub open spec fn expanded_nl_upto(ds: Seq<Seq<char>>, indent: nat, level: nat, k: int) -> Seq<char>
    decreases k,
{
    if k <= 0 {
        Seq::empty()
    } else {
        expanded_nl_upto(ds, indent, level, k - 1) + seq!['\n'] + spaces((indent * level) as int)
            + colon_spaced(ds[k - 1]) + seq![';']
    }
}

/// The declaration list with a still-pending fragment folded in.
pub open spec fn decls_with_pending(decls: Seq<Seq<char>>, temp: Seq<char>) -> Seq<Seq<char>> {
    if trim_ws(temp).len() > 0 {
        decls.push(trim_ws(temp))
    } else {
        decls
    }
}

/// Whether the compact one-line rendering is chosen: at most three
/// declarations, and the joined line fits under `max` at this indent.
pub open spec fn compact_fits(ds: Seq<Seq<char>>, indent: nat, level: nat, max: nat) -> bool {
    joined_upto(ds, ds.len() as int).len() + indent * level < max && ds.len() <= 3
}

/// The text a rule's declarations contribute at its closing brace.
pub open spec fn rendered_decls(ds: Seq<Seq<char>>, indent: nat, level: nat, max: nat) -> Seq<char> {
    if ds.len() == 0 {
        Seq::empty()
    } else if compact_fits(ds, indent, level, max) {
        joined_upto(ds, ds.len() as int) + seq![';']
    } else {
        expanded_upto(ds, indent, level, ds.len() as int)
    }
}

/// With more than three declarations the compact rendering is never
/// chosen: every declaration lands on its own line at the rule's indent.
pub proof fn lemma_many_decls_expand(ds: Seq<Seq<char>>, indent: nat, level: nat, max: nat)
    requires
        ds.len() > 3,
    ensures
        rendered_decls(ds, indent, level, max) == expanded_upto(ds, indent, level, ds.len() as int),
{
}

/// Scanner state of the CSS engine.
#[verifier::ext_equal]
pub struct CssSt {
    /// Output emitted so far.
    pub out: Seq<char>,
    /// Current indent level.
    pub level: nat,
    /// True between `{` and `}`.
    pub in_brace: bool,
    /// True inside a `/* ... */` comment outside any rule.
    pub in_comment: bool,
    /// Declarations of the current rule, in order, untrimmed of colons.
    pub decls: Seq<Seq<char>>,
    /// Selector or declaration text accumulated since the last boundary.
    pub temp: Seq<char>,
    /// Input characters already consumed by a two-character token.
    pub skip: nat,
}

/// One step of the CSS scanner on character `c`.
pub open spec fn css_step(st: CssSt, c: char, peek: Option<char>, indent: nat, max: nat) -> CssSt {
    if st.skip > 0 {
        CssSt { skip: (st.skip - 1) as nat, ..st }
    } else if st.in_comment {
        let out1 = st.out.push(c);
        if c == '*' && peek == Some('/') {
            CssSt {
                out: out1 + seq!['/', '\n'] + spaces((indent * st.level) as int),
                in_comment: false,
                skip: 1,
                ..st
            }
        } else {
            CssSt { out: out1, ..st }
        }
    } else if c == '/' && !st.in_brace && peek == Some('*') {
        CssSt { out: st.out + seq!['/', '*'], in_comment: true, skip: 1, ..st }
    } else if c == '{' {
        let sel = trim_ws(st.temp);
        let out1 = if sel.len() > 0 {
            st.out + spaces((indent * st.level) as int) + sel + seq![' ']
        } else {
            st.out
        };
        CssSt {
            out: out1 + seq!['{', '\n'] + spaces((indent * (st.level + 1)) as int),
            level: st.level + 1,
            in_brace: true,
            temp: Seq::empty(),
            ..st
        }
    } else if c == '}' {
        let ds = decls_with_pending(st.decls, st.temp);
        let out1 = st.out + rendered_decls(ds, indent, st.level, max);
        let lev1 = if st.level > 0 {
            (st.level - 1) as nat
        } else {
            0nat
        };
        CssSt {
            out: out1 + seq!['\n'] + spaces((indent * lev1) as int) + seq!['}', '\n'] + spaces(
                (indent * lev1) as int,
            ),
            level: lev1,
            in_brace: false,
            decls: Seq::empty(),
            temp: Seq::empty(),
            ..st
        }
    } else if c == ';' && st.in_brace {
        let d = trim_ws(st.temp);
        CssSt {
            decls: if d.len() > 0 {
                st.decls.push(d)
            } else {
                st.decls
            },
            temp: Seq::empty(),
            ..st
        }
    } else {
        if is_space_char(c) && st.temp.len() > 0 && (st.temp.last() == ' ' || st.temp.last()
            == '\t') {
            st
        } else {
            CssSt { temp: st.temp.push(c), ..st }
        }
    }
}

/// Scanner state after consuming the first `i` characters of `s`.
pub open spec fn css_run(s: Seq<char>, indent: nat, max: nat, i: int) -> CssSt
    decreases i,
{
    if i <= 0 {
        CssSt {
            out: Seq::empty(),
            level: 0,
            in_brace: false,
            in_comment: false,
            decls: Seq::empty(),
            temp: Seq::empty(),
            skip: 0,
        }
    } else {
        css_step(css_run(s, indent, max, i - 1), s[i - 1], peek_at(s, i), indent, max)
    }
}

/// Flush a rule still open at the end of the input.
pub open spec fn css_finalize(st: CssSt, indent: nat, max: nat) -> Seq<char> {
    let ds = decls_with_pending(st.decls, st.temp);
    if ds.len() > 0 {
        let base = st.out + spaces((indent * st.level) as int);
        let body = if compact_fits(ds, indent, st.level, max) {
            joined_upto(ds, ds.len() as int) + seq![';']
        } else {
            expanded_nl_upto(ds, indent, st.level, ds.len() as int)
        };
        if st.in_brace {
            let lev1 = if st.level > 0 {
                (st.level - 1) as nat
            } else {
                0nat
            };
            base + body + seq!['\n'] + spaces((indent * lev1) as int) + seq!['}', '\n']
        } else {
            base + body
        }
    } else {
        st.out
    }
}

/// The full CSS formatting of `s`: the scanner's text with triple newlines
/// collapsed, trailing whitespace trimmed, and ending in one newline.
/// Operator spacing is done inline, declaration by declaration, so no
/// whole-buffer spacing pass runs here.
pub open spec fn css_spec(s: Seq<char>, indent: nat, max: nat) -> Seq<char> {
    let raw = css_finalize(css_run(s, indent, max, s.len() as int), indent, max);
    trim_end_ws(collapse_triple_newlines(raw)).push('\n')
}

/// Insert one space after the first colon of `d`, as `colon_spaced`.
fn colon_spaced_exec(d: &Vec<char>) -> (r: Vec<char>)
    ensures
        r@ == colon_spaced(d@),
{
    let mut out: Vec<char> = Vec::new();
    let mut done: bool = false;
    let mut j: usize = 0;
    proof {
        assert(d@.skip(0) =~= d@);
        assert(out@ + colon_spaced(d@) =~= colon_spaced(d@));
    }
    while j < d.len()
        invariant
            j <= d@.len(),
            colon_spaced(d@) == out@ + (if done {
                d@.skip(j as int)
            } else {
                colon_spaced(d@.skip(j as int))
            }),
        decreases d@.len() - j,
    {
        let ghost rest = d@.skip(j as int);
        proof {
            assert(rest[0] == d@[j as int]);
            assert(rest.skip(1) =~= d@.skip(j as int + 1));
        }
        let ghost before = out@;
        if !done && d[j] == ':' {
            out.push(':');
            out.push(' ');
            done = true;
            proof {
                assert(out@ + d@.skip(j as int + 1) =~= before + (seq![':', ' '] + rest.skip(1)));
            }
        } else {
            out.push(d[j]);
            proof {
                if done {
                    assert(out@ + d@.skip(j as int + 1) =~= before + rest);
                } else {
                    assert(out@ + colon_spaced(d@.skip(j as int + 1)) =~= before + (seq![rest[0]]
                        + colon_spaced(rest.skip(1))));
                }
            }
        }
        j = j + 1;
    }
    proof {
        assert(d@.skip(d@.len() as int) =~= Seq::<char>::empty());
        assert(out@ + Seq::<char>::empty() =~= out@);
    }
    out
}

/// Append the compact or expanded rendering of the declarations to `out`,
/// as `rendered_decls` describes; `nl_first` selects the variant whose
/// first declaration also starts a fresh line (`expanded_nl_upto`).
fn render_decls_exec(
    out: &mut Vec<char>,
    decls: &Vec<Vec<char>>,
    Ghost(dm): Ghost<Seq<Seq<char>>>,
    indent: u8,
    level: usize,
    max: usize,
    nl_first: bool,
)
    requires
        decls@.len() == dm.len(),
        forall|k: int| 0 <= k < dm.len() ==> decls@[k]@ == #[trigger] dm[k],
    ensures
        final(out)@ == old(out)@ + (if dm.len() == 0 {
            Seq::<char>::empty()
        } else if compact_fits(dm, indent as nat, level as nat, max as nat) {
            joined_upto(dm, dm.len() as int) + seq![';']
        } else if nl_first {
            expanded_nl_upto(dm, indent as nat, level as nat, dm.len() as int)
        } else {
            expanded_upto(dm, indent as nat, level as nat, dm.len() as int)
        }),
{
    let ghost base = out@;
    if decls.len() == 0 {
        proof {
            assert(base + Seq::<char>::empty() =~= base);
        }
        return ;
    }
    let mut joined: Vec<char> = Vec::new();
    let mut k: usize = 0;
    while k < decls.len()
        invariant
            k <= decls@.len(),
            decls@.len() == dm.len(),
            forall|t: int| 0 <= t < dm.len() ==> decls@[t]@ == #[trigger] dm[t],
            joined@ == joined_upto(dm, k as int),
        decreases decls@.len() - k,
    {
        if k > 0 {
            joined.push(';');
            joined.push(' ');
        }
        let cs = colon_spaced_exec(&decls[k]);
        push_all(&mut joined, &cs);
        proof {
            if k == 0 {
                assert(joined@ =~= joined_upto(dm, 1));
            } else {
                assert(joined@ =~= joined_upto(dm, k as int + 1));
            }
        }
        k = k + 1;
    }
    let ind = indent_times(indent, level);
    if (joined.len() as u128) + ind < (max as u128) && decls.len() <= 3 {
        proof {
            assert(compact_fits(dm, indent as nat, level as nat, max as nat));
        }
        push_all(out, &joined);
        out.push(';');
        proof {
            assert(out@ =~= base + (joined_upto(dm, dm.len() as int) + seq![';']));
        }
    } else {
        proof {
            assert(!compact_fits(dm, indent as nat, level as nat, max as nat));
        }
        let mut t: usize = 0;
        while t < decls.len()
            invariant
                t <= decls@.len(),
                decls@.len() == dm.len(),
                dm.len() > 0,
                forall|q: int| 0 <= q < dm.len() ==> decls@[q]@ == #[trigger] dm[q],
                out@ == base + (if nl_first {
                    expanded_nl_upto(dm, indent as nat, level as nat, t as int)
                } else {
                    expanded_upto(dm, indent as nat, level as nat, t as int)
                }),
            decreases decls@.len() - t,
        {
            if t > 0 || nl_first {
                out.push('\n');
                push_spaces(out, indent_times(indent, level));
            }
            let cs = colon_spaced_exec(&decls[t]);
            push_all(out, &cs);
            out.push(';');
            proof {
                if nl_first {
                    assert(out@ =~= base + expanded_nl_upto(
                        dm,
                        indent as nat,
                        level as nat,
                        t as int + 1,
                    ));
                } else {
                    if t == 0 {
                        assert(out@ =~= base + expanded_upto(dm, indent as nat, level as nat, 1));
                    } else {
                        assert(out@ =~= base + expanded_upto(
                            dm,
                            indent as nat,
                            level as nat,
                            t as int + 1,
                        ));
                    }
                }
            }
            t = t + 1;
        }
    }
}

/// Reformat CSS text: exactly the text of `css_spec`, which always ends in
/// exactly one newline with no trailing whitespace before it.
#[verifier::rlimit(100)]
pub fn format_css(content: &Vec<char>, indent: u8, max_line_length: usize) -> (r: Vec<char>)
    ensures
        r@ == css_spec(content@, indent as nat, max_line_length as nat),
        r@.len() > 0 && r@.last() == '\n',
        r@.len() >= 2 ==> !is_space_char(r@[r@.len() - 2]),
{
    let ghost ind = indent as nat;
    let ghost mx = max_line_length as nat;
    let mut out: Vec<char> = Vec::new();
    let mut level: usize = 0;
    let mut in_brace: bool = false;
    let mut in_comment: bool = false;
    let mut decls: Vec<Vec<char>> = Vec::new();
    let ghost mut dm: Seq<Seq<char>> = Seq::empty();
    let mut temp: Vec<char> = Vec::new();
    let mut skip: usize = 0;
    let mut i: usize = 0;
    while i < content.len()
        invariant
            ind == indent as nat,
            mx == max_line_length as nat,
            i <= content@.len(),
            level <= i,
            skip <= 1,
            decls@.len() == dm.len(),
            forall|k: int| 0 <= k < dm.len() ==> decls@[k]@ == #[trigger] dm[k],
            ({
                let st = css_run(content@, ind, mx, i as int);
                out@ == st.out && level as nat == st.level && in_brace == st.in_brace && in_comment
                    == st.in_comment && dm == st.decls && temp@ == st.temp && skip as nat == st.skip
            }),
        decreases content@.len() - i,
    {
        let ghost st0 = css_run(content@, ind, mx, i as int);
        let c = content[i];
        let peek: Option<char> = if i + 1 < content.len() {
            Some(content[i + 1])
        } else {
            None
        };
        proof {
            assert(peek == peek_at(content@, i as int + 1));
        }
        let peek_is_star = match peek {
            Some(p) => p == '*',
            None => false,
        };
        let ghost st1 = css_step(st0, c, peek_at(content@, i as int + 1), ind, mx);
        if skip > 0 {
            skip = skip - 1;
        } else if in_comment {
            out.push(c);
            if c == '*' {
                match peek {
                    Some(p) => {
                        if p == '/' {
                            out.push('/');
                            out.push('\n');
                            push_spaces(&mut out, indent_times(indent, level));
                            in_comment = false;
                            skip = 1;
                        }
                    },
                    None => {},
                }
            }
            proof {
                assert(out@ =~= st1.out);
            }
        } else if c == '/' && !in_brace && peek_is_star {
            out.push('/');
            out.push('*');
            in_comment = true;
            skip = 1;
            proof {
                assert(out@ =~= st1.out);
            }
        } else if c == '{' {
            let sel = trim_ws_vec(&temp);
            if sel.len() > 0 {
                push_spaces(&mut out, indent_times(indent, level));
                push_all(&mut out, &sel);
                out.push(' ');
            }
            out.push('{');
            out.push('\n');
            level = level + 1;
            push_spaces(&mut out, indent_times(indent, level));
            in_brace = true;
            temp = Vec::new();
            proof {
                assert(out@ =~= st1.out);
                assert(temp@ =~= st1.temp);
            }
        } else if c == '}' {
            let d = trim_ws_vec(&temp);
            if d.len() > 0 {
                proof {
                    dm = dm.push(d@);
                }
                decls.push(d);
            }
            temp = Vec::new();
            proof {
                assert(dm == decls_with_pending(st0.decls, st0.temp));
            }
            render_decls_exec(
                &mut out,
                &decls,
                Ghost(dm),
                indent,
                level,
                max_line_length,
                false,
            );
            if level > 0 {
                level = level - 1;
            }
            out.push('\n');
            push_spaces(&mut out, indent_times(indent, level));
            out.push('}');
            out.push('\n');
            push_spaces(&mut out, indent_times(indent, level));
            in_brace = false;
            decls = Vec::new();
            proof {
                dm = Seq::empty();
            }
            proof {
                assert(out@ =~= st1.out);
                assert(temp@ =~= st1.temp);
            }
        } else if c == ';' && in_brace {
            let d = trim_ws_vec(&temp);
            if d.len() > 0 {
                proof {
                    dm = dm.push(d@);
                }
                decls.push(d);
            }
            temp = Vec::new();
            proof {
                assert(temp@ =~= st1.temp);
            }
        } else {
            let sp = is_space(c);
            let drop_it = sp && temp.len() > 0 && (temp[temp.len() - 1] == ' ' || temp[temp.len()
                - 1] == '\t');
            if !drop_it {
                temp.push(c);
            }
        }
        i = i + 1;
        proof {
            assert(css_run(content@, ind, mx, i as int) == st1);
            assert(out@ =~= st1.out);
            assert(temp@ =~= st1.temp);
            assert(dm =~= st1.decls);
        }
    }
    let ghost stf = css_run(content@, ind, mx, content@.len() as int);
    let d = trim_ws_vec(&temp);
    if d.len() > 0 {
        proof {
            dm = dm.push(d@);
        }
        decls.push(d);
    }
    proof {
        assert(dm == decls_with_pending(stf.decls, stf.temp));
    }
    if decls.len() > 0 {
        push_spaces(&mut out, indent_times(indent, level));
        render_decls_exec(&mut out, &decls, Ghost(dm), indent, level, max_line_length, true);
        if in_brace {
            if level > 0 {
                level = level - 1;
            }
            out.push('\n');
            push_spaces(&mut out, indent_times(indent, level));
            out.push('}');
            out.push('\n');
        }
    }
    proof {
        assert(out@ =~= css_finalize(stf, ind, mx));
    }
    let collapsed = collapse_triple_newlines_vec(&out);
    let mut trimmed = trim_end_ws_vec(collapsed);
    proof {
        lemma_trim_end_ws_last(collapse_triple_newlines(out@));
    }
    trimmed.push('\n');
    trimmed
}

/// The structural projection of the CSS scanner: only the mode flags and a
/// saturating brace depth.
#[verifier::ext_equal]
pub struct CssDepth {
    /// Saturating depth of unmatched structural `{`.
    pub depth: nat,
    /// True between `{` and `}`.
    pub in_brace: bool,
    /// True inside a comment outside any rule.
    pub in_comment: bool,
    /// Input characters already consumed by a two-character token.
    pub skip: nat,
}

/// One step of the structural projection.
pub open spec fn css_depth_step(d: CssDepth, c: char, peek: Option<char>) -> CssDepth {
    if d.skip > 0 {
        CssDepth { skip: (d.skip - 1) as nat, ..d }
    } else if d.in_comment {
        if c == '*' && peek == Some('/') {
            CssDepth { in_comment: false, skip: 1, ..d }
        } else {
            d
        }
    } else if c == '/' && !d.in_brace && peek == Some('*') {
        CssDepth { in_comment: true, skip: 1, ..d }
    } else if c == '{' {
        CssDepth { depth: d.depth + 1, in_brace: true, ..d }
    } else if c == '}' {
        CssDepth {
            depth: if d.depth > 0 {
                (d.depth - 1) as nat
            } else {
                0nat
            },
            in_brace: false,
            ..d
        }
    } else {
        d
    }
}

/// Projection state after the first `i` characters of `s`.
pub open spec fn css_depth_run(s: Seq<char>, i: int) -> CssDepth
    decreases i,
{
    if i <= 0 {
        CssDepth { depth: 0, in_brace: false, in_comment: false, skip: 0 }
    } else {
        css_depth_step(css_depth_run(s, i - 1), s[i - 1], peek_at(s, i))
    }
}

/// The engine's indent level is exactly the saturating nesting depth of
/// the structural braces it has recognized — braces inside comments do not
/// count. In particular the level never goes negative and never exceeds
/// the number of unmatched `{` seen so far.
pub proof fn lemma_css_level_is_structural_depth(s: Seq<char>, indent: nat, max: nat, i: int)
    requires
        0 <= i <= s.len(),
    ensures
        ({
            let st = css_run(s, indent, max, i);
            let d = css_depth_run(s, i);
            st.level == d.depth && st.in_brace == d.in_brace && st.in_comment == d.in_comment
                && st.skip == d.skip
        }),
    decreases i,
{
    if i > 0 {
        lemma_css_level_is_structural_depth(s, indent, max, i - 1);
    }
}

} // verus!
