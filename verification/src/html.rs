//! The HTML layout engine.
//!
//! Text outside tags is copied with whitespace collapsed and soft-wrapped
//! past the configured line length. A `<` starts tag capture; the captured
//! tag has its attributes normalized (`=` spaced, quoted values kept
//! verbatim, spaces collapsed) and is then classified: closing tags
//! un-indent, void and self-closing tags keep the level, doctype and
//! comment tags are copied, and ordinary opening tags indent. The engine
//! is specified by the one-character scanner `html_step`, and
//! `format_html` is proved to produce exactly the text of `html_spec`.

use vstd::prelude::*;
use crate::spacing::add_operator_spaces;
use crate::spacing::spacer_spec;
use crate::text::collapse_double_spaces;
use crate::text::collapse_double_spaces_vec;
use crate::text::indent_times;
use crate::text::is_space;
use crate::text::is_space_char;
use crate::text::push_all;
use crate::text::push_spaces;
use crate::text::sat128;
use crate::text::sat_add128;
use crate::text::spaces;
use crate::text::trim_end_space_tab;
use crate::text::trim_end_space_tab_vec;
use crate::text::lemma_sat_cmp;

verus! {

/// State of the attribute-normalizing pass over a captured tag.
#[verifier::ext_equal]
pub struct FtSt {
    /// Normalized tag text so far.
    pub fout: Seq<char>,
    /// The quote character of an open quoted value, if any.
    pub q: Option<char>,
    /// True directly after a spaced `=`, while whitespace is dropped.
    pub skipws: bool,
}

/// One step of the attribute normalizer on tag character `tc`.
pub open spec fn ft_step(st: FtSt, tc: char) -> FtSt {
    if st.q is Some {
        FtSt {
            fout: st.fout.push(tc),
            q: if tc == st.q->0 {
                None
            } else {
                st.q
            },
            skipws: false,
        }
    } else if st.skipws && is_space_char(tc) {
        st
    } else if tc == '=' {
        FtSt { fout: st.fout + seq![' ', '=', ' '], q: None, skipws: true }
    } else if tc == '"' || tc == '\'' {
        FtSt { fout: st.fout.push(tc), q: Some(tc), skipws: false }
    } else if tc == ' ' {
        FtSt {
            fout: if st.fout.len() == 0 || (st.fout.last() != ' ' && st.fout.last() != '=') {
                st.fout.push(' ')
            } else {
                st.fout
            },
            q: None,
            skipws: false,
        }
    } else {
        FtSt { fout: st.fout.push(tc), q: None, skipws: false }
    }
}

/// Normalizer state after the first `j` characters of the tag text.
pub open spec fn ft_run(buf: Seq<char>, j: int) -> FtSt
    decreases j,
{
    if j <= 0 {
        FtSt { fout: Seq::empty(), q: None, skipws: false }
    } else {
        ft_step(ft_run(buf, j - 1), buf[j - 1])
    }
}

/// The normalized text of a captured tag.
pub open spec fn ft_out(buf: Seq<char>) -> Seq<char> {
    ft_run(buf, buf.len() as int).fout
}

/// `s` with every trailing `>` removed.
pub open spec fn trim_end_gt(s: Seq<char>) -> Seq<char>
    decreases s.len(),
{
    if s.len() > 0 && s.last() == '>' {
        trim_end_gt(s.drop_last())
    } else {
        s
    }
}

/// The tag name: the prefix of the tag text up to the first whitespace.
pub open spec fn tag_name(t: Seq<char>) -> Seq<char>
    decreases t.len(),
{
    if t.len() == 0 {
        t
    } else if is_space_char(t[0]) {
        Seq::empty()
    } else {
        seq![t[0]] + tag_name(t.skip(1))
    }
}

/// The void elements, which have no closing tag.
pub open spec fn is_void_name(n: Seq<char>) -> bool {
    n == seq!['m', 'e', 't', 'a'] || n == seq!['l', 'i', 'n', 'k'] || n == seq!['i', 'm', 'g'] || n
        == seq!['b', 'r'] || n == seq!['h', 'r']
}

/// The last `m` characters of `out` are all spaces.
pub open spec fn ends_in_spaces(out: Seq<char>, m: int) -> bool {
    out.len() >= m && (forall|k: int| out.len() - m <= k < out.len() ==> out[k] == ' ')
}

/// Result of emitting one captured tag.
#[verifier::ext_equal]
pub struct TagEmit {
    /// Output after the tag and its following newline and indent.
    pub out: Seq<char>,
    /// Indent level after the tag.
    pub level: nat,
    /// Line length after the tag.
    pub line: nat,
}

/// Classify a captured tag and emit it. Closing tags un-indent (and drop
/// one trailing indent unit from the buffer when one is present), void and
/// self-closing tags keep the level, doctype/comment tags are copied, and
/// ordinary opening tags indent by one.
pub open spec fn emit_tag(out: Seq<char>, level: nat, buf: Seq<char>, indent: nat) -> TagEmit {
    let ftag = ft_out(buf);
    let tag_str = trim_end_gt(ftag);
    if tag_str.len() > 0 && tag_str[0] == '/' {
        let lev1 = if level > 0 {
            (level - 1) as nat
        } else {
            0nat
        };
        let m = (indent * (lev1 + 1)) as int;
        let out1 = if ends_in_spaces(out, m) {
            out.take(out.len() - indent)
        } else {
            out
        };
        TagEmit {
            out: out1 + tag_str + seq!['>', '\n'] + spaces((indent * lev1) as int),
            level: lev1,
            line: indent * lev1,
        }
    } else if (tag_str.len() > 0 && tag_str.last() == '/') || is_void_name(tag_name(tag_str)) {
        TagEmit {
            out: out + ftag + seq!['\n'] + spaces((indent * level) as int),
            level,
            line: indent * level,
        }
    } else if !(tag_str.len() > 0 && (tag_str[0] == '!' || tag_str[0] == '?')) {
        TagEmit {
            out: out + ftag + seq!['\n'] + spaces((indent * (level + 1)) as int),
            level: level + 1,
            line: indent * (level + 1),
        }
    } else {
        TagEmit {
            out: out + ftag + seq!['\n'] + spaces((indent * level) as int),
            level,
            line: indent * level,
        }
    }
}

/// A void element or self-closing tag never changes the indent level:
/// no matching closer is expected.
pub proof fn lemma_void_tag_keeps_level(out: Seq<char>, level: nat, buf: Seq<char>, indent: nat)
    requires
        ({
            let t = trim_end_gt(ft_out(buf));
            (!(t.len() > 0 && t[0] == '/')) && ((t.len() > 0 && t.last() == '/') || is_void_name(
                tag_name(t),
            ))
        }),
    ensures
        emit_tag(out, level, buf, indent).level == level,
{
}

/// Whether the captured tag text opens an HTML comment.
pub open spec fn starts_bang_dash_dash(b: Seq<char>) -> bool {
    b.len() >= 3 && b[0] == '!' && b[1] == '-' && b[2] == '-'
}

/// Whether the captured tag text closes an HTML comment.
pub open spec fn ends_dash_dash_gt(b: Seq<char>) -> bool {
    b.len() >= 3 && b[b.len() - 3] == '-' && b[b.len() - 2] == '-' && b[b.len() - 1] == '>'
}

/// Scanner state of the HTML engine.
#[verifier::ext_equal]
pub struct HtmlSt {
    /// Output emitted so far.
    pub out: Seq<char>,
    /// Current indent level.
    pub level: nat,
    /// Length of the current output line.
    pub line: nat,
    /// True while a tag is being captured.
    pub in_tag: bool,
    /// True inside an HTML comment.
    pub in_comment: bool,
    /// The tag text captured so far.
    pub tagbuf: Seq<char>,
}

/// One step of the HTML scanner on character `c`.
pub open spec fn html_step(st: HtmlSt, c: char, indent: nat, max: nat) -> HtmlSt {
    if st.in_tag {
        let buf1 = st.tagbuf.push(c);
        let ic1 = if starts_bang_dash_dash(buf1) {
            !ends_dash_dash_gt(buf1)
        } else {
            st.in_comment
        };
        if c == '>' && !ic1 {
            let e = emit_tag(st.out, st.level, buf1, indent);
            HtmlSt {
                out: e.out,
                level: e.level,
                line: e.line,
                in_tag: false,
                in_comment: ic1,
                tagbuf: Seq::empty(),
            }
        } else {
            HtmlSt { tagbuf: buf1, in_comment: ic1, ..st }
        }
    } else if st.in_comment {
        HtmlSt { out: st.out.push(c), line: st.line + 1, ..st }
    } else if c == '<' {
        let brk = st.out.len() > 0 && st.out.last() != '\n' && st.out.last() != ' ' && st.line
            > max;
        let out1 = if brk {
            st.out + seq!['\n'] + spaces((indent * st.level) as int)
        } else {
            st.out
        };
        let line1 = if brk {
            indent * st.level
        } else {
            st.line
        };
        HtmlSt { out: out1.push('<'), line: line1 + 1, in_tag: true, tagbuf: Seq::empty(), ..st }
    } else if is_space_char(c) {
        if st.out.len() > 0 && (st.out.last() == ' ' || st.out.last() == '\t') {
            st
        } else {
            HtmlSt { out: st.out.push(' '), line: st.line + 1, ..st }
        }
    } else {
        let out1 = st.out.push(c);
        let line1 = st.line + 1;
        if line1 > max {
            HtmlSt {
                out: out1 + seq!['\n'] + spaces((indent * st.level) as int),
                line: indent * st.level,
                ..st
            }
        } else {
            HtmlSt { out: out1, line: line1, ..st }
        }
    }
}

/// Scanner state after consuming the first `i` characters of `s`.
pub open spec fn html_run(s: Seq<char>, indent: nat, max: nat, i: int) -> HtmlSt
    decreases i,
{
    if i <= 0 {
        HtmlSt {
            out: Seq::empty(),
            level: 0,
            line: 0,
            in_tag: false,
            in_comment: false,
            tagbuf: Seq::empty(),
        }
    } else {
        html_step(html_run(s, indent, max, i - 1), s[i - 1], indent, max)
    }
}

/// A tag left unterminated at the end of the input is still emitted.
pub open spec fn html_finalize(st: HtmlSt, indent: nat) -> Seq<char> {
    if st.in_tag {
        emit_tag(st.out, st.level, st.tagbuf, indent).out
    } else {
        st.out
    }
}

/// The full HTML formatting of `s`: the scanner's text, operator-spaced,
/// with double spaces collapsed, trailing spaces and tabs stripped, and a
/// final newline guaranteed.
pub open spec fn html_spec(s: Seq<char>, indent: nat, max: nat) -> Seq<char> {
    let raw = html_finalize(html_run(s, indent, max, s.len() as int), indent);
    let f = trim_end_space_tab(collapse_double_spaces(spacer_spec(raw)));
    if f.len() > 0 && f.last() == '\n' {
        f
    } else {
        f.push('\n')
    }
}

/// Normalize the attribute text of a captured tag, as `ft_out`.
fn ft_exec(buf: &Vec<char>) -> (r: Vec<char>)
    ensures
        r@ == ft_out(buf@),
{
    let mut fout: Vec<char> = Vec::new();
    let mut q: Option<char> = None;
    let mut skipws: bool = false;
    let mut j: usize = 0;
    while j < buf.len()
        invariant
            j <= buf@.len(),
            ft_run(buf@, j as int) == (FtSt { fout: fout@, q, skipws }),
        decreases buf@.len() - j,
    {
        let ghost st0 = ft_run(buf@, j as int);
        let tc = buf[j];
        let in_quote = match q {
            Some(qc) => {
                fout.push(tc);
                if tc == qc {
                    q = None;
                }
                true
            },
            None => false,
        };
        if !in_quote {
            if skipws && is_space(tc) {
                // dropped
            } else if tc == '=' {
                fout.push(' ');
                fout.push('=');
                fout.push(' ');
                skipws = true;
            } else if tc == '"' || tc == '\'' {
                fout.push(tc);
                q = Some(tc);
                skipws = false;
            } else if tc == ' ' {
                if fout.len() == 0 {
                    fout.push(' ');
                } else {
                    let l = fout[fout.len() - 1];
                    if l != ' ' && l != '=' {
                        fout.push(' ');
                    }
                }
                skipws = false;
            } else {
                fout.push(tc);
                skipws = false;
            }
        }
        j = j + 1;
        proof {
            let st1 = ft_step(st0, tc);
            assert(ft_run(buf@, j as int) == st1);
            assert(st1 =~= (FtSt { fout: fout@, q, skipws }));
        }
    }
    fout
}

/// Copy `v` with its trailing `>` characters removed, as `trim_end_gt`.
fn trim_end_gt_vec(v: &Vec<char>) -> (r: Vec<char>)
    ensures
        r@ == trim_end_gt(v@),
{
    let mut e: usize = v.len();
    proof {
        assert(v@.take(v@.len() as int) =~= v@);
    }
    while e > 0 && v[e - 1] == '>'
        invariant
            e <= v@.len(),
            trim_end_gt(v@) == trim_end_gt(v@.take(e as int)),
        decreases e,
    {
        proof {
            let pre = v@.take(e as int);
            assert(pre.last() == v@[e as int - 1]);
            assert(pre.drop_last() =~= v@.take(e as int - 1));
        }
        e = e - 1;
    }
    proof {
        let pre = v@.take(e as int);
        if e > 0 {
            assert(pre.last() == v@[e as int - 1]);
        }
        assert(trim_end_gt(pre) == pre);
    }
    let mut out: Vec<char> = Vec::new();
    let mut j: usize = 0;
    while j < e
        invariant
            j <= e <= v@.len(),
            out@ == v@.take(j as int),
        decreases e - j,
    {
        out.push(v[j]);
        proof {
            assert(v@.take(j as int + 1) =~= v@.take(j as int).push(v@[j as int]));
        }
        j = j + 1;
    }
    out
}

/// The tag name of `t`, as `tag_name`.
fn tag_name_exec(t: &Vec<char>) -> (r: Vec<char>)
    ensures
        r@ == tag_name(t@),
{
    let mut name: Vec<char> = Vec::new();
    let mut j: usize = 0;
    proof {
        assert(t@.skip(0) =~= t@);
        assert(name@ + tag_name(t@) =~= tag_name(t@));
    }
    while j < t.len() && !is_space(t[j])
        invariant
            j <= t@.len(),
            tag_name(t@) == name@ + tag_name(t@.skip(j as int)),
        decreases t@.len() - j,
    {
        let ghost rest = t@.skip(j as int);
        proof {
            assert(rest[0] == t@[j as int]);
            assert(rest.skip(1) =~= t@.skip(j as int + 1));
        }
        let ghost before = name@;
        name.push(t[j]);
        proof {
            assert(name@ + tag_name(t@.skip(j as int + 1)) =~= before + (seq![rest[0]] + tag_name(
                rest.skip(1),
            )));
        }
        j = j + 1;
    }
    proof {
        let rest = t@.skip(j as int);
        if j < t@.len() {
            assert(rest[0] == t@[j as int]);
            assert(tag_name(rest) == Seq::<char>::empty());
        } else {
            assert(rest =~= Seq::<char>::empty());
        }
        assert(name@ + Seq::<char>::empty() =~= name@);
    }
    name
}

/// Whether `n` is a void element name, as `is_void_name`.
fn is_void_name_exec(n: &Vec<char>) -> (b: bool)
    ensures
        b == is_void_name(n@),
{
    let meta = n.len() == 4 && n[0] == 'm' && n[1] == 'e' && n[2] == 't' && n[3] == 'a';
    let link = n.len() == 4 && n[0] == 'l' && n[1] == 'i' && n[2] == 'n' && n[3] == 'k';
    let img = n.len() == 3 && n[0] == 'i' && n[1] == 'm' && n[2] == 'g';
    let br = n.len() == 2 && n[0] == 'b' && n[1] == 'r';
    let hr = n.len() == 2 && n[0] == 'h' && n[1] == 'r';
    proof {
        if meta {
            assert(n@ =~= seq!['m', 'e', 't', 'a']);
        }
        if link {
            assert(n@ =~= seq!['l', 'i', 'n', 'k']);
        }
        if img {
            assert(n@ =~= seq!['i', 'm', 'g']);
        }
        if br {
            assert(n@ =~= seq!['b', 'r']);
        }
        if hr {
            assert(n@ =~= seq!['h', 'r']);
        }
    }
    meta || link || img || br || hr
}

/// Emit one captured tag into the buffer, as `emit_tag` describes.
fn emit_tag_exec(out: &mut Vec<char>, level: &mut usize, line: &mut u128, buf: &Vec<char>, indent: u8)
    requires
        *old(level) < usize::MAX,
    ensures
        ({
            let e = emit_tag(old(out)@, *old(level) as nat, buf@, indent as nat);
            final(out)@ == e.out && *final(level) as nat == e.level && *final(line) as int == sat128(
                e.line as int,
            )
        }),
{
    let ftag = ft_exec(buf);
    let tag_str = trim_end_gt_vec(&ftag);
    if tag_str.len() > 0 && tag_str[0] == '/' {
        if *level > 0 {
            *level = *level - 1;
        }
        let need = indent_times(indent, *level + 1);
        let mut matched: bool = false;
        if (out.len() as u128) >= need {
            proof {
                assert(need <= usize::MAX as u128);
            }
            let n_usize = need as usize;
            let mut all: bool = true;
            let mut k: usize = 0;
            while k < n_usize
                invariant
                    n_usize <= out@.len(),
                    k <= n_usize,
                    all == (forall|t: int|
                        out@.len() - n_usize <= t < out@.len() - n_usize + k ==> out@[t] == ' '),
                decreases n_usize - k,
            {
                if out[out.len() - n_usize + k] != ' ' {
                    all = false;
                }
                k = k + 1;
            }
            matched = all;
            proof {
                assert(matched == ends_in_spaces(out@, need as int));
            }
        }
        proof {
            if (out@.len() as u128) < need {
                assert(!ends_in_spaces(out@, need as int));
            }
        }
        if matched {
            proof {
                assert(need as int >= indent as int) by (nonlinear_arith)
                    requires
                        need as int == indent as int * (*level as int + 1),
                        *level as int >= 0,
                        indent as int >= 0,
                ;
            }
            let keep = out.len() - (indent as usize);
            out.truncate(keep);
            proof {
                assert(out@ =~= old(out)@.take(old(out)@.len() - indent as int));
            }
        }
        push_all(out, &tag_str);
        out.push('>');
        out.push('\n');
        push_spaces(out, indent_times(indent, *level));
        *line = indent_times(indent, *level);
    } else {
        let self_closing = tag_str.len() > 0 && tag_str[tag_str.len() - 1] == '/';
        let name = tag_name_exec(&tag_str);
        let is_void = is_void_name_exec(&name);
        if self_closing || is_void {
            push_all(out, &ftag);
            out.push('\n');
            push_spaces(out, indent_times(indent, *level));
            *line = indent_times(indent, *level);
        } else if !(tag_str.len() > 0 && (tag_str[0] == '!' || tag_str[0] == '?')) {
            *level = *level + 1;
            push_all(out, &ftag);
            out.push('\n');
            push_spaces(out, indent_times(indent, *level));
            *line = indent_times(indent, *level);
        } else {
            push_all(out, &ftag);
            out.push('\n');
            push_spaces(out, indent_times(indent, *level));
            *line = indent_times(indent, *level);
        }
    }
}

/// Reformat HTML text: exactly the text of `html_spec`, which always ends
/// in a newline.
#[verifier::rlimit(100)]
pub fn format_html(content: &Vec<char>, indent: u8, max_line_length: usize) -> (r: Vec<char>)
    ensures
        r@ == html_spec(content@, indent as nat, max_line_length as nat),
        r@.len() > 0 && r@.last() == '\n',
{
    let ghost ind = indent as nat;
    let ghost mx = max_line_length as nat;
    let mut out: Vec<char> = Vec::new();
    let mut level: usize = 0;
    let mut line: u128 = 0;
    let mut in_tag: bool = false;
    let mut in_comment: bool = false;
    let mut tagbuf: Vec<char> = Vec::new();
    let mut i: usize = 0;
    while i < content.len()
        invariant
            ind == indent as nat,
            mx == max_line_length as nat,
            i <= content@.len(),
            level <= i,
            in_tag ==> level + tagbuf@.len() < i,
            ({
                let st = html_run(content@, ind, mx, i as int);
                out@ == st.out && level as nat == st.level && (line as int) == sat128(
                    st.line as int,
                ) && in_tag == st.in_tag && in_comment == st.in_comment && tagbuf@ == st.tagbuf
            }),
        decreases content@.len() - i,
    {
        let ghost st0 = html_run(content@, ind, mx, i as int);
        let c = content[i];
        let ghost st1 = html_step(st0, c, ind, mx);
        if in_tag {
            tagbuf.push(c);
            let starts_comment = tagbuf.len() >= 3 && tagbuf[0] == '!' && tagbuf[1] == '-'
                && tagbuf[2] == '-';
            if starts_comment {
                let ends_comment = tagbuf[tagbuf.len() - 3] == '-' && tagbuf[tagbuf.len() - 2]
                    == '-' && tagbuf[tagbuf.len() - 1] == '>';
                in_comment = !ends_comment;
            }
            if c == '>' && !in_comment {
                emit_tag_exec(&mut out, &mut level, &mut line, &tagbuf, indent);
                in_tag = false;
                tagbuf = Vec::new();
            }
            proof {
                assert(tagbuf@ =~= st1.tagbuf);
            }
        } else if in_comment {
            out.push(c);
            line = sat_add128(line, 1);
        } else if c == '<' {
            let last_ok = out.len() > 0 && {
                let l = out[out.len() - 1];
                l != '\n' && l != ' '
            };
            proof {
                lemma_sat_cmp(st0.line as int, mx as int);
            }
            if last_ok && line > (max_line_length as u128) {
                out.push('\n');
                push_spaces(&mut out, indent_times(indent, level));
                line = indent_times(indent, level);
            }
            out.push('<');
            line = sat_add128(line, 1);
            in_tag = true;
            tagbuf = Vec::new();
            proof {
                assert(tagbuf@ =~= st1.tagbuf);
            }
        } else if is_space(c) {
            if out.len() > 0 && (out[out.len() - 1] == ' ' || out[out.len() - 1] == '\t') {
                // collapsed
            } else {
                out.push(' ');
                line = sat_add128(line, 1);
            }
        } else {
            out.push(c);
            line = sat_add128(line, 1);
            proof {
                lemma_sat_cmp(st0.line as int + 1, mx as int);
            }
            if line > (max_line_length as u128) {
                out.push('\n');
                push_spaces(&mut out, indent_times(indent, level));
                line = indent_times(indent, level);
            }
        }
        i = i + 1;
        proof {
            assert(html_run(content@, ind, mx, i as int) == st1);
            assert(out@ =~= st1.out);
        }
    }
    if in_tag {
        emit_tag_exec(&mut out, &mut level, &mut line, &tagbuf, indent);
    }
    proof {
        assert(out@ =~= html_finalize(html_run(content@, ind, mx, content@.len() as int), ind));
    }
    let spaced = add_operator_spaces(&out);
    let collapsed = collapse_double_spaces_vec(&spaced);
    let mut trimmed = trim_end_space_tab_vec(collapsed);
    if trimmed.len() == 0 || trimmed[trimmed.len() - 1] != '\n' {
        trimmed.push('\n');
    }
    trimmed
}

/// The number of occurrences of `c` among the first `i` characters of `s`.
pub open spec fn count_char(s: Seq<char>, c: char, i: int) -> int
    decreases i,
{
    if i <= 0 {
        0
    } else {
        count_char(s, c, i - 1) + if s[i - 1] == c {
            1int
        } else {
            0int
        }
    }
}

/// The engine's indent level never goes negative and never exceeds the
/// number of tag openers (`<`) seen so far: only a captured opening tag
/// can raise it, and each capture begins at a `<`.
pub proof fn lemma_html_level_le_tag_opens(s: Seq<char>, indent: nat, max: nat, i: int)
    requires
        0 <= i <= s.len(),
    ensures
        ({
            let st = html_run(s, indent, max, i);
            st.level as int + (if st.in_tag {
                1int
            } else {
                0int
            }) <= count_char(s, '<', i)
        }),
    decreases i,
{
    if i > 0 {
        lemma_html_level_le_tag_opens(s, indent, max, i - 1);
    }
}

} // verus!
