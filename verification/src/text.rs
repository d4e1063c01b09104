//! Shared character-level helpers: whitespace classification, indentation
//! sequences, saturating counters for line lengths, and the small text
//! post-passes (space collapsing, trimming) that every engine ends with.

use vstd::prelude::*;

verus! {

/// The Unicode `White_Space` code points, exactly the characters for which
/// `char::is_whitespace` returns true.
pub open spec fn is_space_char(c: char) -> bool {
    let u = c as int;
    u == 0x09 || u == 0x0a || u == 0x0b || u == 0x0c || u == 0x0d || u == 0x20 || u == 0x85
        || u == 0xa0 || u == 0x1680 || (0x2000 <= u && u <= 0x200a) || u == 0x2028 || u == 0x2029
        || u == 0x202f || u == 0x205f || u == 0x3000
}

/// Runtime whitespace test agreeing with `is_space_char`.
pub fn is_space(c: char) -> (b: bool)
    ensures
        b == is_space_char(c),
{
    let u = c as u32;
    u == 0x09 || u == 0x0a || u == 0x0b || u == 0x0c || u == 0x0d || u == 0x20 || u == 0x85
        || u == 0xa0 || u == 0x1680 || (0x2000 <= u && u <= 0x200a) || u == 0x2028 || u == 0x2029
        || u == 0x202f || u == 0x205f || u == 0x3000
}

/// A run of `n` space characters (an indentation prefix).
pub open spec fn spaces(n: int) -> Seq<char> {
    Seq::new(if n >= 0 { n as nat } else { 0 }, |i: int| ' ')
}

/// `u` repeated `k` times, for arbitrary indent units.
pub open spec fn repeat_seq(u: Seq<char>, k: int) -> Seq<char>
    decreases k,
{
    if k <= 0 {
        Seq::empty()
    } else {
        repeat_seq(u, k - 1) + u
    }
}

/// Append `n` spaces to `out`.
pub fn push_spaces(out: &mut Vec<char>, n: u128)
    ensures
        final(out)@ == old(out)@ + spaces(n as int),
{
    let ghost base = out@;
    let mut j: u128 = 0;
    while j < n
        invariant
            j <= n,
            out@ == base + spaces(j as int),
        decreases n - j,
    {
        out.push(' ');
        proof {
            assert(base + spaces(j as int + 1) =~= (base + spaces(j as int)).push(' '));
        }
        j = j + 1;
    }
    proof {
        assert(out@ == base + spaces(n as int));
    }
}

/// Append `k` copies of `unit` to `out`.
pub fn push_repeat(out: &mut Vec<char>, unit: &Vec<char>, k: u128)
    ensures
        final(out)@ == old(out)@ + repeat_seq(unit@, k as int),
{
    let ghost base = out@;
    let mut j: u128 = 0;
    proof {
        assert(base + repeat_seq(unit@, 0) =~= base);
    }
    while j < k
        invariant
            j <= k,
            out@ == base + repeat_seq(unit@, j as int),
        decreases k - j,
    {
        let ghost mid = out@;
        let mut m: usize = 0;
        while m < unit.len()
            invariant
                m <= unit@.len(),
                out@ == mid + unit@.take(m as int),
            decreases unit@.len() - m,
        {
            let c = unit[m];
            out.push(c);
            proof {
                assert(mid + unit@.take(m as int + 1) =~= (mid + unit@.take(m as int)).push(
                    unit@[m as int],
                ));
            }
            m = m + 1;
        }
        proof {
            assert(unit@.take(unit@.len() as int) =~= unit@);
            assert(base + repeat_seq(unit@, j as int + 1) =~= (base + repeat_seq(
                unit@,
                j as int,
            )) + unit@);
        }
        j = j + 1;
    }
}

/// `x` clamped to the largest `u128` value.
pub open spec fn sat128(x: int) -> int {
    if x > u128::MAX {
        u128::MAX as int
    } else {
        x
    }
}

/// Saturating addition used to mirror the mathematical line counters.
pub fn sat_add128(a: u128, b: u128) -> (r: u128)
    ensures
        r as int == sat128(a as int + b as int),
{
    if a > u128::MAX - b {
        u128::MAX
    } else {
        a + b
    }
}

/// Saturating multiplication used to mirror the mathematical line counters.
pub fn sat_mul128(a: u128, b: u128) -> (r: u128)
    ensures
        r as int == sat128(a as int * b as int),
{
    if b == 0 {
        proof {
            assert(a as int * 0 == 0) by (nonlinear_arith);
        }
        0
    } else if a > u128::MAX / b {
        proof {
            let q = u128::MAX as int / b as int;
            vstd::arithmetic::div_mod::lemma_fundamental_div_mod(u128::MAX as int, b as int);
            assert((q + 1) * b as int == q * b as int + b as int) by (nonlinear_arith);
            vstd::arithmetic::mul::lemma_mul_inequality(q + 1, a as int, b as int);
            assert(a as int * b as int >= (q + 1) * b as int) by {
                vstd::arithmetic::mul::lemma_mul_is_commutative(q + 1, b as int);
                vstd::arithmetic::mul::lemma_mul_is_commutative(a as int, b as int);
            }
        }
        u128::MAX
    } else {
        proof {
            let q = u128::MAX as int / b as int;
            vstd::arithmetic::div_mod::lemma_fundamental_div_mod(u128::MAX as int, b as int);
            vstd::arithmetic::mul::lemma_mul_inequality(a as int, q, b as int);
            vstd::arithmetic::mul::lemma_mul_is_commutative(q, b as int);
            vstd::arithmetic::mul::lemma_mul_is_commutative(a as int, b as int);
            vstd::arithmetic::mul::lemma_mul_is_commutative(b as int, q);
            assert(b as int * q + u128::MAX as int % b as int == u128::MAX as int);
            assert(u128::MAX as int % b as int >= 0);
            assert(a as int * b as int <= q * b as int);
            assert(a as int * b as int <= u128::MAX as int);
        }
        a * b
    }
}

/// `indent * level` as an exact 128-bit value.
pub fn indent_times(indent: u8, level: usize) -> (r: u128)
    ensures
        r as int == indent as int * level as int,
        r as int <= 255 * usize::MAX as int,
{
    proof {
        assert(indent as int * level as int <= 255 * usize::MAX as int) by (nonlinear_arith)
            requires
                0 <= indent as int <= 255,
                0 <= level as int <= usize::MAX as int,
        ;
    }
    (indent as u128) * (level as u128)
}

/// A saturated counter and its exact value agree on comparisons against
/// any threshold a machine can hold.
pub proof fn lemma_sat_cmp(x: int, t: int)
    requires
        0 <= x,
        0 <= t < u128::MAX as int,
    ensures
        (sat128(x) > t) == (x > t),
{
}

/// One left-to-right pass replacing each non-overlapping pair of spaces by
/// a single space, as `str::replace("  ", " ")` does.
pub open spec fn collapse_double_spaces(s: Seq<char>) -> Seq<char>
    decreases s.len(),
{
    if s.len() >= 2 && s[0] == ' ' && s[1] == ' ' {
        seq![' '] + collapse_double_spaces(s.skip(2))
    } else if s.len() >= 1 {
        seq![s[0]] + collapse_double_spaces(s.skip(1))
    } else {
        Seq::empty()
    }
}

/// Runtime mirror of `collapse_double_spaces`.
pub fn collapse_double_spaces_vec(s: &Vec<char>) -> (r: Vec<char>)
    ensures
        r@ == collapse_double_spaces(s@),
{
    let mut out: Vec<char> = Vec::new();
    let mut i: usize = 0;
    proof {
        assert(s@.skip(0) =~= s@);
        assert(out@ + collapse_double_spaces(s@) =~= collapse_double_spaces(s@));
    }
    while i < s.len()
        invariant
            i <= s@.len(),
            collapse_double_spaces(s@) == out@ + collapse_double_spaces(s@.skip(i as int)),
        decreases s@.len() - i,
    {
        let ghost rest = s@.skip(i as int);
        proof {
            assert(rest[0] == s@[i as int]);
            if i as int + 1 < s@.len() {
                assert(rest[1] == s@[i as int + 1]);
            }
        }
        if s.len() - i > 1 && s[i] == ' ' && s[i + 1] == ' ' {
            out.push(' ');
            proof {
                assert(rest.skip(2) =~= s@.skip(i as int + 2));
                assert(out@ + collapse_double_spaces(s@.skip(i as int + 2)) =~= (out@.drop_last()
                    + collapse_double_spaces(rest)));
            }
            i = i + 2;
        } else {
            out.push(s[i]);
            proof {
                assert(rest.skip(1) =~= s@.skip(i as int + 1));
                assert(out@ + collapse_double_spaces(s@.skip(i as int + 1)) =~= (out@.drop_last()
                    + collapse_double_spaces(rest)));
            }
            i = i + 1;
        }
    }
    proof {
        assert(s@.skip(s@.len() as int) =~= Seq::<char>::empty());
        assert(out@ + collapse_double_spaces(Seq::<char>::empty()) =~= out@);
    }
    out
}

/// One left-to-right pass replacing each non-overlapping run of three
/// newlines by two, as `str::replace("\n\n\n", "\n\n")` does.
pub open spec fn collapse_triple_newlines(s: Seq<char>) -> Seq<char>
    decreases s.len(),
{
    if s.len() >= 3 && s[0] == '\n' && s[1] == '\n' && s[2] == '\n' {
        seq!['\n', '\n'] + collapse_triple_newlines(s.skip(3))
    } else if s.len() >= 1 {
        seq![s[0]] + collapse_triple_newlines(s.skip(1))
    } else {
        Seq::empty()
    }
}

/// Runtime mirror of `collapse_triple_newlines`.
pub fn collapse_triple_newlines_vec(s: &Vec<char>) -> (r: Vec<char>)
    ensures
        r@ == collapse_triple_newlines(s@),
{
    let mut out: Vec<char> = Vec::new();
    let mut i: usize = 0;
    proof {
        assert(s@.skip(0) =~= s@);
        assert(out@ + collapse_triple_newlines(s@) =~= collapse_triple_newlines(s@));
    }
    while i < s.len()
        invariant
            i <= s@.len(),
            collapse_triple_newlines(s@) == out@ + collapse_triple_newlines(s@.skip(i as int)),
        decreases s@.len() - i,
    {
        let ghost rest = s@.skip(i as int);
        proof {
            assert(rest[0] == s@[i as int]);
            if i as int + 1 < s@.len() {
                assert(rest[1] == s@[i as int + 1]);
            }
            if i as int + 2 < s@.len() {
                assert(rest[2] == s@[i as int + 2]);
            }
        }
        if s.len() - i > 2 && s[i] == '\n' && s[i + 1] == '\n' && s[i + 2] == '\n' {
            let ghost before = out@;
            out.push('\n');
            out.push('\n');
            proof {
                assert(rest.skip(3) =~= s@.skip(i as int + 3));
                assert(out@ + collapse_triple_newlines(s@.skip(i as int + 3)) =~= (before
                    + collapse_triple_newlines(rest)));
            }
            i = i + 3;
        } else {
            let ghost before = out@;
            out.push(s[i]);
            proof {
                assert(rest.skip(1) =~= s@.skip(i as int + 1));
                assert(out@ + collapse_triple_newlines(s@.skip(i as int + 1)) =~= (before
                    + collapse_triple_newlines(rest)));
            }
            i = i + 1;
        }
    }
    proof {
        assert(s@.skip(s@.len() as int) =~= Seq::<char>::empty());
        assert(out@ + collapse_triple_newlines(Seq::<char>::empty()) =~= out@);
    }
    out
}

/// `s` with every trailing space or tab removed.
pub open spec fn trim_end_space_tab(s: Seq<char>) -> Seq<char>
    decreases s.len(),
{
    if s.len() > 0 && (s.last() == ' ' || s.last() == '\t') {
        trim_end_space_tab(s.drop_last())
    } else {
        s
    }
}

/// `s` with every trailing whitespace character removed, as `str::trim_end`.
pub open spec fn trim_end_ws(s: Seq<char>) -> Seq<char>
    decreases s.len(),
{
    if s.len() > 0 && is_space_char(s.last()) {
        trim_end_ws(s.drop_last())
    } else {
        s
    }
}

/// `s` with every leading whitespace character removed, as `str::trim_start`.
pub open spec fn trim_start_ws(s: Seq<char>) -> Seq<char>
    decreases s.len(),
{
    if s.len() > 0 && is_space_char(s[0]) {
        trim_start_ws(s.skip(1))
    } else {
        s
    }
}

/// `s` with whitespace removed from both ends, as `str::trim`.
pub open spec fn trim_ws(s: Seq<char>) -> Seq<char> {
    trim_end_ws(trim_start_ws(s))
}

/// Runtime mirror of `trim_end_space_tab`, consuming its argument.
pub fn trim_end_space_tab_vec(s: Vec<char>) -> (r: Vec<char>)
    ensures
        r@ == trim_end_space_tab(s@),
{
    let mut v = s;
    let ghost orig = v@;
    let mut e: usize = v.len();
    proof {
        assert(orig.take(orig.len() as int) =~= orig);
    }
    while e > 0 && (v[e - 1] == ' ' || v[e - 1] == '\t')
        invariant
            e <= orig.len(),
            v@ == orig,
            trim_end_space_tab(orig) == trim_end_space_tab(orig.take(e as int)),
        decreases e,
    {
        proof {
            let pre = orig.take(e as int);
            assert(pre.last() == orig[e as int - 1]);
            assert(pre.drop_last() =~= orig.take(e as int - 1));
        }
        e = e - 1;
    }
    proof {
        let pre = orig.take(e as int);
        if e > 0 {
            assert(pre.last() == orig[e as int - 1]);
        }
        assert(trim_end_space_tab(pre) == pre);
    }
    v.truncate(e);
    proof {
        assert(v@ =~= orig.take(e as int));
    }
    v
}

/// Runtime mirror of `trim_end_ws`, consuming its argument.
pub fn trim_end_ws_vec(s: Vec<char>) -> (r: Vec<char>)
    ensures
        r@ == trim_end_ws(s@),
{
    let mut v = s;
    let ghost orig = v@;
    let mut e: usize = v.len();
    proof {
        assert(orig.take(orig.len() as int) =~= orig);
    }
    while e > 0 && is_space(v[e - 1])
        invariant
            e <= orig.len(),
            v@ == orig,
            trim_end_ws(orig) == trim_end_ws(orig.take(e as int)),
        decreases e,
    {
        proof {
            let pre = orig.take(e as int);
            assert(pre.last() == orig[e as int - 1]);
            assert(pre.drop_last() =~= orig.take(e as int - 1));
        }
        e = e - 1;
    }
    proof {
        let pre = orig.take(e as int);
        if e > 0 {
            assert(pre.last() == orig[e as int - 1]);
        }
        assert(trim_end_ws(pre) == pre);
    }
    v.truncate(e);
    proof {
        assert(v@ =~= orig.take(e as int));
    }
    v
}

/// Runtime mirror of `trim_ws`, copying the kept middle of `s`.
pub fn trim_ws_vec(s: &Vec<char>) -> (r: Vec<char>)
    ensures
        r@ == trim_ws(s@),
{
    let mut b: usize = 0;
    proof {
        assert(s@.skip(0) =~= s@);
    }
    while b < s.len() && is_space(s[b])
        invariant
            b <= s@.len(),
            trim_start_ws(s@) == trim_start_ws(s@.skip(b as int)),
        decreases s@.len() - b,
    {
        proof {
            let suf = s@.skip(b as int);
            assert(suf[0] == s@[b as int]);
            assert(suf.skip(1) =~= s@.skip(b as int + 1));
        }
        b = b + 1;
    }
    proof {
        let suf = s@.skip(b as int);
        if b < s@.len() {
            assert(suf[0] == s@[b as int]);
        }
        assert(trim_start_ws(suf) == suf);
        assert(trim_start_ws(s@) == s@.skip(b as int));
    }
    let mut e: usize = s.len();
    proof {
        assert(s@.skip(b as int) =~= s@.subrange(b as int, e as int));
    }
    while e > b && is_space(s[e - 1])
        invariant
            b <= e <= s@.len(),
            trim_end_ws(s@.skip(b as int)) == trim_end_ws(s@.subrange(b as int, e as int)),
        decreases e,
    {
        proof {
            let mid = s@.subrange(b as int, e as int);
            assert(mid.last() == s@[e as int - 1]);
            assert(mid.drop_last() =~= s@.subrange(b as int, e as int - 1));
        }
        e = e - 1;
    }
    proof {
        let mid = s@.subrange(b as int, e as int);
        if e > b {
            assert(mid.last() == s@[e as int - 1]);
        }
        assert(trim_end_ws(mid) == mid);
    }
    let mut out: Vec<char> = Vec::new();
    let mut j: usize = b;
    while j < e
        invariant
            b <= j <= e <= s@.len(),
            out@ == s@.subrange(b as int, j as int),
        decreases e - j,
    {
        out.push(s[j]);
        proof {
            assert(s@.subrange(b as int, j as int + 1) =~= s@.subrange(b as int, j as int).push(
                s@[j as int],
            ));
        }
        j = j + 1;
    }
    out
}

/// A trimmed sequence never ends in whitespace.
pub proof fn lemma_trim_end_ws_last(s: Seq<char>)
    ensures
        trim_end_ws(s).len() > 0 ==> !is_space_char(trim_end_ws(s).last()),
    decreases s.len(),
{
    if s.len() > 0 && is_space_char(s.last()) {
        lemma_trim_end_ws_last(s.drop_last());
    }
}

/// A sequence trimmed of spaces and tabs never ends in a space or tab.
pub proof fn lemma_trim_end_space_tab_last(s: Seq<char>)
    ensures
        trim_end_space_tab(s).len() > 0 ==> !(trim_end_space_tab(s).last() == ' '
            || trim_end_space_tab(s).last() == '\t'),
    decreases s.len(),
{
    if s.len() > 0 && (s.last() == ' ' || s.last() == '\t') {
        lemma_trim_end_space_tab_last(s.drop_last());
    }
}

/// Append the characters of `src` to `out`.
pub fn push_all(out: &mut Vec<char>, src: &Vec<char>)
    ensures
        final(out)@ == old(out)@ + src@,
{
    let ghost base = out@;
    let mut m: usize = 0;
    while m < src.len()
        invariant
            m <= src@.len(),
            out@ == base + src@.take(m as int),
        decreases src@.len() - m,
    {
        out.push(src[m]);
        proof {
            assert(base + src@.take(m as int + 1) =~= (base + src@.take(m as int)).push(
                src@[m as int],
            ));
        }
        m = m + 1;
    }
    proof {
        assert(src@.take(src@.len() as int) =~= src@);
    }
}

} // verus!
