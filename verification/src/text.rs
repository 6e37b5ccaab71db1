use vstd::prelude::*;

verus! {

/// The characters of a string slice, in order.
///
/// Trusted: `str::chars` collected into a `Vec`, which yields the string's characters in
/// order (std documentation of `chars`).
#[verifier::external_body]
pub fn chars_of(s: &str) -> (r: Vec<char>)
    ensures
        r@ == s@,
{
    s.chars().collect()
}

/// The string made of the given characters, in order.
///
/// Trusted: `Iterator::collect` of `char`s into a `String`, which appends each character
/// in turn (std documentation of `FromIterator<char> for String`).
#[verifier::external_body]
pub fn string_from(v: &Vec<char>) -> (r: String)
    ensures
        r@ == v@,
{
    v.iter().collect()
}

/// Appends the characters of `s` to `out`.
pub fn push_str(out: &mut Vec<char>, s: &str)
    ensures
        final(out)@ == old(out)@ + s@,
{
    let mut cs = chars_of(s);
    out.append(&mut cs);
}

/// Appends the characters of `s` to `out`.
pub fn push_chars(out: &mut Vec<char>, s: &Vec<char>)
    ensures
        final(out)@ == old(out)@ + s@,
{
    let mut i: usize = 0;
    while i < s.len()
        invariant
            0 <= i <= s.len(),
            out@ == old(out)@ + s@.subrange(0, i as int),
        decreases s.len() - i,
    {
        out.push(s[i]);
        i = i + 1;
        assert(s@.subrange(0, i as int) == s@.subrange(0, i - 1) + seq![s@[i - 1]]);
    }
    assert(s@.subrange(0, s.len() as int) == s@);
}

/// The upper-case hexadecimal digit for `n < 16`.
pub open spec fn hex_digit_spec(n: int) -> char {
    if n < 10 {
        ((n + 48) as u8) as char
    } else {
        ((n - 10 + 65) as u8) as char
    }
}

/// A byte as two upper-case hexadecimal digits, as `{:02X}` formats it.
pub open spec fn hex2_spec(b: u8) -> Seq<char> {
    seq![hex_digit_spec(b as int / 16), hex_digit_spec(b as int % 16)]
}

/// The decimal digit for `n < 10`.
pub open spec fn digit_spec(n: int) -> char {
    ((n + 48) as u8) as char
}

/// A natural number in decimal, without leading zeros, as `{}` formats it.
pub open spec fn dec_spec(n: nat) -> Seq<char>
    decreases n,
{
    if n < 10 {
        seq![digit_spec(n as int)]
    } else {
        dec_spec(n / 10) + seq![digit_spec((n % 10) as int)]
    }
}

/// A signed number in decimal, with a leading `-` when negative.
pub open spec fn signed_dec_spec(n: int) -> Seq<char> {
    if n < 0 {
        seq!['-'] + dec_spec((-n) as nat)
    } else {
        dec_spec(n as nat)
    }
}

pub fn hex_digit(n: u8) -> (c: char)
    requires
        n < 16,
    ensures
        c == hex_digit_spec(n as int),
{
    if n < 10 {
        (n + 48) as char
    } else {
        (n - 10 + 65) as char
    }
}

/// Appends `b` as two upper-case hexadecimal digits.
pub fn push_hex2(out: &mut Vec<char>, b: u8)
    ensures
        final(out)@ == old(out)@ + hex2_spec(b),
{
    out.push(hex_digit(b / 16));
    out.push(hex_digit(b % 16));
}

/// The decimal digits of `n`.
pub fn decimal(n: u64) -> (r: Vec<char>)
    ensures
        r@ == dec_spec(n as nat),
    decreases n,
{
    if n < 10 {
        let mut v = Vec::new();
        v.push(((n as u8) + 48) as char);
        v
    } else {
        let mut v = decimal(n / 10);
        v.push((((n % 10) as u8) + 48) as char);
        v
    }
}

/// Appends `n` in decimal.
pub fn push_decimal(out: &mut Vec<char>, n: u64)
    ensures
        final(out)@ == old(out)@ + dec_spec(n as nat),
{
    let d = decimal(n);
    push_chars(out, &d);
}

/// Appends the signed `n` in decimal.
pub fn push_signed_decimal(out: &mut Vec<char>, n: i64)
    requires
        n > i64::MIN,
    ensures
        final(out)@ == old(out)@ + signed_dec_spec(n as int),
{
    if n < 0 {
        out.push('-');
        let ghost mid = out@;
        push_decimal(out, (-n) as u64);
        assert(out@ == old(out)@ + signed_dec_spec(n as int));
    } else {
        push_decimal(out, n as u64);
    }
}

/// `s` has `p` at position `i`.
pub open spec fn has_at(s: Seq<char>, p: Seq<char>, i: int) -> bool {
    0 <= i && i + p.len() <= s.len() && s.subrange(i, i + p.len()) == p
}

/// `s` contains `p` as a contiguous part.
pub open spec fn contains_spec(s: Seq<char>, p: Seq<char>) -> bool {
    exists|i: int| 0 <= i <= s.len() - p.len() && #[trigger] has_at(s, p, i)
}

/// Every non-overlapping occurrence of the non-empty `p` in `s`, found from the left, replaced
/// by `t` (the result of `str::replace`).
pub open spec fn replace_spec(s: Seq<char>, p: Seq<char>, t: Seq<char>) -> Seq<char>
    decreases s.len(),
{
    if p.len() == 0 || s.len() < p.len() {
        s
    } else if s.subrange(0, p.len() as int) == p {
        t + replace_spec(s.subrange(p.len() as int, s.len() as int), p, t)
    } else {
        seq![s[0]] + replace_spec(s.subrange(1, s.len() as int), p, t)
    }
}

/// Whether `s` has `p` at position `i`.
pub fn matches_at(s: &Vec<char>, p: &Vec<char>, i: usize) -> (r: bool)
    ensures
        r == has_at(s@, p@, i as int),
{
    if i > s.len() || p.len() > s.len() - i {
        return false;
    }
    let mut k: usize = 0;
    while k < p.len()
        invariant
            i + p.len() <= s.len(),
            0 <= k <= p.len(),
            forall|j: int| 0 <= j < k ==> s@[i + j] == p@[j],
        decreases p.len() - k,
    {
        if s[i + k] != p[k] {
            assert(s@.subrange(i as int, i + p.len())[k as int] != p@[k as int]);
            return false;
        }
        k = k + 1;
    }
    assert(s@.subrange(i as int, i + p.len()) =~= p@);
    true
}

/// Whether `s` starts with `p`.
pub fn starts_with(s: &Vec<char>, p: &Vec<char>) -> (r: bool)
    ensures
        r == has_at(s@, p@, 0),
{
    matches_at(s, p, 0)
}

/// Whether `s` ends with `p`.
pub fn ends_with(s: &Vec<char>, p: &Vec<char>) -> (r: bool)
    ensures
        r == (p@.len() <= s@.len() && has_at(s@, p@, s@.len() - p@.len())),
{
    if p.len() > s.len() {
        return false;
    }
    matches_at(s, p, s.len() - p.len())
}

/// Whether `p` occurs in `s`.
pub fn contains(s: &Vec<char>, p: &Vec<char>) -> (r: bool)
    ensures
        r == contains_spec(s@, p@),
{
    if p.len() > s.len() {
        return false;
    }
    let last = s.len() - p.len();
    let mut i: usize = 0;
    loop
        invariant
            last == s.len() - p.len(),
            0 <= i <= last,
            forall|j: int| 0 <= j < i ==> !has_at(s@, p@, j),
        decreases last - i,
    {
        if matches_at(s, p, i) {
            return true;
        }
        if i == last {
            return false;
        }
        i = i + 1;
    }
}

proof fn lemma_replace_step(s: Seq<char>, p: Seq<char>, t: Seq<char>, i: int)
    requires
        p.len() > 0,
        0 <= i <= s.len(),
    ensures
        s.len() - i < p.len() ==> replace_spec(s.subrange(i, s.len() as int), p, t) == s.subrange(
            i,
            s.len() as int,
        ),
        i + p.len() <= s.len() && has_at(s, p, i) ==> replace_spec(
            s.subrange(i, s.len() as int),
            p,
            t,
        ) == t + replace_spec(s.subrange(i + p.len(), s.len() as int), p, t),
        i + p.len() <= s.len() && !has_at(s, p, i) ==> replace_spec(
            s.subrange(i, s.len() as int),
            p,
            t,
        ) == seq![s[i]] + replace_spec(s.subrange(i + 1, s.len() as int), p, t),
{
    let rest = s.subrange(i, s.len() as int);
    if i + p.len() <= s.len() {
        assert(rest.subrange(0, p.len() as int) == s.subrange(i, i + p.len()));
        assert(rest.subrange(p.len() as int, rest.len() as int) == s.subrange(
            i + p.len(),
            s.len() as int,
        ));
        assert(rest.subrange(1, rest.len() as int) == s.subrange(i + 1, s.len() as int));
    }
}

/// `s` with every occurrence of the non-empty `p` replaced by `t`, left to right.
pub fn replace_all(s: &Vec<char>, p: &Vec<char>, t: &Vec<char>) -> (r: Vec<char>)
    requires
        p@.len() > 0,
    ensures
        r@ == replace_spec(s@, p@, t@),
{
    let mut out: Vec<char> = Vec::new();
    let mut i: usize = 0;
    assert(s@.subrange(0, s@.len() as int) == s@);
    while i < s.len()
        invariant
            p@.len() > 0,
            0 <= i <= s.len(),
            out@ + replace_spec(s@.subrange(i as int, s@.len() as int), p@, t@) == replace_spec(
                s@,
                p@,
                t@,
            ),
        decreases s.len() - i,
    {
        proof {
            lemma_replace_step(s@, p@, t@, i as int);
        }
        if p.len() <= s.len() - i && matches_at(s, p, i) {
            let ghost before = out@;
            push_chars(&mut out, t);
            assert(out@ == before + t@);
            assert((before + t@) + replace_spec(s@.subrange(i + p.len(), s@.len() as int), p@, t@)
                == before + (t@ + replace_spec(
                s@.subrange(i + p.len(), s@.len() as int),
                p@,
                t@,
            )));
            i = i + p.len();
        } else if p.len() > s.len() - i {
            let ghost start = i;
            let ghost before = out@;
            while i < s.len()
                invariant
                    start <= i <= s.len(),
                    out@ == before + s@.subrange(start as int, i as int),
                decreases s.len() - i,
            {
                out.push(s[i]);
                assert(s@.subrange(start as int, i + 1) == s@.subrange(start as int, i as int)
                    + seq![s@[i as int]]);
                i = i + 1;
            }
            assert(s@.subrange(i as int, s@.len() as int) =~= Seq::<char>::empty());
            assert(replace_spec(Seq::<char>::empty(), p@, t@) == Seq::<char>::empty());
            assert(out@ + Seq::<char>::empty() == out@);
        } else {
            let ghost before = out@;
            out.push(s[i]);
            assert(out@ == before + seq![s@[i as int]]);
            i = i + 1;
        }
    }
    assert(s@.subrange(s@.len() as int, s@.len() as int) =~= Seq::<char>::empty());
    out
}

/// Unicode's White_Space property, the set `char::is_whitespace` tests.
pub open spec fn white_space_spec(c: char) -> bool {
    let v = c as u32;
    (0x09 <= v <= 0x0d) || v == 0x20 || v == 0x85 || v == 0xa0 || v == 0x1680 || (0x2000 <= v <= 0x200a)
        || v == 0x2028 || v == 0x2029 || v == 0x202f || v == 0x205f || v == 0x3000
}

pub fn is_white_space(c: char) -> (r: bool)
    ensures
        r == white_space_spec(c),
{
    let v = c as u32;
    (0x09 <= v && v <= 0x0d) || v == 0x20 || v == 0x85 || v == 0xa0 || v == 0x1680 || (0x2000 <= v && v <= 0x200a)
        || v == 0x2028 || v == 0x2029 || v == 0x202f || v == 0x205f || v == 0x3000
}

/// `s` without the white space at its start.
pub open spec fn trim_start_spec(s: Seq<char>) -> Seq<char>
    decreases s.len(),
{
    if s.len() > 0 && white_space_spec(s[0]) {
        trim_start_spec(s.drop_first())
    } else {
        s
    }
}

/// `s` without the white space at its end.
pub open spec fn trim_end_spec(s: Seq<char>) -> Seq<char>
    decreases s.len(),
{
    if s.len() > 0 && white_space_spec(s.last()) {
        trim_end_spec(s.drop_last())
    } else {
        s
    }
}

/// `s` without white space at either end, as `str::trim` gives it.
pub open spec fn trim_spec(s: Seq<char>) -> Seq<char> {
    trim_end_spec(trim_start_spec(s))
}

proof fn lemma_trim_start_skip(s: Seq<char>, i: int)
    requires
        0 <= i <= s.len(),
        forall|k: int| 0 <= k < i ==> white_space_spec(#[trigger] s[k]),
    ensures
        trim_start_spec(s) == trim_start_spec(s.subrange(i, s.len() as int)),
    decreases i,
{
    if i > 0 {
        assert(s.drop_first().subrange(i - 1, s.drop_first().len() as int) == s.subrange(i, s.len() as int));
        lemma_trim_start_skip(s.drop_first(), i - 1);
    } else {
        assert(s.subrange(0, s.len() as int) == s);
    }
}

proof fn lemma_trim_end_skip(s: Seq<char>, j: int)
    requires
        0 <= j <= s.len(),
        forall|k: int| j <= k < s.len() ==> white_space_spec(#[trigger] s[k]),
    ensures
        trim_end_spec(s) == trim_end_spec(s.subrange(0, j)),
    decreases s.len() - j,
{
    if j < s.len() {
        assert(s.drop_last().subrange(0, j) == s.subrange(0, j));
        lemma_trim_end_skip(s.drop_last(), j);
    } else {
        assert(s.subrange(0, s.len() as int) == s);
    }
}

/// `s` without white space at either end.
pub fn trim(s: &Vec<char>) -> (r: Vec<char>)
    ensures
        r@ == trim_spec(s@),
{
    let mut i: usize = 0;
    while i < s.len() && is_white_space(s[i])
        invariant
            i <= s.len(),
            forall|k: int| 0 <= k < i ==> white_space_spec(#[trigger] s@[k]),
        decreases s.len() - i,
    {
        i = i + 1;
    }
    let mut j: usize = s.len();
    while j > i && is_white_space(s[j - 1])
        invariant
            i <= j <= s.len(),
            forall|k: int| j <= k < s.len() ==> white_space_spec(#[trigger] s@[k]),
        decreases j - i,
    {
        j = j - 1;
    }
    let mut r: Vec<char> = Vec::new();
    let mut k: usize = i;
    while k < j
        invariant
            i <= k <= j,
            j <= s.len(),
            r@ == s@.subrange(i as int, k as int),
        decreases j - k,
    {
        r.push(s[k]);
        k = k + 1;
    }
    proof {
        lemma_trim_start_skip(s@, i as int);
        let rest = s@.subrange(i as int, s@.len() as int);
        if i < s.len() {
            assert(!white_space_spec(rest[0]));
        }
        assert(trim_start_spec(rest) == rest);
        assert forall|t: int| j - i <= t < rest.len() implies white_space_spec(#[trigger] rest[t]) by {
            assert(rest[t] == s@[i + t]);
        }
        lemma_trim_end_skip(rest, j - i);
        let core = rest.subrange(0, j - i);
        assert(core == s@.subrange(i as int, j as int));
        if j > i {
            assert(!white_space_spec(core.last()));
        }
        assert(trim_end_spec(core) == core);
    }
    r
}

/// The position of the first `'\n'` in `s` at or after `from`, or `s.len()`.
pub open spec fn line_end(s: Seq<char>, from: int) -> int
    decreases s.len() - from,
{
    if from >= s.len() || s[from] == '\n' {
        from
    } else {
        line_end(s, from + 1)
    }
}

/// A line without one trailing carriage return.
pub open spec fn strip_cr(l: Seq<char>) -> Seq<char> {
    if l.len() > 0 && l.last() == '\r' {
        l.drop_last()
    } else {
        l
    }
}

/// The lines of `s` from position `from` on, split at `'\n'` with a trailing `'\r'` dropped
/// from each, and no empty line after a final `'\n'`: what `str::lines` yields.
pub open spec fn lines_from(s: Seq<char>, from: int) -> Seq<Seq<char>>
    decreases s.len() + 1 - from,
{
    if from < 0 || from >= s.len() {
        Seq::empty()
    } else {
        proof {
            lemma_line_end_bounds(s, from);
        }
        let e = line_end(s, from);
        seq![strip_cr(s.subrange(from, e))] + lines_from(s, e + 1)
    }
}

/// The lines of `s`, as `str::lines` yields them.
pub open spec fn lines_spec(s: Seq<char>) -> Seq<Seq<char>> {
    lines_from(s, 0)
}

pub proof fn lemma_line_end_bounds(s: Seq<char>, from: int)
    requires
        0 <= from <= s.len(),
    ensures
        from <= line_end(s, from) <= s.len(),
        line_end(s, from) < s.len() ==> s[line_end(s, from)] == '\n',
        forall|k: int| from <= k < line_end(s, from) ==> s[k] != '\n',
    decreases s.len() - from,
{
    if from < s.len() && s[from] != '\n' {
        lemma_line_end_bounds(s, from + 1);
    }
}

/// The lines of `s`, as `str::lines` yields them.
pub fn lines(s: &Vec<char>) -> (r: Vec<Vec<char>>)
    ensures
        r@.len() == lines_spec(s@).len(),
        forall|i: int| 0 <= i < r@.len() ==> #[trigger] r@[i]@ == lines_spec(s@)[i],
{
    let mut out: Vec<Vec<char>> = Vec::new();
    let mut start: usize = 0;
    while start < s.len()
        invariant
            start <= s.len(),
            out@.len() + lines_from(s@, start as int).len() == lines_spec(s@).len(),
            forall|i: int| 0 <= i < out@.len() ==> #[trigger] out@[i]@ == lines_spec(s@)[i],
            forall|i: int|
                0 <= i < lines_from(s@, start as int).len() ==> #[trigger] lines_from(s@, start as int)[i]
                    == lines_spec(s@)[out@.len() + i],
        decreases s.len() - start,
    {
        let mut e: usize = start;
        while e < s.len() && s[e] != '\n'
            invariant
                start <= e <= s.len(),
                line_end(s@, start as int) == line_end(s@, e as int),
            decreases s.len() - e,
        {
            e = e + 1;
        }
        let mut line: Vec<char> = Vec::new();
        let mut k: usize = start;
        while k < e
            invariant
                start <= k <= e,
                e <= s.len(),
                line@ == s@.subrange(start as int, k as int),
            decreases e - k,
        {
            line.push(s[k]);
            k = k + 1;
        }
        if line.len() > 0 && line[line.len() - 1] == '\r' {
            line.pop();
        }
        proof {
            assert(line_end(s@, e as int) == e);
            let rest = lines_from(s@, start as int);
            assert(rest[0] == line@);
            assert(lines_from(s@, start as int) == seq![line@] + lines_from(s@, e + 1));
            assert forall|i: int| 0 <= i < lines_from(s@, e + 1).len() implies #[trigger] lines_from(s@, e + 1)[i]
                == lines_spec(s@)[out@.len() + 1 + i] by {
                assert(lines_from(s@, e + 1)[i] == rest[i + 1]);
            }
        }
        out.push(line);
        start = if e < s.len() {
            e + 1
        } else {
            e
        };
    }
    out
}

/// Whether two strings hold the same characters.
pub fn str_eq(a: &str, b: &str) -> (r: bool)
    ensures
        r == (a@ == b@),
{
    let av = chars_of(a);
    let bv = chars_of(b);
    if av.len() != bv.len() {
        return false;
    }
    let r = starts_with(&av, &bv);
    proof {
        assert(av@.subrange(0, av@.len() as int) == av@);
    }
    r
}

} // verus!
