//! Character-level text primitives used by the mesh importer, each stated
//! against the meaning that Rust's `str` methods give them: `char::is_whitespace`,
//! `str::lines`, `str::trim`, `str::split_whitespace` and integer `parse`.

use vstd::prelude::*;

verus! {

/// Unicode `White_Space`, the property behind `char::is_whitespace`.
pub open spec fn is_whitespace(c: char) -> bool {
    let u = c as u32;
    ||| 0x09 <= u <= 0x0D
    ||| u == 0x20
    ||| u == 0x85
    ||| u == 0xA0
    ||| u == 0x1680
    ||| 0x2000 <= u <= 0x200A
    ||| u == 0x2028
    ||| u == 0x2029
    ||| u == 0x202F
    ||| u == 0x205F
    ||| u == 0x3000
}

/// Decides `is_whitespace` for one character.
pub fn char_is_whitespace(c: char) -> (b: bool)
    ensures
        b == is_whitespace(c),
{
    let u = c as u32;
    (0x09 <= u && u <= 0x0D) || u == 0x20 || u == 0x85 || u == 0xA0 || u == 0x1680 || (0x2000
        <= u && u <= 0x200A) || u == 0x2028 || u == 0x2029 || u == 0x202F || u == 0x205F || u
        == 0x3000
}

/// `s` without its leading whitespace.
pub open spec fn trim_start(s: Seq<char>) -> Seq<char>
    decreases s.len(),
{
    if s.len() > 0 && is_whitespace(s[0]) {
        trim_start(s.drop_first())
    } else {
        s
    }
}

/// `s` without its trailing whitespace.
pub open spec fn trim_end(s: Seq<char>) -> Seq<char>
    decreases s.len(),
{
    if s.len() > 0 && is_whitespace(s.last()) {
        trim_end(s.drop_last())
    } else {
        s
    }
}

/// `s` without leading and trailing whitespace, as `str::trim` gives it.
pub open spec fn trim(s: Seq<char>) -> Seq<char> {
    trim_end(trim_start(s))
}

pub proof fn lemma_trim_start_suffix(s: Seq<char>, i: int)
    requires
        0 <= i <= s.len(),
        forall|j: int| 0 <= j < i ==> is_whitespace(#[trigger] s[j]),
    ensures
        trim_start(s) == trim_start(s.subrange(i, s.len() as int)),
    decreases i,
{
    if i > 0 {
        assert(s.drop_first() =~= s.subrange(1, s.len() as int));
        lemma_trim_start_suffix(s.drop_first(), i - 1);
        assert(s.drop_first().subrange(i - 1, s.drop_first().len() as int) =~= s.subrange(
            i,
            s.len() as int,
        ));
    } else {
        assert(s.subrange(0, s.len() as int) =~= s);
    }
}

pub proof fn lemma_trim_end_prefix(s: Seq<char>, j: int)
    requires
        0 <= j <= s.len(),
        forall|k: int| j <= k < s.len() ==> is_whitespace(#[trigger] s[k]),
    ensures
        trim_end(s) == trim_end(s.subrange(0, j)),
    decreases s.len() - j,
{
    if j < s.len() {
        assert(s.drop_last() =~= s.subrange(0, s.len() - 1));
        lemma_trim_end_prefix(s.drop_last(), j);
        assert(s.drop_last().subrange(0, j) =~= s.subrange(0, j));
    } else {
        assert(s.subrange(0, j) =~= s);
    }
}

/// Bounds `[start, end)` of the trimmed part of `s`.
pub fn trim_bounds(s: &Vec<char>) -> (r: (usize, usize))
    ensures
        r.0 <= r.1 <= s.len(),
        trim(s@) == s@.subrange(r.0 as int, r.1 as int),
{
    let mut i: usize = 0;
    while i < s.len() && char_is_whitespace(s[i])
        invariant
            i <= s.len(),
            forall|j: int| 0 <= j < i ==> is_whitespace(#[trigger] s@[j]),
        decreases s.len() - i,
    {
        i = i + 1;
    }
    proof {
        lemma_trim_start_suffix(s@, i as int);
        let t = s@.subrange(i as int, s.len() as int);
        if t.len() > 0 {
            assert(t[0] == s@[i as int]);
        }
        assert(trim_start(t) == t);
    }
    let mut j: usize = s.len();
    while j > i && char_is_whitespace(s[j - 1])
        invariant
            i <= j <= s.len(),
            forall|k: int| j <= k < s.len() ==> is_whitespace(#[trigger] s@[k]),
        decreases j,
    {
        j = j - 1;
    }
    proof {
        let t = s@.subrange(i as int, s.len() as int);
        let jj = j - i;
        assert forall|k: int| jj <= k < t.len() implies is_whitespace(#[trigger] t[k]) by {
            assert(t[k] == s@[k + i]);
        }
        lemma_trim_end_prefix(t, jj as int);
        let u = t.subrange(0, jj as int);
        assert(u =~= s@.subrange(i as int, j as int));
        if u.len() > 0 {
            assert(u.last() == s@[j - 1]);
        }
        assert(trim_end(u) == u);
    }
    (i, j)
}


/// Index of the first `'\n'` at or after `i`, or `s.len()` when there is none.
pub open spec fn line_end(s: Seq<char>, i: int) -> int
    decreases s.len() - i,
{
    if i >= s.len() {
        s.len() as int
    } else if s[i] == '\n' {
        i
    } else {
        line_end(s, i + 1)
    }
}

pub proof fn lemma_line_end(s: Seq<char>, i: int)
    requires
        0 <= i <= s.len(),
    ensures
        i <= line_end(s, i) <= s.len(),
        line_end(s, i) < s.len() ==> s[line_end(s, i)] == '\n',
        forall|k: int| i <= k < line_end(s, i) ==> s[k] != '\n',
    decreases s.len() - i,
{
    if i < s.len() && s[i] != '\n' {
        lemma_line_end(s, i + 1);
    }
}

/// The line that starts at `i`: up to the next `'\n'`, without a `'\r'` that
/// stands just before that `'\n'`.
pub open spec fn line_at(s: Seq<char>, i: int) -> Seq<char> {
    let e = line_end(s, i);
    let raw = s.subrange(i, e);
    if e < s.len() && raw.len() > 0 && raw.last() == '\r' {
        raw.drop_last()
    } else {
        raw
    }
}

/// The lines of `s` from position `i` on, as `str::lines` yields them: a final
/// line ending adds no empty line.
pub open spec fn lines_from(s: Seq<char>, i: int) -> Seq<Seq<char>>
    decreases s.len() + 1 - i,
    via lines_from_decreases
{
    if i >= s.len() || i < 0 {
        seq![]
    } else {
        seq![line_at(s, i)] + lines_from(s, line_end(s, i) + 1)
    }
}

#[via_fn]
proof fn lines_from_decreases(s: Seq<char>, i: int) {
    if 0 <= i < s.len() {
        lemma_line_end(s, i);
    }
}

/// The lines of `s`, as `str::lines` yields them.
pub open spec fn str_lines(s: Seq<char>) -> Seq<Seq<char>> {
    lines_from(s, 0)
}

/// Reads the line that starts at `pos` and returns it with the position of the
/// next line.
pub fn read_line(text: &Vec<char>, pos: usize) -> (r: Option<(Vec<char>, usize)>)
    requires
        pos <= text.len(),
    ensures
        pos == text.len() <==> r is None,
        r matches Some((line, next)) ==> {
            &&& line@ == line_at(text@, pos as int)
            &&& next == if line_end(text@, pos as int) < text.len() {
                line_end(text@, pos as int) + 1
            } else {
                text.len() as int
            }
            &&& pos < next <= text.len()
            &&& lines_from(text@, pos as int) == seq![line@] + lines_from(text@, next as int)
        },
        r is None ==> lines_from(text@, pos as int) == Seq::<Seq<char>>::empty(),
{
    if pos == text.len() {
        return None;
    }
    let mut e: usize = pos;
    while e < text.len() && text[e] != '\n'
        invariant
            pos <= e <= text.len(),
            forall|k: int| pos <= k < e ==> text@[k] != '\n',
            line_end(text@, pos as int) == line_end(text@, e as int),
        decreases text.len() - e,
    {
        e = e + 1;
    }
    let mut stop = e;
    if e < text.len() && stop > pos && text[stop - 1] == '\r' {
        stop = stop - 1;
    }
    let mut line: Vec<char> = Vec::new();
    let mut k = pos;
    while k < stop
        invariant
            pos <= k <= stop <= e <= text.len(),
            line@ == text@.subrange(pos as int, k as int),
        decreases stop - k,
    {
        line.push(text[k]);
        k = k + 1;
        assert(line@ =~= text@.subrange(pos as int, k as int));
    }
    proof {
        let raw = text@.subrange(pos as int, e as int);
        if e < text.len() && raw.len() > 0 && raw.last() == '\r' {
            assert(line@ =~= raw.drop_last());
        } else {
            assert(line@ =~= raw);
        }
    }
    let next = if e < text.len() { e + 1 } else { e };
    proof {
        lemma_line_end(text@, pos as int);
        assert(lines_from(text@, pos as int) == seq![line_at(text@, pos as int)] + lines_from(
            text@,
            line_end(text@, pos as int) + 1,
        ));
        if e == text.len() {
            assert(lines_from(text@, (e + 1) as int) == Seq::<Seq<char>>::empty());
            assert(lines_from(text@, e as int) == Seq::<Seq<char>>::empty());
        }
    }
    Some((line, next))
}


/// Index of the first non-whitespace character at or after `i`, or `s.len()`.
pub open spec fn skip_whitespace(s: Seq<char>, i: int) -> int
    decreases s.len() - i,
{
    if i >= s.len() {
        s.len() as int
    } else if is_whitespace(s[i]) {
        skip_whitespace(s, i + 1)
    } else {
        i
    }
}

/// Index of the first whitespace character at or after `i`, or `s.len()`.
pub open spec fn token_end(s: Seq<char>, i: int) -> int
    decreases s.len() - i,
{
    if i >= s.len() {
        s.len() as int
    } else if is_whitespace(s[i]) {
        i
    } else {
        token_end(s, i + 1)
    }
}

pub proof fn lemma_skip_whitespace(s: Seq<char>, i: int)
    requires
        0 <= i <= s.len(),
    ensures
        i <= skip_whitespace(s, i) <= s.len(),
        skip_whitespace(s, i) < s.len() ==> !is_whitespace(s[skip_whitespace(s, i)]),
        forall|k: int| i <= k < skip_whitespace(s, i) ==> is_whitespace(#[trigger] s[k]),
    decreases s.len() - i,
{
    if i < s.len() && is_whitespace(s[i]) {
        lemma_skip_whitespace(s, i + 1);
    }
}

pub proof fn lemma_token_end(s: Seq<char>, i: int)
    requires
        0 <= i <= s.len(),
    ensures
        i <= token_end(s, i) <= s.len(),
        token_end(s, i) < s.len() ==> is_whitespace(s[token_end(s, i)]),
        forall|k: int| i <= k < token_end(s, i) ==> !is_whitespace(#[trigger] s[k]),
    decreases s.len() - i,
{
    if i < s.len() && !is_whitespace(s[i]) {
        lemma_token_end(s, i + 1);
    }
}

/// The whitespace-separated tokens of `s` from position `i` on.
pub open spec fn split_whitespace_from(s: Seq<char>, i: int) -> Seq<Seq<char>>
    decreases s.len() + 1 - i,
    via split_whitespace_from_decreases
{
    if i < 0 || i > s.len() {
        seq![]
    } else {
        let b = skip_whitespace(s, i);
        if b >= s.len() {
            seq![]
        } else {
            let e = token_end(s, b);
            seq![s.subrange(b, e)] + split_whitespace_from(s, e)
        }
    }
}

#[via_fn]
proof fn split_whitespace_from_decreases(s: Seq<char>, i: int) {
    if 0 <= i <= s.len() {
        lemma_skip_whitespace(s, i);
        let b = skip_whitespace(s, i);
        if b < s.len() {
            lemma_token_end(s, b);
            if token_end(s, b) == b {
                assert(!is_whitespace(s[b]));
            }
        }
    }
}

/// The tokens of `s`, as `str::split_whitespace` yields them.
pub open spec fn split_whitespace(s: Seq<char>) -> Seq<Seq<char>> {
    split_whitespace_from(s, 0)
}

/// The character sequences held by a vector of tokens.
pub open spec fn token_views(v: Seq<Vec<char>>) -> Seq<Seq<char>> {
    v.map_values(|t: Vec<char>| t@)
}

/// Splits `s` into its whitespace-separated tokens.
pub fn split_tokens(s: &Vec<char>) -> (r: Vec<Vec<char>>)
    ensures
        token_views(r@) == split_whitespace(s@),
{
    let mut r: Vec<Vec<char>> = Vec::new();
    let mut i: usize = 0;
    while i < s.len()
        invariant
            i <= s.len(),
            split_whitespace(s@) == token_views(r@) + split_whitespace_from(s@, i as int),
        decreases s.len() - i,
    {
        let ghost i0 = i as int;
        proof {
            lemma_skip_whitespace(s@, i0);
        }
        let mut b = i;
        while b < s.len() && char_is_whitespace(s[b])
            invariant
                i <= b <= s.len(),
                skip_whitespace(s@, i0) == skip_whitespace(s@, b as int),
            decreases s.len() - b,
        {
            b = b + 1;
        }
        if b == s.len() {
            proof {
                assert(split_whitespace_from(s@, i0) == Seq::<Seq<char>>::empty());
                assert(split_whitespace_from(s@, s.len() as int) == Seq::<Seq<char>>::empty());
                assert(token_views(r@) + Seq::<Seq<char>>::empty() =~= token_views(r@));
            }
            i = b;
        } else {
            proof {
                lemma_token_end(s@, b as int);
            }
            let mut e = b;
            let mut tok: Vec<char> = Vec::new();
            while e < s.len() && !char_is_whitespace(s[e])
                invariant
                    b <= e <= s.len(),
                    token_end(s@, b as int) == token_end(s@, e as int),
                    tok@ == s@.subrange(b as int, e as int),
                decreases s.len() - e,
            {
                tok.push(s[e]);
                e = e + 1;
                assert(tok@ =~= s@.subrange(b as int, e as int));
            }
            let ghost before = token_views(r@);
            r.push(tok);
            proof {
                assert(token_views(r@) =~= before.push(s@.subrange(b as int, e as int)));
                assert(split_whitespace_from(s@, i0) == seq![s@.subrange(b as int, e as int)]
                    + split_whitespace_from(s@, e as int));
                assert(before + split_whitespace_from(s@, i0) =~= token_views(r@)
                    + split_whitespace_from(s@, e as int));
            }
            i = e;
        }
    }
    proof {
        assert(split_whitespace_from(s@, s.len() as int) == Seq::<Seq<char>>::empty());
        assert(token_views(r@) + Seq::<Seq<char>>::empty() =~= token_views(r@));
    }
    r
}


/// An ASCII decimal digit.
pub open spec fn is_ascii_digit(c: char) -> bool {
    0x30 <= (c as u32) <= 0x39
}

/// Decimal value of the digits `d`, most significant first.
pub open spec fn digits_value(d: Seq<char>) -> int
    decreases d.len(),
{
    if d.len() == 0 {
        0
    } else {
        digits_value(d.drop_last()) * 10 + ((d.last() as u32) - 0x30)
    }
}

/// Every character of `d` is an ASCII digit.
pub open spec fn all_digits(d: Seq<char>) -> bool {
    forall|i: int| 0 <= i < d.len() ==> is_ascii_digit(#[trigger] d[i])
}

/// `t` without one leading `'+'`.
pub open spec fn unsigned_digits(t: Seq<char>) -> Seq<char> {
    if t.len() > 0 && t[0] == '+' {
        t.drop_first()
    } else {
        t
    }
}

/// The value that `str::parse::<usize>` gives for `t`, or `None` where it
/// fails: an optional `'+'`, then one or more ASCII digits, within range.
pub open spec fn parse_usize(t: Seq<char>) -> Option<usize> {
    let d = unsigned_digits(t);
    if d.len() > 0 && all_digits(d) && digits_value(d) <= usize::MAX {
        Some(digits_value(d) as usize)
    } else {
        None
    }
}

/// The value that `str::parse::<i32>` gives for `t`, or `None` where it fails:
/// an optional `'+'` or `'-'`, then one or more ASCII digits, within range.
pub open spec fn parse_i32(t: Seq<char>) -> Option<i32> {
    if t.len() > 0 && t[0] == '-' {
        let d = t.drop_first();
        if d.len() > 0 && all_digits(d) && digits_value(d) <= 0x8000_0000 {
            Some((0 - digits_value(d)) as i32)
        } else {
            None
        }
    } else {
        let d = unsigned_digits(t);
        if d.len() > 0 && all_digits(d) && digits_value(d) <= 0x7fff_ffff {
            Some(digits_value(d) as i32)
        } else {
            None
        }
    }
}

pub proof fn lemma_digits_value_nonneg(d: Seq<char>)
    requires
        all_digits(d),
    ensures
        digits_value(d) >= 0,
    decreases d.len(),
{
    if d.len() > 0 {
        assert(is_ascii_digit(d[d.len() - 1]));
        lemma_digits_value_nonneg(d.drop_last());
    }
}

pub proof fn lemma_digits_value_prefix(d: Seq<char>, k: int)
    requires
        all_digits(d),
        0 <= k <= d.len(),
    ensures
        digits_value(d.subrange(0, k)) <= digits_value(d),
    decreases d.len() - k,
{
    if k == d.len() {
        assert(d.subrange(0, k) =~= d);
    } else {
        let p = d.drop_last();
        assert(is_ascii_digit(d[d.len() - 1]));
        lemma_digits_value_nonneg(p);
        lemma_digits_value_prefix(p, k);
        assert(p.subrange(0, k) =~= d.subrange(0, k));
    }
}

/// Value of the digits `t[start..]` where they are one or more ASCII digits
/// whose value is at most `limit`.
fn digits_up_to(t: &Vec<char>, start: usize, limit: usize) -> (r: Option<usize>)
    requires
        start <= t.len(),
    ensures
        ({
            let d = t@.subrange(start as int, t.len() as int);
            r == if d.len() > 0 && all_digits(d) && digits_value(d) <= limit {
                Some(digits_value(d) as usize)
            } else {
                None
            }
        }),
        r matches Some(v) ==> v <= limit && v == digits_value(
            t@.subrange(start as int, t.len() as int),
        ),
{
    let ghost d = t@.subrange(start as int, t.len() as int);
    if start == t.len() {
        return None;
    }
    let mut i = start;
    while i < t.len()
        invariant
            start <= i <= t.len(),
            d == t@.subrange(start as int, t.len() as int),
            forall|k: int| 0 <= k < i - start ==> is_ascii_digit(#[trigger] d[k]),
        decreases t.len() - i,
    {
        let u = t[i] as u32;
        if u < 0x30 || u > 0x39 {
            assert(!is_ascii_digit(d[i - start]));
            return None;
        }
        i = i + 1;
    }
    assert(all_digits(d));
    let mut v: usize = 0;
    let mut k = start;
    while k < t.len()
        invariant
            start <= k <= t.len(),
            d == t@.subrange(start as int, t.len() as int),
            all_digits(d),
            v == digits_value(d.subrange(0, k - start)),
            v <= limit,
        decreases t.len() - k,
    {
        let ghost p = d.subrange(0, k - start + 1);
        assert(is_ascii_digit(d[k - start]));
        assert(p.drop_last() =~= d.subrange(0, k - start));
        assert(p.last() == t@[k as int]);
        let dig = (t[k] as u32 - 0x30) as usize;
        if dig > limit || v > (limit - dig) / 10 {
            proof {
                assert(digits_value(p) == v * 10 + dig);
                assert(digits_value(p) > limit);
                lemma_digits_value_prefix(d, k - start + 1);
            }
            return None;
        }
        v = v * 10 + dig;
        k = k + 1;
    }
    assert(d.subrange(0, t.len() - start) =~= d);
    proof {
        lemma_digits_value_nonneg(d);
    }
    Some(v)
}

/// Parses `t` as `str::parse::<usize>` does.
pub fn parse_usize_token(t: &Vec<char>) -> (r: Option<usize>)
    ensures
        r == parse_usize(t@),
{
    let start: usize = if t.len() > 0 && t[0] == '+' { 1 } else { 0 };
    assert(unsigned_digits(t@) =~= t@.subrange(start as int, t.len() as int));
    digits_up_to(t, start, usize::MAX)
}

/// Parses `t` as `str::parse::<i32>` does.
pub fn parse_i32_token(t: &Vec<char>) -> (r: Option<i32>)
    ensures
        r == parse_i32(t@),
{
    if t.len() > 0 && t[0] == '-' {
        assert(t@.drop_first() =~= t@.subrange(1, t.len() as int));
        match digits_up_to(t, 1, 0x8000_0000) {
            None => None,
            Some(m) => {
                if m == 0x8000_0000 {
                    Some(i32::MIN)
                } else {
                    let p = m as i32;
                    Some(-p)
                }
            },
        }
    } else {
        let start: usize = if t.len() > 0 && t[0] == '+' { 1 } else { 0 };
        assert(unsigned_digits(t@) =~= t@.subrange(start as int, t.len() as int));
        match digits_up_to(t, start, 0x7fff_ffff) {
            None => None,
            Some(m) => Some(m as i32),
        }
    }
}


/// The characters of `s`, in order.
pub fn chars_of(s: &str) -> (v: Vec<char>)
    ensures
        v@ == s@,
{
    broadcast use vstd::string::axiom_spec_iter;
    let mut v: Vec<char> = Vec::new();
    for c in it: s.chars()
        invariant
            v@ == it.seq().take(it.index() as int),
            it.seq() == s@,
    {
        v.push(c);
    }
    v
}

} // verus!
