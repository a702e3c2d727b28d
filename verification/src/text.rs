//! Character-level string utilities with exact specifications.
//!
//! Strings are modelled by their view, the sequence of their Unicode scalar
//! values (`Seq<char>`). Every operation here is stated over that sequence.

use vstd::prelude::*;

verus! {

broadcast use vstd::string::group_string_axioms;

/// `String::push` appends one character to the end of the string.
pub assume_specification[ String::push ](s: &mut String, ch: char)
    ensures
        final(s)@ == old(s)@.push(ch),
;

// ---------------------------------------------------------------------------
// Character classes
// ---------------------------------------------------------------------------

/// The Unicode `White_Space` property, the class that `char::is_whitespace`
/// and `str::trim` use.
pub open spec fn is_white_space(c: char) -> bool {
    let u = c as u32;
    (0x9 <= u && u <= 0xd) || u == 0x20 || u == 0x85 || u == 0xa0 || u == 0x1680 || (0x2000 <= u
        && u <= 0x200a) || u == 0x2028 || u == 0x2029 || u == 0x202f || u == 0x205f || u == 0x3000
}

/// Whether `c` is white space in the sense of [`is_white_space`].
pub fn char_is_white_space(c: char) -> (b: bool)
    ensures
        b == is_white_space(c),
{
    let u = c as u32;
    (0x9 <= u && u <= 0xd) || u == 0x20 || u == 0x85 || u == 0xa0 || u == 0x1680 || (0x2000 <= u
        && u <= 0x200a) || u == 0x2028 || u == 0x2029 || u == 0x202f || u == 0x205f || u == 0x3000
}

/// ASCII lowercase letter `a..=z`.
pub open spec fn is_ascii_lower(c: char) -> bool {
    'a' <= c && c <= 'z'
}

/// ASCII uppercase letter `A..=Z`.
pub open spec fn is_ascii_upper(c: char) -> bool {
    'A' <= c && c <= 'Z'
}

/// ASCII decimal digit `0..=9`.
pub open spec fn is_ascii_digit(c: char) -> bool {
    '0' <= c && c <= '9'
}

/// `char::to_ascii_lowercase`: maps `A..=Z` to `a..=z`, leaves every other
/// character unchanged.
pub open spec fn ascii_lower(c: char) -> char {
    if is_ascii_upper(c) {
        ((c as u32) + 32) as char
    } else {
        c
    }
}

/// Executable [`ascii_lower`].
pub fn char_ascii_lower(c: char) -> (r: char)
    ensures
        r == ascii_lower(c),
{
    if 'A' <= c && c <= 'Z' {
        let u = (c as u32) + 32;
        assert(0x61 <= u <= 0x7a);
        char_from_ascii_code(u)
    } else {
        c
    }
}

/// The character with an ASCII code point.
fn char_from_ascii_code(u: u32) -> (c: char)
    requires
        u < 128,
    ensures
        c == u as char,
{
    let b = u as u8;
    b as char
}

// ---------------------------------------------------------------------------
// Conversions between strings and character vectors
// ---------------------------------------------------------------------------

/// The characters of `s`, in order.
pub fn chars_of(s: &str) -> (v: Vec<char>)
    ensures
        v@ == s@,
{
    let mut v: Vec<char> = Vec::new();
    for c in it: s.chars()
        invariant
            it.seq() == s@,
            v@ == s@.take(it.index()),
    {
        v.push(c);
        assert(s@.take(it.index() + 1) =~= s@.take(it.index()).push(c));
    }
    assert(s@.take(s@.len() as int) =~= s@);
    v
}

/// The string made of the characters `v[from..to]`.
pub fn string_of(v: &Vec<char>, from: usize, to: usize) -> (s: String)
    requires
        from <= to <= v.len(),
    ensures
        s@ == v@.subrange(from as int, to as int),
{
    let mut s = String::new();
    let mut i = from;
    while i < to
        invariant
            from <= i <= to <= v.len(),
            s@ == v@.subrange(from as int, i as int),
        decreases to - i,
    {
        s.push(v[i]);
        assert(v@.subrange(from as int, i + 1) =~= v@.subrange(from as int, i as int).push(v@[i as int]));
        i = i + 1;
    }
    s
}

/// Appends `t` to `s`.
pub fn push_all(s: &mut String, t: &str)
    ensures
        final(s)@ == old(s)@ + t@,
{
    let v = chars_of(t);
    let ghost s0 = s@;
    let mut i: usize = 0;
    while i < v.len()
        invariant
            i <= v.len(),
            v@ == t@,
            s@ == s0 + v@.take(i as int),
        decreases v.len() - i,
    {
        s.push(v[i]);
        assert(v@.take(i + 1) =~= v@.take(i as int).push(v@[i as int]));
        i = i + 1;
    }
    assert(v@.take(v@.len() as int) =~= v@);
}

/// `a` followed by `b`, as a new string.
pub fn concat2(a: &str, b: &str) -> (s: String)
    ensures
        s@ == a@ + b@,
{
    let mut s = String::new();
    push_all(&mut s, a);
    push_all(&mut s, b);
    assert(Seq::<char>::empty() + a@ + b@ =~= a@ + b@);
    s
}

/// Whether two strings hold the same characters.
pub fn str_eq(a: &str, b: &str) -> (r: bool)
    ensures
        r == (a@ == b@),
{
    let va = chars_of(a);
    let vb = chars_of(b);
    if va.len() != vb.len() {
        return false;
    }
    let mut i: usize = 0;
    while i < va.len()
        invariant
            va@ == a@,
            vb@ == b@,
            va.len() == vb.len(),
            i <= va.len(),
            forall|k: int| 0 <= k < i ==> va@[k] == vb@[k],
        decreases va.len() - i,
    {
        if va[i] != vb[i] {
            return false;
        }
        i = i + 1;
    }
    assert(va@ =~= vb@);
    true
}

// ---------------------------------------------------------------------------
// Trimming
// ---------------------------------------------------------------------------

/// `s` without its leading white space.
pub open spec fn trim_start(s: Seq<char>) -> Seq<char>
    decreases s.len(),
{
    if s.len() > 0 && is_white_space(s[0]) {
        trim_start(s.drop_first())
    } else {
        s
    }
}

/// `s` without its trailing white space.
pub open spec fn trim_end(s: Seq<char>) -> Seq<char>
    decreases s.len(),
{
    if s.len() > 0 && is_white_space(s.last()) {
        trim_end(s.drop_last())
    } else {
        s
    }
}

/// `str::trim`: `s` without leading and trailing white space.
pub open spec fn trim(s: Seq<char>) -> Seq<char> {
    trim_end(trim_start(s))
}

/// Whether `s` is empty or white space only.
pub open spec fn is_blank(s: Seq<char>) -> bool {
    trim(s).len() == 0
}

proof fn lemma_trim_start_at(s: Seq<char>, a: int)
    requires
        0 <= a <= s.len(),
        forall|i: int| 0 <= i < a ==> is_white_space(#[trigger] s[i]),
        a == s.len() || !is_white_space(s[a]),
    ensures
        trim_start(s) == s.subrange(a, s.len() as int),
    decreases a,
{
    if a == 0 {
        assert(s.subrange(0, s.len() as int) =~= s);
    } else {
        let t = s.drop_first();
        assert forall|i: int| 0 <= i < a - 1 implies is_white_space(#[trigger] t[i]) by {
            assert(t[i] == s[i + 1]);
        }
        lemma_trim_start_at(t, a - 1);
        assert(t.subrange(a - 1, t.len() as int) =~= s.subrange(a, s.len() as int));
    }
}

proof fn lemma_trim_end_at(s: Seq<char>, b: int)
    requires
        0 <= b <= s.len(),
        forall|i: int| b <= i < s.len() ==> is_white_space(#[trigger] s[i]),
        b == 0 || !is_white_space(s[b - 1]),
    ensures
        trim_end(s) == s.subrange(0, b),
    decreases s.len() - b,
{
    if b == s.len() {
        assert(s.subrange(0, b) =~= s);
    } else {
        let t = s.drop_last();
        assert forall|i: int| b <= i < t.len() implies is_white_space(#[trigger] t[i]) by {
            assert(t[i] == s[i]);
        }
        lemma_trim_end_at(t, b);
        assert(t.subrange(0, b) =~= s.subrange(0, b));
    }
}

/// The bounds `(a, b)` of `trim(v)` inside `v`.
pub fn trim_bounds(v: &Vec<char>) -> (r: (usize, usize))
    ensures
        r.0 <= r.1 <= v.len(),
        trim(v@) == v@.subrange(r.0 as int, r.1 as int),
{
    let n = v.len();
    let mut a: usize = 0;
    while a < n && char_is_white_space(v[a])
        invariant
            a <= n == v.len(),
            forall|i: int| 0 <= i < a ==> is_white_space(#[trigger] v@[i]),
        decreases n - a,
    {
        a = a + 1;
    }
    let mut b: usize = n;
    while b > a && char_is_white_space(v[b - 1])
        invariant
            a <= b <= n == v.len(),
            forall|i: int| b <= i < n ==> is_white_space(#[trigger] v@[i]),
        decreases b,
    {
        b = b - 1;
    }
    proof {
        lemma_trim_start_at(v@, a as int);
        let t = v@.subrange(a as int, n as int);
        assert forall|i: int| b - a <= i < t.len() implies is_white_space(#[trigger] t[i]) by {
            assert(t[i] == v@[i + a]);
        }
        if b > a {
            assert(t[b - a - 1] == v@[b - 1]);
        }
        lemma_trim_end_at(t, b - a);
        assert(t.subrange(0, b - a) =~= v@.subrange(a as int, b as int));
    }
    (a, b)
}

/// `str::trim`, as a new string.
pub fn trim_string(s: &str) -> (r: String)
    ensures
        r@ == trim(s@),
{
    let v = chars_of(s);
    let (a, b) = trim_bounds(&v);
    string_of(&v, a, b)
}

/// Whether `s` is empty or white space only.
pub fn str_is_blank(s: &str) -> (r: bool)
    ensures
        r == is_blank(s@),
{
    let v = chars_of(s);
    let (a, b) = trim_bounds(&v);
    a == b
}

// ---------------------------------------------------------------------------
// Prefixes and suffixes
// ---------------------------------------------------------------------------

/// `s` starts with `p`.
pub open spec fn has_prefix(s: Seq<char>, p: Seq<char>) -> bool {
    p.len() <= s.len() && s.subrange(0, p.len() as int) == p
}

/// `s` ends with `p`.
pub open spec fn has_suffix(s: Seq<char>, p: Seq<char>) -> bool {
    p.len() <= s.len() && s.subrange(s.len() - p.len(), s.len() as int) == p
}

/// `str::strip_prefix`: the rest of `s` after `p`, when `s` starts with `p`.
pub open spec fn strip_prefix(s: Seq<char>, p: Seq<char>) -> Option<Seq<char>> {
    if has_prefix(s, p) {
        Some(s.subrange(p.len() as int, s.len() as int))
    } else {
        None
    }
}

/// Whether `v[at..]` starts with `p`.
pub fn matches_at(v: &Vec<char>, at: usize, p: &Vec<char>) -> (r: bool)
    requires
        at <= v.len(),
    ensures
        r == has_prefix(v@.subrange(at as int, v.len() as int), p@),
{
    if p.len() > v.len() - at {
        return false;
    }
    let mut i: usize = 0;
    while i < p.len()
        invariant
            at + p.len() <= v.len(),
            i <= p.len(),
            forall|k: int| 0 <= k < i ==> v@[at + k] == p@[k],
        decreases p.len() - i,
    {
        if v[at + i] != p[i] {
            proof {
                let t = v@.subrange(at as int, v.len() as int);
                assert(t.subrange(0, p.len() as int)[i as int] != p@[i as int]);
            }
            return false;
        }
        i = i + 1;
    }
    assert(v@.subrange(at as int, v.len() as int).subrange(0, p.len() as int) =~= p@);
    true
}

/// `str::strip_prefix` on character vectors: the start of the rest, if any.
pub fn strip_prefix_at(v: &Vec<char>, p: &str) -> (r: Option<usize>)
    ensures
        match r {
            Some(k) => k == p@.len() && k <= v.len() && strip_prefix(v@, p@) == Some(
                v@.subrange(k as int, v.len() as int),
            ),
            None => strip_prefix(v@, p@) is None,
        },
{
    let pv = chars_of(p);
    assert(v@.subrange(0, v@.len() as int) =~= v@);
    if matches_at(v, 0, &pv) {
        Some(pv.len())
    } else {
        None
    }
}

/// Whether `v[..end]` ends with `p`.
pub fn ends_with_at(v: &Vec<char>, end: usize, p: &Vec<char>) -> (r: bool)
    requires
        end <= v.len(),
    ensures
        r == has_suffix(v@.subrange(0, end as int), p@),
{
    if p.len() > end {
        return false;
    }
    let start = end - p.len();
    let mut i: usize = 0;
    while i < p.len()
        invariant
            start + p.len() == end <= v.len(),
            i <= p.len(),
            forall|k: int| 0 <= k < i ==> v@[start + k] == p@[k],
        decreases p.len() - i,
    {
        if v[start + i] != p[i] {
            proof {
                let t = v@.subrange(0, end as int);
                assert(t.subrange(t.len() - p.len(), t.len() as int)[i as int] != p@[i as int]);
            }
            return false;
        }
        i = i + 1;
    }
    assert(v@.subrange(0, end as int).subrange(start as int, end as int) =~= p@);
    true
}

/// `str::trim_end_matches` with a string pattern: removes every repeated
/// occurrence of `p` at the end of `s`.
pub open spec fn trim_end_matches(s: Seq<char>, p: Seq<char>) -> Seq<char>
    decreases s.len(),
{
    if p.len() > 0 && has_suffix(s, p) {
        trim_end_matches(s.subrange(0, s.len() - p.len()), p)
    } else {
        s
    }
}

/// `str::trim_start_matches` with a character pattern: removes every leading
/// `c`.
pub open spec fn trim_start_char(s: Seq<char>, c: char) -> Seq<char>
    decreases s.len(),
{
    if s.len() > 0 && s[0] == c {
        trim_start_char(s.drop_first(), c)
    } else {
        s
    }
}

/// The end `e` such that `v[from..e]` is `trim_end_matches(v[from..to], p)`.
pub fn trim_end_matches_end(v: &Vec<char>, from: usize, to: usize, p: &str) -> (e: usize)
    requires
        from <= to <= v.len(),
    ensures
        from <= e <= to,
        trim_end_matches(v@.subrange(from as int, to as int), p@) == v@.subrange(
            from as int,
            e as int,
        ),
{
    let pv = chars_of(p);
    let mut e = to;
    while pv.len() > 0 && e - from >= pv.len() && ends_with_at(v, e, &pv)
        invariant
            from <= e <= to <= v.len(),
            pv@ == p@,
            trim_end_matches(v@.subrange(from as int, to as int), p@) == trim_end_matches(
                v@.subrange(from as int, e as int),
                p@,
            ),
        decreases e,
    {
        proof {
            let w = v@.subrange(from as int, e as int);
            let u = v@.subrange(0, e as int);
            assert(u.subrange(u.len() - p@.len(), u.len() as int) =~= w.subrange(
                w.len() - p@.len(),
                w.len() as int,
            ));
            assert(w.subrange(0, w.len() - p@.len()) =~= v@.subrange(
                from as int,
                e - p@.len(),
            ));
        }
        e = e - pv.len();
    }
    proof {
        let w = v@.subrange(from as int, e as int);
        if pv.len() > 0 && e - from >= pv.len() {
            let u = v@.subrange(0, e as int);
            assert(u.subrange(u.len() - p@.len(), u.len() as int) =~= w.subrange(
                w.len() - p@.len(),
                w.len() as int,
            ));
        }
    }
    e
}

/// The start `b` such that `v[b..to]` is `trim_start_char(v[from..to], c)`.
pub fn trim_start_char_start(v: &Vec<char>, from: usize, to: usize, c: char) -> (b: usize)
    requires
        from <= to <= v.len(),
    ensures
        from <= b <= to,
        trim_start_char(v@.subrange(from as int, to as int), c) == v@.subrange(b as int, to as int),
{
    let mut b = from;
    while b < to && v[b] == c
        invariant
            from <= b <= to <= v.len(),
            trim_start_char(v@.subrange(from as int, to as int), c) == trim_start_char(
                v@.subrange(b as int, to as int),
                c,
            ),
        decreases to - b,
    {
        assert(v@.subrange(b as int, to as int).drop_first() =~= v@.subrange(b + 1, to as int));
        b = b + 1;
    }
    b
}

// ---------------------------------------------------------------------------
// Splitting
// ---------------------------------------------------------------------------

/// `str::split` with a character separator: the pieces between separators,
/// including empty ones; an empty string gives one empty piece.
pub open spec fn split_char(s: Seq<char>, sep: char) -> Seq<Seq<char>>
    decreases s.len(),
{
    if s.len() == 0 {
        seq![Seq::<char>::empty()]
    } else {
        let init = split_char(s.drop_last(), sep);
        if s.last() == sep {
            init.push(Seq::<char>::empty())
        } else {
            init.update(init.len() - 1, init.last().push(s.last()))
        }
    }
}

/// `split_char` never yields an empty list.
pub proof fn lemma_split_nonempty(s: Seq<char>, sep: char)
    ensures
        split_char(s, sep).len() >= 1,
    decreases s.len(),
{
    if s.len() > 0 {
        lemma_split_nonempty(s.drop_last(), sep);
    }
}

/// Every character of `s` other than `sep` lies in one of the pieces that
/// `split_char` yields.
pub proof fn lemma_split_covers(s: Seq<char>, sep: char, i: int)
    requires
        0 <= i < s.len(),
        s[i] != sep,
    ensures
        exists|k: int|
            0 <= k < split_char(s, sep).len() && (#[trigger] split_char(s, sep)[k]).contains(s[i]),
    decreases s.len(),
{
    let init = split_char(s.drop_last(), sep);
    lemma_split_nonempty(s.drop_last(), sep);
    let whole = split_char(s, sep);
    if i == s.len() - 1 {
        let last = init.last().push(s.last());
        assert(whole[init.len() - 1] == last);
        assert(last[last.len() - 1] == s[i]);
        assert(whole[init.len() - 1].contains(s[i]));
    } else {
        assert(s.drop_last()[i] == s[i]);
        lemma_split_covers(s.drop_last(), sep, i);
        let k = choose|k: int| 0 <= k < init.len() && (#[trigger] init[k]).contains(s[i]);
        if s.last() == sep {
            assert(whole[k] == init[k]);
        } else if k == init.len() - 1 {
            let j = choose|j: int| 0 <= j < init[k].len() && init[k][j] == s[i];
            assert(whole[k] == init[k].push(s.last()));
            assert(whole[k][j] == s[i]);
        } else {
            assert(whole[k] == init[k]);
        }
    }
}

/// The pieces of `v[from..to]` split at `sep`, as index ranges into `v`.
pub fn split_ranges(v: &Vec<char>, from: usize, to: usize, sep: char) -> (r: Vec<(usize, usize)>)
    requires
        from <= to <= v.len(),
    ensures
        r.len() == split_char(v@.subrange(from as int, to as int), sep).len(),
        forall|k: int|
            0 <= k < r.len() ==> from <= (#[trigger] r@[k]).0 <= r@[k].1 <= to && v@.subrange(
                r@[k].0 as int,
                r@[k].1 as int,
            ) == split_char(v@.subrange(from as int, to as int), sep)[k],
{
    let mut r: Vec<(usize, usize)> = Vec::new();
    let mut start = from;
    let mut i = from;
    assert(v@.subrange(from as int, from as int) =~= Seq::<char>::empty());
    while i < to
        invariant
            from <= start <= i <= to <= v.len(),
            r.len() + 1 == split_char(v@.subrange(from as int, i as int), sep).len(),
            forall|k: int|
                0 <= k < r.len() ==> from <= (#[trigger] r@[k]).0 <= r@[k].1 <= i && v@.subrange(
                    r@[k].0 as int,
                    r@[k].1 as int,
                ) == split_char(v@.subrange(from as int, i as int), sep)[k],
            v@.subrange(start as int, i as int) == split_char(
                v@.subrange(from as int, i as int),
                sep,
            ).last(),
        decreases to - i,
    {
        let ghost old_split = split_char(v@.subrange(from as int, i as int), sep);
        proof {
            lemma_split_nonempty(v@.subrange(from as int, i as int), sep);
            let w = v@.subrange(from as int, i + 1);
            assert(w.drop_last() =~= v@.subrange(from as int, i as int));
            assert(w.last() == v@[i as int]);
        }
        if v[i] == sep {
            r.push((start, i));
            start = i + 1;
            proof {
                assert(v@.subrange(start as int, i + 1) =~= Seq::<char>::empty());
            }
        } else {
            proof {
                assert(v@.subrange(start as int, i + 1) =~= v@.subrange(start as int, i as int).push(
                    v@[i as int],
                ));
            }
        }
        i = i + 1;
    }
    proof {
        lemma_split_nonempty(v@.subrange(from as int, to as int), sep);
    }
    r.push((start, to));
    r
}

/// The non-empty pieces of `s` split at `sep`, in order: `split(sep)`
/// followed by a filter that drops empty pieces.
pub open spec fn nonempty_pieces(s: Seq<char>, sep: char) -> Seq<Seq<char>> {
    split_char(s, sep).filter(|p: Seq<char>| p.len() > 0)
}

/// The non-empty pieces of `v[from..to]` split at `sep`, as index ranges into `v`.
pub fn nonempty_piece_ranges(v: &Vec<char>, from: usize, to: usize, sep: char) -> (r: Vec<
    (usize, usize),
>)
    requires
        from <= to <= v.len(),
    ensures
        r.len() == nonempty_pieces(v@.subrange(from as int, to as int), sep).len(),
        forall|k: int|
            0 <= k < r.len() ==> from <= (#[trigger] r@[k]).0 <= r@[k].1 <= to && v@.subrange(
                r@[k].0 as int,
                r@[k].1 as int,
            ) == nonempty_pieces(v@.subrange(from as int, to as int), sep)[k],
{
    let all = split_ranges(v, from, to, sep);
    let ghost pieces = split_char(v@.subrange(from as int, to as int), sep);
    let ghost pred = |p: Seq<char>| p.len() > 0;
    let mut r: Vec<(usize, usize)> = Vec::new();
    let mut k: usize = 0;
    assert(pieces.take(0) =~= Seq::<Seq<char>>::empty());
    proof {
        reveal(Seq::filter);
    }
    while k < all.len()
        invariant
            from <= to <= v.len(),
            all.len() == pieces.len(),
            pieces == split_char(v@.subrange(from as int, to as int), sep),
            pred == (|p: Seq<char>| p.len() > 0),
            forall|j: int|
                0 <= j < all.len() ==> from <= (#[trigger] all@[j]).0 <= all@[j].1 <= to
                    && v@.subrange(all@[j].0 as int, all@[j].1 as int) == pieces[j],
            k <= all.len(),
            r.len() == pieces.take(k as int).filter(pred).len(),
            forall|j: int|
                0 <= j < r.len() ==> from <= (#[trigger] r@[j]).0 <= r@[j].1 <= to && v@.subrange(
                    r@[j].0 as int,
                    r@[j].1 as int,
                ) == pieces.take(k as int).filter(pred)[j],
        decreases all.len() - k,
    {
        let (a, b) = all[k];
        proof {
            reveal(Seq::filter);
            assert(pieces.take(k + 1).drop_last() =~= pieces.take(k as int));
            assert(pieces.take(k + 1).last() == pieces[k as int]);
        }
        let ghost f_old = pieces.take(k as int).filter(pred);
        let ghost f_new = pieces.take(k + 1).filter(pred);
        proof {
            assert(all@[k as int] == (a, b));
            assert(v@.subrange(a as int, b as int).len() == b - a);
            assert(pred(pieces[k as int]) == (a < b));
            if a < b {
                assert(f_new == f_old.push(pieces[k as int]));
            } else {
                assert(f_new == f_old);
            }
        }
        if a < b {
            r.push((a, b));
        }
        k = k + 1;
    }
    assert(pieces.take(all.len() as int) =~= pieces);
    r
}

/// The `Debug` rendering of a string: quoted, with special characters
/// escaped. It depends on the string alone.
pub uninterp spec fn debug_quoted(s: Seq<char>) -> Seq<char>;

/// `format!("{:?}", s)` for a string slice: the `Debug` rendering that
/// `<str as Debug>::fmt` writes. The contract names the result
/// [`debug_quoted`] of the characters of `s` and says nothing more of it.
#[verifier::external_body]
pub(crate) fn debug_string(s: &str) -> (r: String)
    ensures
        r@ == debug_quoted(s@),
{
    format!("{:?}", s)
}

// ---------------------------------------------------------------------------
// Searching
// ---------------------------------------------------------------------------

/// `s` contains `p` as a contiguous piece.
pub open spec fn contains_piece(s: Seq<char>, p: Seq<char>) -> bool {
    exists|i: int| 0 <= i <= s.len() - p.len() && #[trigger] s.subrange(i, i + p.len()) == p
}

/// Whether `s` contains `p` as a contiguous piece.
pub fn str_contains(s: &str, p: &str) -> (r: bool)
    ensures
        r == contains_piece(s@, p@),
{
    let v = chars_of(s);
    let pv = chars_of(p);
    if pv.len() > v.len() {
        return false;
    }
    let n = v.len() - pv.len();
    let mut i: usize = 0;
    loop
        invariant
            v@ == s@,
            pv@ == p@,
            pv.len() <= v.len(),
            n == v.len() - pv.len(),
            i <= n,
            forall|j: int| 0 <= j < i ==> #[trigger] v@.subrange(j, j + pv@.len()) != pv@,
        decreases n - i,
    {
        assert(v@.subrange(i as int, v.len() as int).subrange(0, pv@.len() as int) =~= v@.subrange(
            i as int,
            i + pv@.len(),
        ));
        if matches_at(&v, i, &pv) {
            return true;
        }
        if i == n {
            return false;
        }
        i = i + 1;
    }
}

/// The index of the first `c` in `s`.
pub open spec fn index_of_char(s: Seq<char>, c: char) -> Option<int>
    decreases s.len(),
{
    if s.len() == 0 {
        None
    } else if s[0] == c {
        Some(0)
    } else {
        match index_of_char(s.drop_first(), c) {
            Some(i) => Some(i + 1),
            None => None,
        }
    }
}

/// The position in `v` of the first `c` in `v[from..to]`.
pub fn find_char(v: &Vec<char>, from: usize, to: usize, c: char) -> (r: Option<usize>)
    requires
        from <= to <= v.len(),
    ensures
        match r {
            Some(i) => from <= i < to && index_of_char(v@.subrange(from as int, to as int), c)
                == Some(i - from),
            None => index_of_char(v@.subrange(from as int, to as int), c) is None,
        },
{
    let mut i = from;
    while i < to
        invariant
            from <= i <= to <= v.len(),
            forall|j: int| from <= j < i ==> v@[j] != c,
        decreases to - i,
    {
        if v[i] == c {
            proof {
                lemma_index_of_char_at(v@.subrange(from as int, to as int), c, i - from);
            }
            return Some(i);
        }
        i = i + 1;
    }
    proof {
        lemma_index_of_char_none(v@.subrange(from as int, to as int), c);
    }
    None
}

proof fn lemma_index_of_char_at(s: Seq<char>, c: char, i: int)
    requires
        0 <= i < s.len(),
        s[i] == c,
        forall|j: int| 0 <= j < i ==> s[j] != c,
    ensures
        index_of_char(s, c) == Some(i),
    decreases i,
{
    if i > 0 {
        lemma_index_of_char_at(s.drop_first(), c, i - 1);
    }
}

proof fn lemma_index_of_char_none(s: Seq<char>, c: char)
    requires
        forall|j: int| 0 <= j < s.len() ==> s[j] != c,
    ensures
        index_of_char(s, c) is None,
    decreases s.len(),
{
    if s.len() > 0 {
        lemma_index_of_char_none(s.drop_first(), c);
    }
}

/// `str::to_ascii_lowercase`.
pub open spec fn ascii_lowercase(s: Seq<char>) -> Seq<char> {
    s.map_values(|c: char| ascii_lower(c))
}

/// The ASCII-lowercase copy of `v[from..to]`.
pub fn ascii_lowercase_of(v: &Vec<char>, from: usize, to: usize) -> (r: String)
    requires
        from <= to <= v.len(),
    ensures
        r@ == ascii_lowercase(v@.subrange(from as int, to as int)),
{
    let mut r = String::new();
    let mut i = from;
    while i < to
        invariant
            from <= i <= to <= v.len(),
            r@ == ascii_lowercase(v@.subrange(from as int, i as int)),
        decreases to - i,
    {
        r.push(char_ascii_lower(v[i]));
        assert(ascii_lowercase(v@.subrange(from as int, i + 1)) =~= ascii_lowercase(
            v@.subrange(from as int, i as int),
        ).push(ascii_lower(v@[i as int])));
        i = i + 1;
    }
    r
}

/// The lowercase form of a string under Unicode's `Lowercase` mapping, as
/// `str::to_lowercase` computes it. It depends on the string alone.
pub uninterp spec fn unicode_lowercase(s: Seq<char>) -> Seq<char>;

/// `str::to_lowercase`. The contract names the result [`unicode_lowercase`]
/// of the characters of `s`; how each character is mapped is left unsaid.
#[verifier::external_body]
pub(crate) fn to_lowercase(s: &str) -> (r: String)
    ensures
        r@ == unicode_lowercase(s@),
{
    s.to_lowercase()
}

// ---------------------------------------------------------------------------
// Decimal numbers
// ---------------------------------------------------------------------------

/// The digit character for `d < 10`.
pub open spec fn digit_char(d: nat) -> char {
    if d == 0 {
        '0'
    } else if d == 1 {
        '1'
    } else if d == 2 {
        '2'
    } else if d == 3 {
        '3'
    } else if d == 4 {
        '4'
    } else if d == 5 {
        '5'
    } else if d == 6 {
        '6'
    } else if d == 7 {
        '7'
    } else if d == 8 {
        '8'
    } else {
        '9'
    }
}

/// The character of the decimal digit `d`.
fn digit(d: u64) -> (c: char)
    requires
        d < 10,
    ensures
        c == digit_char(d as nat),
{
    if d == 0 {
        '0'
    } else if d == 1 {
        '1'
    } else if d == 2 {
        '2'
    } else if d == 3 {
        '3'
    } else if d == 4 {
        '4'
    } else if d == 5 {
        '5'
    } else if d == 6 {
        '6'
    } else if d == 7 {
        '7'
    } else if d == 8 {
        '8'
    } else {
        '9'
    }
}

/// The decimal representation of `n`, without sign or leading zeros.
pub open spec fn decimal(n: nat) -> Seq<char>
    decreases n,
{
    if n < 10 {
        seq![digit_char(n)]
    } else {
        decimal(n / 10).push(digit_char(n % 10))
    }
}

/// `n.to_string()` for an unsigned integer.
pub fn decimal_string(n: u64) -> (s: String)
    ensures
        s@ == decimal(n as nat),
{
    let mut digits: Vec<char> = Vec::new();
    let mut m = n;
    // digits holds the decimal of n % 10^k reversed, for the digits consumed so far
    while m >= 10
        invariant
            decimal(n as nat) == decimal(m as nat) + digits@.reverse(),
        decreases m,
    {
        let d = m % 10;
        digits.push(digit(d));
        proof {
            assert(decimal(m as nat) == decimal((m / 10) as nat).push(digit_char((m % 10) as nat)));
            assert(digits@.reverse() =~= seq![digit_char(d as nat)] + digits@.drop_last().reverse());
        }
        m = m / 10;
    }
    digits.push(digit(m));
    assert(digits@.reverse() =~= seq![digit_char(m as nat)] + digits@.drop_last().reverse());
    let mut s = String::new();
    let mut i = digits.len();
    while i > 0
        invariant
            i <= digits.len(),
            s@ == digits@.reverse().take((digits.len() - i) as int),
        decreases i,
    {
        i = i - 1;
        s.push(digits[i]);
        assert(digits@.reverse().take((digits.len() - i) as int) =~= digits@.reverse().take(
            (digits.len() - i - 1) as int,
        ).push(digits@[i as int]));
    }
    assert(digits@.reverse().take(digits.len() as int) =~= digits@.reverse());
    s
}

} // verus!
