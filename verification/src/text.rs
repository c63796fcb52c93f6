//! Character-level text operations with exact specifications.
//!
//! Text is viewed as a `Seq<char>`; the executable functions work on
//! `Vec<char>` and convert at the edges.
use vstd::prelude::*;

verus! {

// ---------------------------------------------------------------------------
// Specifications
// ---------------------------------------------------------------------------

/// ASCII lower-casing of one character: `A`..=`Z` map to `a`..=`z`.
pub open spec fn lower_char(c: char) -> char {
    if 'A' <= c && c <= 'Z' {
        ((c as int) + 32) as char
    } else {
        c
    }
}

/// ASCII lower-casing of a whole text (what `str::to_ascii_lowercase` does).
pub open spec fn ascii_lower(s: Seq<char>) -> Seq<char> {
    s.map_values(|c: char| lower_char(c))
}

/// `p` occurs in `s` starting at index `i`.
pub open spec fn matches_at(s: Seq<char>, i: int, p: Seq<char>) -> bool {
    0 <= i && i + p.len() <= s.len() && s.subrange(i, i + p.len()) =~= p
}

pub open spec fn starts_with(s: Seq<char>, p: Seq<char>) -> bool {
    matches_at(s, 0, p)
}

pub open spec fn ends_with(s: Seq<char>, p: Seq<char>) -> bool {
    matches_at(s, s.len() - p.len(), p)
}

pub open spec fn contains(s: Seq<char>, p: Seq<char>) -> bool {
    exists|i: int| matches_at(s, i, p)
}

/// Left-to-right, non-overlapping replacement of every occurrence of a
/// non-empty `pat` by `rep` (what `str::replace` does).
pub open spec fn replace_all(s: Seq<char>, pat: Seq<char>, rep: Seq<char>) -> Seq<char>
    decreases s.len(),
{
    if s.len() == 0 || pat.len() == 0 {
        s
    } else if starts_with(s, pat) {
        rep + replace_all(s.skip(pat.len() as int), pat, rep)
    } else {
        seq![s[0]] + replace_all(s.drop_first(), pat, rep)
    }
}

/// Unicode `White_Space` (what `char::is_whitespace` tests).
pub open spec fn is_ws(c: char) -> bool {
    ||| ('\u{9}' <= c && c <= '\u{d}')
    ||| c == ' '
    ||| c == '\u{85}'
    ||| c == '\u{a0}'
    ||| c == '\u{1680}'
    ||| ('\u{2000}' <= c && c <= '\u{200a}')
    ||| c == '\u{2028}'
    ||| c == '\u{2029}'
    ||| c == '\u{202f}'
    ||| c == '\u{205f}'
    ||| c == '\u{3000}'
}

pub open spec fn trim_start(s: Seq<char>) -> Seq<char>
    decreases s.len(),
{
    if s.len() > 0 && is_ws(s[0]) {
        trim_start(s.drop_first())
    } else {
        s
    }
}

pub open spec fn trim_end(s: Seq<char>) -> Seq<char>
    decreases s.len(),
{
    if s.len() > 0 && is_ws(s.last()) {
        trim_end(s.drop_last())
    } else {
        s
    }
}

/// What `str::trim` returns.
pub open spec fn trim(s: Seq<char>) -> Seq<char> {
    trim_end(trim_start(s))
}

/// What `str::trim_start_matches` returns for a literal prefix: every
/// leading repetition of `p` is removed.
pub open spec fn strip_prefixes(s: Seq<char>, p: Seq<char>) -> Seq<char>
    decreases s.len(),
{
    if p.len() > 0 && starts_with(s, p) {
        strip_prefixes(s.skip(p.len() as int), p)
    } else {
        s
    }
}

/// Index of the first `c` in `s`, if any.
pub open spec fn first_index_of(s: Seq<char>, c: char) -> Option<int>
    decreases s.len(),
{
    if s.len() == 0 {
        None
    } else if s[0] == c {
        Some(0)
    } else {
        match first_index_of(s.drop_first(), c) {
            Some(i) => Some(i + 1),
            None => None,
        }
    }
}

/// What `first_index_of` returns is the position of the first `c`.
pub proof fn lemma_first_index_of(s: Seq<char>, c: char)
    ensures
        match first_index_of(s, c) {
            Some(i) => 0 <= i < s.len() && s[i] == c && forall|j: int| 0 <= j < i ==> s[j] != c,
            None => forall|j: int| 0 <= j < s.len() ==> s[j] != c,
        },
    decreases s.len(),
{
    if s.len() > 0 && s[0] != c {
        lemma_first_index_of(s.drop_first(), c);
        assert forall|j: int| 1 <= j < s.len() implies s[j] == s.drop_first()[j - 1] by {}
    }
}

/// A line as `str::lines` yields it: the text up to a `'\n'`, without a
/// `'\r'` that directly precedes that `'\n'`.
pub open spec fn strip_cr(line: Seq<char>) -> Seq<char> {
    if line.len() > 0 && line.last() == '\r' {
        line.drop_last()
    } else {
        line
    }
}

/// The lines of a text, as `str::lines` yields them.
pub open spec fn lines(s: Seq<char>) -> Seq<Seq<char>>
    decreases s.len(),
{
    if s.len() == 0 {
        seq![]
    } else {
        proof { lemma_first_index_of(s, '\n'); }
        match first_index_of(s, '\n') {
            Some(i) => seq![strip_cr(s.take(i))] + lines(s.skip(i + 1)),
            None => seq![s],
        }
    }
}

/// Each item of `ls` followed by a `'\n'`.
pub open spec fn join_lines(ls: Seq<Seq<char>>) -> Seq<char>
    decreases ls.len(),
{
    if ls.len() == 0 {
        seq![]
    } else {
        join_lines(ls.drop_last()) + ls.last() + seq!['\n']
    }
}

/// The items of `ls` separated by `sep` (what `[String]::join` returns).
pub open spec fn join_with(ls: Seq<Seq<char>>, sep: Seq<char>) -> Seq<char>
    decreases ls.len(),
{
    if ls.len() == 0 {
        seq![]
    } else if ls.len() == 1 {
        ls[0]
    } else {
        ls[0] + sep + join_with(ls.drop_first(), sep)
    }
}

/// The pieces of `s` between occurrences of `sep` (what `str::split` with a
/// character yields).
pub open spec fn split_on(s: Seq<char>, sep: char) -> Seq<Seq<char>>
    decreases s.len(),
{
    proof { lemma_first_index_of(s, sep); }
    match first_index_of(s, sep) {
        Some(i) => seq![s.take(i)] + split_on(s.skip(i + 1), sep),
        None => seq![s],
    }
}

/// `s` padded with spaces on the right to at least `width` characters (what
/// the format specifier `{:<width}` produces).
pub open spec fn pad_right(s: Seq<char>, width: nat) -> Seq<char> {
    if s.len() >= width {
        s
    } else {
        s + Seq::new((width - s.len()) as nat, |i: int| ' ')
    }
}

/// The decimal digits of `n`, without leading zeros (what `Display` for an
/// unsigned integer writes).
pub open spec fn decimal(n: nat) -> Seq<char>
    decreases n,
{
    if n < 10 {
        seq![digit_char(n)]
    } else {
        decimal(n / 10) + seq![digit_char(n % 10)]
    }
}

pub open spec fn digit_char(d: nat) -> char {
    (('0' as int) + d) as char
}

} // verus!

verus! {

// ---------------------------------------------------------------------------
// Executable operations
// ---------------------------------------------------------------------------

/// Turns a string into the vector of its characters.
pub fn to_chars(s: &str) -> (v: Vec<char>)
    ensures
        v@ == s@,
{
    let mut v: Vec<char> = Vec::new();
    for c in it: s.chars()
        invariant
            v@ == it.seq().take(it.index() as int),
    {
        v.push(c);
    }
    v
}

/// `FromIterator<&char> for String`: the string made of the given characters,
/// in order.
#[verifier::external_body]
pub(crate) fn from_chars(v: &Vec<char>) -> (s: String)
    ensures
        s@ == v@,
{
    v.iter().collect::<String>()
}

/// Appends all of `src` to `dst`.
pub fn push_all(dst: &mut Vec<char>, src: &Vec<char>)
    ensures
        final(dst)@ == old(dst)@ + src@,
{
    let n = src.len();
    for i in 0..n
        invariant
            n == src.len(),
            dst@ == old(dst)@ + src@.take(i as int),
    {
        dst.push(src[i]);
        assert(src@.take(i + 1) =~= src@.take(i as int).push(src@[i as int]));
    }
    assert(src@.take(n as int) =~= src@);
}

/// Appends the characters of a string to `dst`.
pub fn push_str(dst: &mut Vec<char>, s: &str)
    ensures
        final(dst)@ == old(dst)@ + s@,
{
    let v = to_chars(s);
    push_all(dst, &v);
}

/// The ASCII lower-case form of a text.
pub fn lower(s: &Vec<char>) -> (r: Vec<char>)
    ensures
        r@ == ascii_lower(s@),
{
    let mut r: Vec<char> = Vec::new();
    let n = s.len();
    for i in 0..n
        invariant
            n == s.len(),
            r@ =~= ascii_lower(s@.take(i as int)),
    {
        let c = s[i];
        let d = if 'A' <= c && c <= 'Z' {
            ((c as u8) + 32) as char
        } else {
            c
        };
        r.push(d);
        assert(ascii_lower(s@.take(i + 1)) =~= ascii_lower(s@.take(i as int)).push(lower_char(c)));
    }
    assert(s@.take(n as int) =~= s@);
    r
}

/// Whether `p` occurs in `s` at index `i`.
pub fn matches_at_exec(s: &Vec<char>, i: usize, p: &Vec<char>) -> (b: bool)
    ensures
        b == matches_at(s@, i as int, p@),
{
    if p.len() > s.len() || i > s.len() - p.len() {
        return false;
    }
    let m = p.len();
    for k in 0..m
        invariant
            m == p.len(),
            i + m <= s.len(),
            forall|j: int| 0 <= j < k ==> s@[i + j] == p@[j],
    {
        if s[i + k] != p[k] {
            assert(s@.subrange(i as int, i + m)[k as int] != p@[k as int]);
            return false;
        }
    }
    assert(s@.subrange(i as int, i + m) =~= p@);
    true
}

pub fn starts_with_exec(s: &Vec<char>, p: &Vec<char>) -> (b: bool)
    ensures
        b == starts_with(s@, p@),
{
    matches_at_exec(s, 0, p)
}

pub fn ends_with_exec(s: &Vec<char>, p: &Vec<char>) -> (b: bool)
    ensures
        b == ends_with(s@, p@),
{
    if p.len() > s.len() {
        return false;
    }
    matches_at_exec(s, s.len() - p.len(), p)
}

/// Whether `p` occurs anywhere in `s`.
pub fn contains_exec(s: &Vec<char>, p: &Vec<char>) -> (b: bool)
    ensures
        b == contains(s@, p@),
{
    if p.len() > s.len() {
        assert forall|i: int| !matches_at(s@, i, p@) by {}
        return false;
    }
    let last = s.len() - p.len();
    let mut i: usize = 0;
    while i <= last
        invariant
            last == s.len() - p.len(),
            p.len() <= s.len(),
            i <= last + 1,
            forall|j: int| 0 <= j < i ==> !matches_at(s@, j, p@),
        decreases last + 1 - i,
    {
        if matches_at_exec(s, i, p) {
            return true;
        }
        i = i + 1;
    }
    assert forall|j: int| !matches_at(s@, j, p@) by {
        if 0 <= j < i {
        }
    }
    false
}

/// Every non-overlapping occurrence of a non-empty `pat` replaced by `rep`.
pub fn replace_all_exec(s: &Vec<char>, pat: &Vec<char>, rep: &Vec<char>) -> (r: Vec<char>)
    requires
        pat.len() > 0,
    ensures
        r@ == replace_all(s@, pat@, rep@),
{
    let mut r: Vec<char> = Vec::new();
    let n = s.len();
    let mut i: usize = 0;
    assert(s@.skip(0) =~= s@);
    assert(r@ + replace_all(s@, pat@, rep@) =~= replace_all(s@, pat@, rep@));
    while i < n
        invariant
            n == s.len(),
            pat.len() > 0,
            i <= n,
            r@ + replace_all(s@.skip(i as int), pat@, rep@) == replace_all(s@, pat@, rep@),
        decreases n - i,
    {
        let ghost rest = s@.skip(i as int);
        if matches_at_exec(s, i, pat) {
            assert(rest.subrange(0, pat@.len() as int) =~= s@.subrange(i as int, i + pat@.len()));
            assert(rest.skip(pat@.len() as int) =~= s@.skip(i + pat@.len()));
            push_all(&mut r, rep);
            assert(r@ + replace_all(s@.skip(i + pat@.len()), pat@, rep@) =~= replace_all(s@, pat@, rep@));
            i = i + pat.len();
        } else {
            assert(!starts_with(rest, pat@)) by {
                if starts_with(rest, pat@) {
                    assert(rest.subrange(0, pat@.len() as int) =~= s@.subrange(i as int, i + pat@.len()));
                }
            }
            assert(rest.drop_first() =~= s@.skip(i + 1));
            r.push(s[i]);
            assert(r@ + replace_all(s@.skip(i + 1), pat@, rep@) =~= replace_all(s@, pat@, rep@));
            i = i + 1;
        }
    }
    assert(s@.skip(n as int) =~= Seq::<char>::empty());
    assert(r@ + Seq::<char>::empty() =~= r@);
    r
}

/// Whether a character is Unicode white space.
pub fn is_ws_exec(c: char) -> (b: bool)
    ensures
        b == is_ws(c),
{
    ('\u{9}' <= c && c <= '\u{d}') || c == ' ' || c == '\u{85}' || c == '\u{a0}' || c
        == '\u{1680}' || ('\u{2000}' <= c && c <= '\u{200a}') || c == '\u{2028}' || c
        == '\u{2029}' || c == '\u{202f}' || c == '\u{205f}' || c == '\u{3000}'
}

/// The characters of `s` from `from` up to `to`.
pub fn slice_chars(s: &Vec<char>, from: usize, to: usize) -> (r: Vec<char>)
    requires
        from <= to <= s.len(),
    ensures
        r@ == s@.subrange(from as int, to as int),
{
    let mut r: Vec<char> = Vec::new();
    let mut i = from;
    while i < to
        invariant
            from <= i <= to <= s.len(),
            r@ =~= s@.subrange(from as int, i as int),
        decreases to - i,
    {
        r.push(s[i]);
        i = i + 1;
    }
    r
}

/// The text without leading and trailing white space.
pub fn trim_exec(s: &Vec<char>) -> (r: Vec<char>)
    ensures
        r@ == trim(s@),
{
    let n = s.len();
    let mut a: usize = 0;
    assert(s@.skip(0) =~= s@);
    while a < n && is_ws_exec(s[a])
        invariant
            n == s.len(),
            a <= n,
            trim_start(s@) == trim_start(s@.skip(a as int)),
        decreases n - a,
    {
        assert(s@.skip(a as int).drop_first() =~= s@.skip(a + 1));
        a = a + 1;
    }
    let ghost t = s@.skip(a as int);
    assert(trim_start(t) == t);
    let mut b: usize = n;
    assert(t.take(n - a) =~= t);
    while b > a && is_ws_exec(s[b - 1])
        invariant
            n == s.len(),
            a <= b <= n,
            t == s@.skip(a as int),
            trim_end(t) == trim_end(t.take(b - a)),
        decreases b,
    {
        assert(t.take(b - a).drop_last() =~= t.take(b - 1 - a));
        b = b - 1;
    }
    assert(t.take(b - a) =~= s@.subrange(a as int, b as int));
    assert(t.take(n - a) =~= t);
    slice_chars(s, a, b)
}

/// Every leading repetition of a non-empty `p` removed.
pub fn strip_prefixes_exec(s: &Vec<char>, p: &Vec<char>) -> (r: Vec<char>)
    requires
        p.len() > 0,
    ensures
        r@ == strip_prefixes(s@, p@),
{
    let n = s.len();
    let mut a: usize = 0;
    assert(s@.skip(0) =~= s@);
    while a <= n && matches_at_exec(s, a, p)
        invariant
            n == s.len(),
            p.len() > 0,
            a <= n,
            strip_prefixes(s@, p@) == strip_prefixes(s@.skip(a as int), p@),
        decreases n - a,
    {
        let ghost rest = s@.skip(a as int);
        assert(rest.subrange(0, p@.len() as int) =~= s@.subrange(a as int, a + p@.len()));
        assert(rest.skip(p@.len() as int) =~= s@.skip(a + p@.len()));
        a = a + p.len();
    }
    let ghost rest = s@.skip(a as int);
    assert(!starts_with(rest, p@)) by {
        if starts_with(rest, p@) {
            assert(rest.subrange(0, p@.len() as int) =~= s@.subrange(a as int, a + p@.len()));
        }
    }
    assert(rest =~= s@.subrange(a as int, n as int));
    slice_chars(s, a, n)
}

} // verus!

verus! {

/// The deep view of a character vector is its view.
pub proof fn lemma_chars_deep_view(v: &Vec<char>)
    ensures
        v.deep_view() == v@,
{
    assert(v.deep_view() =~= v@);
}

/// Pushing a character vector extends the deep view by its view.
pub proof fn lemma_push_deep_view(before: Seq<Vec<char>>, after: &Vec<Vec<char>>, x: &Vec<char>)
    requires
        after@ == before.push(*x),
    ensures
        after.deep_view() == Seq::new(before.len(), |i: int| before[i].deep_view()).push(x@),
{
    lemma_chars_deep_view(x);
    assert(after.deep_view() =~= Seq::new(before.len(), |i: int| before[i].deep_view()).push(x@));
}

/// Index of the first `c` at or after `from`.
pub fn find_char_from(s: &Vec<char>, c: char, from: usize) -> (r: Option<usize>)
    requires
        from <= s.len(),
    ensures
        match r {
            Some(j) => from <= j < s.len() && s@[j as int] == c
                && first_index_of(s@.skip(from as int), c) == Some(j - from),
            None => first_index_of(s@.skip(from as int), c) is None,
        },
{
    let n = s.len();
    let mut j = from;
    let ghost rest = s@.skip(from as int);
    proof { lemma_first_index_of(rest, c); }
    while j < n
        invariant
            n == s.len(),
            from <= j <= n,
            rest == s@.skip(from as int),
            forall|k: int| from <= k < j ==> s@[k] != c,
        decreases n - j,
    {
        if s[j] == c {
            assert(rest[j - from] == c);
            assert forall|k: int| 0 <= k < j - from implies rest[k] != c by {
                assert(rest[k] == s@[k + from]);
            }
            proof {
                lemma_first_index_of(rest, c);
                match first_index_of(rest, c) {
                    Some(i) => {
                        if i < j - from {
                            assert(rest[i] == s@[i + from]);
                        } else if i > j - from {
                            assert(rest[j - from] == c);
                        }
                    },
                    None => {
                        assert(rest[j - from] == c);
                    },
                }
            }
            return Some(j);
        }
        j = j + 1;
    }
    assert forall|k: int| 0 <= k < rest.len() implies rest[k] != c by {
        assert(rest[k] == s@[k + from]);
    }
    proof {
        lemma_first_index_of(rest, c);
        if let Some(i) = first_index_of(rest, c) {
            assert(rest[i] == c);
        }
    }
    None
}

/// The lines of a text, as `str::lines` yields them.
pub fn lines_exec(s: &Vec<char>) -> (r: Vec<Vec<char>>)
    ensures
        r.deep_view() == lines(s@),
{
    let mut r: Vec<Vec<char>> = Vec::new();
    let n = s.len();
    let mut pos: usize = 0;
    assert(s@.skip(0) =~= s@);
    assert(r.deep_view() + lines(s@) =~= lines(s@));
    while pos < n
        invariant
            n == s.len(),
            pos <= n,
            r.deep_view() + lines(s@.skip(pos as int)) == lines(s@),
        decreases n - pos,
    {
        let ghost rest = s@.skip(pos as int);
        let ghost before = r.deep_view();
        match find_char_from(s, '\n', pos) {
            Some(j) => {
                let mut end = j;
                if end > pos && s[end - 1] == '\r' {
                    end = end - 1;
                }
                let line = slice_chars(s, pos, end);
                assert(rest.take(j - pos) =~= s@.subrange(pos as int, j as int));
                assert(line@ =~= strip_cr(rest.take(j - pos)));
                assert(rest.skip(j - pos + 1) =~= s@.skip(j + 1));
                let ghost old_r = r@;
                r.push(line);
                proof { lemma_push_deep_view(old_r, &r, &line); }
                assert(r.deep_view() =~= before.push(line@));
                assert(lines(rest) == seq![strip_cr(rest.take(j - pos))] + lines(rest.skip(j - pos + 1)));
                assert(r.deep_view() + lines(s@.skip(j + 1)) =~= before + lines(rest));
                pos = j + 1;
            },
            None => {
                let line = slice_chars(s, pos, n);
                assert(line@ =~= rest);
                let ghost old_r = r@;
                r.push(line);
                proof { lemma_push_deep_view(old_r, &r, &line); }
                assert(r.deep_view() =~= before.push(line@));
                assert(s@.skip(n as int) =~= Seq::<char>::empty());
                assert(r.deep_view() + lines(s@.skip(n as int)) =~= before + lines(rest));
                pos = n;
            },
        }
    }
    assert(s@.skip(n as int) =~= Seq::<char>::empty());
    assert(r.deep_view() + Seq::<Seq<char>>::empty() =~= r.deep_view());
    r
}

/// The pieces of `s` between occurrences of `sep`, as `str::split` yields them.
pub fn split_on_exec(s: &Vec<char>, sep: char) -> (r: Vec<Vec<char>>)
    ensures
        r.deep_view() == split_on(s@, sep),
{
    let mut r: Vec<Vec<char>> = Vec::new();
    let n = s.len();
    let mut pos: usize = 0;
    assert(s@.skip(0) =~= s@);
    assert(r.deep_view() + split_on(s@, sep) =~= split_on(s@, sep));
    loop
        invariant
            n == s.len(),
            pos <= n,
            r.deep_view() + split_on(s@.skip(pos as int), sep) == split_on(s@, sep),
        decreases n - pos,
    {
        let ghost rest = s@.skip(pos as int);
        let ghost before = r.deep_view();
        match find_char_from(s, sep, pos) {
            Some(j) => {
                let piece = slice_chars(s, pos, j);
                assert(rest.take(j - pos) =~= piece@);
                assert(rest.skip(j - pos + 1) =~= s@.skip(j + 1));
                let ghost old_r = r@;
                r.push(piece);
                proof { lemma_push_deep_view(old_r, &r, &piece); }
                assert(r.deep_view() =~= before.push(piece@));
                assert(split_on(rest, sep) == seq![rest.take(j - pos)] + split_on(rest.skip(j - pos + 1), sep));
                assert(r.deep_view() + split_on(s@.skip(j + 1), sep) =~= before + split_on(rest, sep));
                pos = j + 1;
            },
            None => {
                let piece = slice_chars(s, pos, n);
                assert(piece@ =~= rest);
                let ghost old_r = r@;
                r.push(piece);
                proof { lemma_push_deep_view(old_r, &r, &piece); }
                assert(r.deep_view() =~= before.push(piece@));
                assert(r.deep_view() =~= before + split_on(rest, sep));
                return r;
            },
        }
    }
}

/// The items of `ls` separated by `sep`.
pub fn join_with_exec(ls: &Vec<Vec<char>>, sep: &Vec<char>) -> (r: Vec<char>)
    ensures
        r@ == join_with(ls.deep_view(), sep@),
{
    let n = ls.len();
    if n == 0 {
        return Vec::new();
    }
    let mut r: Vec<char> = Vec::new();
    let mut i: usize = n;
    let ghost dv = ls.deep_view();
    // Build from the back: r == join_with(dv.skip(i))
    push_all(&mut r, &ls[n - 1]);
    i = n - 1;
    assert(dv.skip(i as int) =~= seq![dv[i as int]]);
    while i > 0
        invariant
            n == ls.len(),
            dv == ls.deep_view(),
            0 <= i < n,
            r@ == join_with(dv.skip(i as int), sep@),
        decreases i,
    {
        let mut next: Vec<char> = Vec::new();
        push_all(&mut next, &ls[i - 1]);
        push_all(&mut next, sep);
        push_all(&mut next, &r);
        assert(dv.skip(i - 1).drop_first() =~= dv.skip(i as int));
        assert(dv.skip(i - 1)[0] == dv[i - 1]);
        r = next;
        i = i - 1;
    }
    assert(dv.skip(0) =~= dv);
    r
}

/// `s` padded with spaces to at least `width` characters.
pub fn pad_right_exec(s: &Vec<char>, width: usize) -> (r: Vec<char>)
    ensures
        r@ == pad_right(s@, width as nat),
{
    let mut r: Vec<char> = Vec::new();
    push_all(&mut r, s);
    if s.len() >= width {
        return r;
    }
    let mut k = s.len();
    while k < width
        invariant
            s.len() <= k <= width,
            r@ =~= s@ + Seq::new((k - s.len()) as nat, |i: int| ' '),
        decreases width - k,
    {
        r.push(' ');
        k = k + 1;
    }
    r
}

/// The decimal digits of `n`.
pub fn decimal_exec(n: u64) -> (r: Vec<char>)
    ensures
        r@ == decimal(n as nat),
    decreases n,
{
    if n < 10 {
        let mut r: Vec<char> = Vec::new();
        r.push(digit_exec(n));
        r
    } else {
        let mut r = decimal_exec(n / 10);
        r.push(digit_exec(n % 10));
        r
    }
}

fn digit_exec(d: u64) -> (c: char)
    requires
        d < 10,
    ensures
        c == digit_char(d as nat),
{
    ((d as u8) + 48) as char
}

} // verus!

verus! {

/// Whether two texts are equal.
pub fn equals_exec(a: &Vec<char>, b: &Vec<char>) -> (r: bool)
    ensures
        r == (a@ == b@),
{
    if a.len() != b.len() {
        return false;
    }
    let n = a.len();
    for i in 0..n
        invariant
            n == a.len(),
            n == b.len(),
            forall|j: int| 0 <= j < i ==> a@[j] == b@[j],
    {
        if a[i] != b[i] {
            return false;
        }
    }
    assert(a@ =~= b@);
    true
}

/// Whether a text equals a string.
pub fn equals_str(a: &Vec<char>, s: &str) -> (r: bool)
    ensures
        r == (a@ == s@),
{
    let b = to_chars(s);
    equals_exec(a, &b)
}

/// Whether `s` starts with the string `p`.
pub fn starts_with_str(s: &Vec<char>, p: &str) -> (r: bool)
    ensures
        r == starts_with(s@, p@),
{
    let pv = to_chars(p);
    starts_with_exec(s, &pv)
}

/// Whether `s` ends with the string `p`.
pub fn ends_with_str(s: &Vec<char>, p: &str) -> (r: bool)
    ensures
        r == ends_with(s@, p@),
{
    let pv = to_chars(p);
    ends_with_exec(s, &pv)
}

/// Whether `s` contains the string `p`.
pub fn contains_str(s: &Vec<char>, p: &str) -> (r: bool)
    ensures
        r == contains(s@, p@),
{
    let pv = to_chars(p);
    contains_exec(s, &pv)
}

/// Every occurrence of the non-empty string `pat` replaced by `rep`.
pub fn replace_str(s: &Vec<char>, pat: &str, rep: &str) -> (r: Vec<char>)
    requires
        pat@.len() > 0,
    ensures
        r@ == replace_all(s@, pat@, rep@),
{
    let pv = to_chars(pat);
    let rv = to_chars(rep);
    replace_all_exec(s, &pv, &rv)
}

/// Every leading repetition of the non-empty string `p` removed.
pub fn strip_prefixes_str(s: &Vec<char>, p: &str) -> (r: Vec<char>)
    requires
        p@.len() > 0,
    ensures
        r@ == strip_prefixes(s@, p@),
{
    let pv = to_chars(p);
    strip_prefixes_exec(s, &pv)
}

} // verus!

verus! {

/// Full Unicode lower-casing, as `str::to_lowercase` performs it.
pub uninterp spec fn unicode_lower(s: Seq<char>) -> Seq<char>;

/// A text of ASCII characters only.
pub open spec fn is_ascii_text(m: Seq<char>) -> bool {
    forall|i: int| 0 <= i < m.len() ==> m[i] <= '\u{7f}'
}

/// `str::to_lowercase`: the Unicode lower-case form of the text; its result
/// depends on the text alone. Each character is replaced by its own
/// lower-case mapping (only a capital sigma looks at its neighbours, and
/// that does not change them), and an ASCII character's mapping is its
/// ASCII lower case, so a run of ASCII characters of the text appears,
/// ASCII-lower-cased, in the result.
#[verifier::external_body]
pub(crate) fn to_lowercase(s: &str) -> (r: String)
    ensures
        r@ == unicode_lower(s@),
        forall|m: Seq<char>|
            #![trigger contains(s@, m)]
            is_ascii_text(m) && contains(s@, m) ==> contains(r@, ascii_lower(m)),
{
    s.to_lowercase()
}

/// The Unicode lower-case form of a text held as characters.
pub fn lower_unicode(s: &Vec<char>) -> (r: Vec<char>)
    ensures
        r@ == unicode_lower(s@),
        forall|m: Seq<char>|
            #![trigger contains(s@, m)]
            is_ascii_text(m) && contains(s@, m) ==> contains(r@, ascii_lower(m)),
{
    let text = from_chars(s);
    let lowered = to_lowercase(text.as_str());
    to_chars(lowered.as_str())
}

} // verus!

verus! {

/// A message made of `prefix` and the trimmed `detail` (how failures of an
/// outside tool are reported).
pub fn failure_message(prefix: &str, detail: &str) -> (r: String)
    ensures
        r@ == prefix@ + trim(detail@),
{
    let mut out = to_chars(prefix);
    let d = trim_exec(&to_chars(detail));
    push_all(&mut out, &d);
    from_chars(&out)
}

/// The concatenation of two strings.
pub fn concat2(a: &str, b: &str) -> (r: String)
    ensures
        r@ == a@ + b@,
{
    let mut out = to_chars(a);
    push_str(&mut out, b);
    from_chars(&out)
}

/// The concatenation of three strings.
pub fn concat3(a: &str, b: &str, c: &str) -> (r: String)
    ensures
        r@ == a@ + b@ + c@,
{
    let mut out = to_chars(a);
    push_str(&mut out, b);
    push_str(&mut out, c);
    from_chars(&out)
}

} // verus!

verus! {

/// An owned copy of a string.
pub fn string_of(s: &str) -> (r: String)
    ensures
        r@ == s@,
{
    from_chars(&to_chars(s))
}

} // verus!

verus! {

/// `s` has no line break.
pub open spec fn no_newline(s: Seq<char>) -> bool {
    forall|i: int| 0 <= i < s.len() ==> s[i] != '\n'
}

pub proof fn lemma_join_lines_front(ps: Seq<Seq<char>>)
    requires
        ps.len() > 0,
    ensures
        join_lines(ps) == ps[0] + seq!['\n'] + join_lines(ps.drop_first()),
    decreases ps.len(),
{
    if ps.len() == 1 {
        assert(ps.drop_last() =~= Seq::<Seq<char>>::empty());
        assert(ps.drop_first() =~= Seq::<Seq<char>>::empty());
        assert(join_lines(ps) =~= ps[0] + seq!['\n'] + join_lines(ps.drop_first()));
    } else {
        lemma_join_lines_front(ps.drop_last());
        assert(ps.drop_last().drop_first() =~= ps.drop_first().drop_last());
        assert(ps.drop_first().last() == ps.last());
        assert(join_lines(ps) =~= ps[0] + seq!['\n'] + join_lines(ps.drop_first()));
    }
}

pub proof fn lemma_first_newline(a: Seq<char>, b: Seq<char>)
    requires
        no_newline(a),
    ensures
        first_index_of(a + seq!['\n'] + b, '\n') == Some(a.len() as int),
{
    let s = a + seq!['\n'] + b;
    lemma_first_index_of(s, '\n');
    assert(s[a.len() as int] == '\n');
    match first_index_of(s, '\n') {
        Some(i) => {
            if i < a.len() {
                assert(s[i] == a[i]);
            }
        },
        None => {},
    }
}

/// Splitting lines that were joined gives the lines back, each without a
/// final carriage return.
pub proof fn lemma_lines_of_join(ps: Seq<Seq<char>>)
    requires
        forall|i: int| 0 <= i < ps.len() ==> no_newline(#[trigger] ps[i]),
    ensures
        lines(join_lines(ps)) == ps.map_values(|p: Seq<char>| strip_cr(p)),
    decreases ps.len(),
{
    if ps.len() == 0 {
        assert(lines(join_lines(ps)) =~= ps.map_values(|p: Seq<char>| strip_cr(p)));
    } else {
        lemma_join_lines_front(ps);
        let rest = ps.drop_first();
        assert forall|i: int| 0 <= i < rest.len() implies no_newline(#[trigger] rest[i]) by {
            assert(rest[i] == ps[i + 1]);
        }
        lemma_lines_of_join(rest);
        let s = join_lines(ps);
        assert(no_newline(ps[0]));
        lemma_first_newline(ps[0], join_lines(rest));
        assert(s.take(ps[0].len() as int) =~= ps[0]);
        assert(s.skip(ps[0].len() as int + 1) =~= join_lines(rest));
        assert(lines(s) == seq![strip_cr(ps[0])] + lines(join_lines(rest)));
        assert(lines(s) =~= ps.map_values(|p: Seq<char>| strip_cr(p)));
    }
}

/// No line of a text holds a line break.
pub proof fn lemma_lines_no_newline(s: Seq<char>)
    ensures
        forall|i: int| 0 <= i < lines(s).len() ==> no_newline(#[trigger] lines(s)[i]),
    decreases s.len(),
{
    if s.len() > 0 {
        lemma_first_index_of(s, '\n');
        match first_index_of(s, '\n') {
            Some(i) => {
                lemma_lines_no_newline(s.skip(i + 1));
                let first = strip_cr(s.take(i));
                assert(no_newline(first)) by {
                    assert forall|j: int| 0 <= j < first.len() implies first[j] != '\n' by {
                        assert(first[j] == s[j]);
                    }
                }
                let ls = lines(s);
                assert(ls == seq![first] + lines(s.skip(i + 1)));
                assert forall|k: int| 0 <= k < ls.len() implies no_newline(#[trigger] ls[k]) by {
                    if k > 0 {
                        assert(ls[k] == lines(s.skip(i + 1))[k - 1]);
                    }
                }
            },
            None => {
                assert(lines(s) == seq![s]);
            },
        }
    }
}

/// Removing a pattern keeps a text free of line breaks.
pub proof fn lemma_replace_no_newline(s: Seq<char>, pat: Seq<char>, rep: Seq<char>)
    requires
        no_newline(s),
        no_newline(rep),
    ensures
        no_newline(replace_all(s, pat, rep)),
    decreases s.len(),
{
    if s.len() > 0 && pat.len() > 0 {
        if starts_with(s, pat) {
            let rest = s.skip(pat.len() as int);
            assert(no_newline(rest)) by {
                assert forall|i: int| 0 <= i < rest.len() implies rest[i] != '\n' by {
                    assert(rest[i] == s[i + pat.len()]);
                }
            }
            lemma_replace_no_newline(rest, pat, rep);
            let r = replace_all(s, pat, rep);
            assert forall|i: int| 0 <= i < r.len() implies r[i] != '\n' by {
                if i >= rep.len() {
                    assert(r[i] == replace_all(rest, pat, rep)[i - rep.len()]);
                }
            }
        } else {
            let rest = s.drop_first();
            assert(no_newline(rest)) by {
                assert forall|i: int| 0 <= i < rest.len() implies rest[i] != '\n' by {
                    assert(rest[i] == s[i + 1]);
                }
            }
            lemma_replace_no_newline(rest, pat, rep);
            let r = replace_all(s, pat, rep);
            assert forall|i: int| 0 <= i < r.len() implies r[i] != '\n' by {
                if i >= 1 {
                    assert(r[i] == replace_all(rest, pat, rep)[i - 1]);
                }
            }
        }
    }
}

/// What `strip_prefixes` returns is a suffix of the text.
pub proof fn lemma_strip_prefixes_suffix(s: Seq<char>, p: Seq<char>)
    ensures
        strip_prefixes(s, p).len() <= s.len(),
        strip_prefixes(s, p) == s.skip(s.len() - strip_prefixes(s, p).len()),
    decreases s.len(),
{
    if p.len() > 0 && starts_with(s, p) {
        let rest = s.skip(p.len() as int);
        lemma_strip_prefixes_suffix(rest, p);
        assert(rest.skip(rest.len() - strip_prefixes(rest, p).len()) =~= s.skip(s.len() - strip_prefixes(rest, p).len()));
    } else {
        assert(s.skip(0) =~= s);
    }
}

/// A match survives dropping a final carriage return when it does not reach
/// the end.
pub proof fn lemma_matches_strip_cr(s: Seq<char>, i: int, p: Seq<char>)
    requires
        matches_at(s, i, p),
        p.len() > 0,
        p.last() != '\r',
    ensures
        matches_at(strip_cr(s), i, p),
{
    if s.len() > 0 && s.last() == '\r' {
        let t = s.drop_last();
        if i + p.len() == s.len() {
            assert(s.subrange(i, i + p.len()).last() == s.last());
        }
        assert(t.subrange(i, i + p.len()) =~= s.subrange(i, i + p.len()));
    }
}

} // verus!

verus! {

/// The pieces of joined texts that hold no separator are the texts again.
pub proof fn lemma_split_join(cs: Seq<Seq<char>>, sep: char)
    requires
        cs.len() > 0,
        forall|i: int, j: int| 0 <= i < cs.len() && 0 <= j < cs[i].len() ==> cs[i][j] != sep,
    ensures
        split_on(join_with(cs, seq![sep]), sep) == cs,
    decreases cs.len(),
{
    let s = join_with(cs, seq![sep]);
    lemma_first_index_of(s, sep);
    if cs.len() == 1 {
        assert(s == cs[0]);
        match first_index_of(s, sep) {
            Some(i) => {
                assert(s[i] == cs[0][i]);
            },
            None => {},
        }
        assert(split_on(s, sep) =~= cs);
    } else {
        let rest = cs.drop_first();
        assert forall|i: int, j: int| 0 <= i < rest.len() && 0 <= j < rest[i].len() implies rest[i][j] != sep by {
            assert(rest[i] == cs[i + 1]);
        }
        lemma_split_join(rest, sep);
        let a = cs[0];
        assert(s == a + seq![sep] + join_with(rest, seq![sep]));
        assert(s[a.len() as int] == sep);
        match first_index_of(s, sep) {
            Some(i) => {
                if i < a.len() {
                    assert(s[i] == a[i]);
                }
            },
            None => {},
        }
        assert(s.take(a.len() as int) =~= a);
        assert(s.skip(a.len() as int + 1) =~= join_with(rest, seq![sep]));
        assert(split_on(s, sep) =~= cs);
    }
}

/// Removing a prefix that was put in front of a text that does not itself
/// start with it gives the text back.
pub proof fn lemma_strip_prefix_once(p: Seq<char>, x: Seq<char>)
    requires
        p.len() > 0,
        !starts_with(x, p),
    ensures
        strip_prefixes(p + x, p) == x,
{
    let s = p + x;
    assert(s.subrange(0, p.len() as int) =~= p);
    assert(s.skip(p.len() as int) =~= x);
    assert(strip_prefixes(x, p) == x);
    assert(strip_prefixes(s, p) == strip_prefixes(s.skip(p.len() as int), p));
}

} // verus!

verus! {

/// Replacing a pattern that does not occur changes nothing.
pub proof fn lemma_replace_absent(s: Seq<char>, pat: Seq<char>, rep: Seq<char>)
    requires
        pat.len() > 0,
        !contains(s, pat),
    ensures
        replace_all(s, pat, rep) == s,
    decreases s.len(),
{
    if s.len() > 0 {
        assert(!starts_with(s, pat)) by {
            if starts_with(s, pat) {
                assert(matches_at(s, 0, pat));
            }
        }
        lemma_no_match_in_suffix(s, pat, 1);
        assert(s.skip(1) =~= s.drop_first());
        lemma_replace_absent(s.drop_first(), pat, rep);
        assert(seq![s[0]] + s.drop_first() =~= s);
    }
}

/// A suffix of a text without a pattern has none either.
pub proof fn lemma_no_match_in_suffix(s: Seq<char>, p: Seq<char>, k: int)
    requires
        0 <= k <= s.len(),
        !contains(s, p),
    ensures
        !contains(s.skip(k), p),
{
    if contains(s.skip(k), p) {
        let j = choose|j: int| matches_at(s.skip(k), j, p);
        assert(s.subrange(j + k, j + k + p.len()) =~= s.skip(k).subrange(j, j + p.len()));
        assert(matches_at(s, j + k, p));
    }
}

/// A prefix of a text without a pattern has none either.
pub proof fn lemma_no_match_in_prefix(s: Seq<char>, p: Seq<char>, k: int)
    requires
        0 <= k <= s.len(),
        !contains(s, p),
    ensures
        !contains(s.take(k), p),
{
    if contains(s.take(k), p) {
        let j = choose|j: int| matches_at(s.take(k), j, p);
        assert(s.subrange(j, j + p.len()) =~= s.take(k).subrange(j, j + p.len()));
        assert(matches_at(s, j, p));
    }
}

/// A text without `q` holds no pattern that starts with `q`.
pub proof fn lemma_no_longer_match(s: Seq<char>, q: Seq<char>, p: Seq<char>)
    requires
        !contains(s, q),
        starts_with(p, q),
    ensures
        !contains(s, p),
{
    if contains(s, p) {
        let j = choose|j: int| matches_at(s, j, p);
        assert(s.subrange(j, j + q.len()) =~= p.subrange(0, q.len() as int));
        assert(matches_at(s, j, q));
    }
}

/// A text put behind a prefix that holds no first character of the pattern
/// gains no occurrence of it.
pub proof fn lemma_no_match_behind(p: Seq<char>, x: Seq<char>, q: Seq<char>)
    requires
        q.len() > 0,
        forall|k: int| 0 <= k < p.len() ==> p[k] != q[0],
        !contains(x, q),
    ensures
        !contains(p + x, q),
{
    let s = p + x;
    if contains(s, q) {
        let j = choose|j: int| matches_at(s, j, q);
        assert(s.subrange(j, j + q.len())[0] == s[j]);
        if j < p.len() {
            assert(s[j] == p[j]);
        } else {
            assert(s.subrange(j, j + q.len()) =~= x.subrange(j - p.len(), j - p.len() + q.len()));
            assert(matches_at(x, j - p.len(), q));
        }
    }
}

/// Dropping a final carriage return of a text behind a prefix that does
/// not end in one only touches the text.
pub proof fn lemma_strip_cr_behind(p: Seq<char>, x: Seq<char>)
    requires
        p.len() > 0,
        p.last() != '\r',
    ensures
        strip_cr(p + x) == p + strip_cr(x),
{
    if x.len() > 0 && x.last() == '\r' {
        assert((p + x).drop_last() =~= p + x.drop_last());
    } else if x.len() == 0 {
        assert(p + x =~= p);
    }
}

/// Replacing every occurrence of a pattern in a text that begins with it
/// replaces that first occurrence and goes on behind it.
pub proof fn lemma_replace_leading(pat: Seq<char>, x: Seq<char>, rep: Seq<char>)
    requires
        pat.len() > 0,
    ensures
        replace_all(pat + x, pat, rep) == rep + replace_all(x, pat, rep),
{
    let s = pat + x;
    assert(s.subrange(0, pat.len() as int) =~= pat);
    assert(s.skip(pat.len() as int) =~= x);
}

} // verus!

verus! {

/// Replacement works on the two sides of a point independently when no
/// occurrence of the pattern straddles that point.
pub proof fn lemma_replace_split(s: Seq<char>, pat: Seq<char>, rep: Seq<char>, n: int)
    requires
        pat.len() > 0,
        0 <= n <= s.len(),
        forall|m: int| 0 <= m < n < m + pat.len() ==> !matches_at(s, m, pat),
    ensures
        replace_all(s, pat, rep) == replace_all(s.take(n), pat, rep) + replace_all(s.skip(n), pat, rep),
    decreases s.len(),
{
    if n == 0 {
        assert(s.take(0) =~= Seq::<char>::empty());
        assert(s.skip(0) =~= s);
    } else if starts_with(s, pat) {
        assert(matches_at(s, 0, pat));
        let k = pat.len() as int;
        assert(n >= k);
        let t = s.skip(k);
        assert forall|m: int| 0 <= m < n - k < m + pat.len() implies !matches_at(t, m, pat) by {
            if matches_at(t, m, pat) {
                assert(s.subrange(m + k, m + k + pat.len()) =~= t.subrange(m, m + pat.len()));
                assert(matches_at(s, m + k, pat));
            }
        }
        lemma_replace_split(t, pat, rep, n - k);
        let a = s.take(n);
        assert(a.subrange(0, k) =~= pat);
        assert(a.skip(k) =~= t.take(n - k));
        assert(s.skip(n) =~= t.skip(n - k));
    } else {
        let t = s.drop_first();
        assert forall|m: int| 0 <= m < n - 1 < m + pat.len() implies !matches_at(t, m, pat) by {
            if matches_at(t, m, pat) {
                assert(s.subrange(m + 1, m + 1 + pat.len()) =~= t.subrange(m, m + pat.len()));
                assert(matches_at(s, m + 1, pat));
            }
        }
        lemma_replace_split(t, pat, rep, n - 1);
        let a = s.take(n);
        if starts_with(a, pat) {
            assert(s.subrange(0, pat.len() as int) =~= a.subrange(0, pat.len() as int));
        }
        assert(a.drop_first() =~= t.take(n - 1));
        assert(a[0] == s[0]);
        assert(s.skip(n) =~= t.skip(n - 1));
    }
}

/// A text that ends in a line break still ends in one after every
/// occurrence of a pattern is replaced by a text that ends in one.
pub proof fn lemma_replace_keeps_final_newline(s: Seq<char>, pat: Seq<char>, rep: Seq<char>)
    requires
        pat.len() > 0,
        rep.len() > 0,
        rep.last() == '\n',
        s.len() > 0,
        s.last() == '\n',
    ensures
        replace_all(s, pat, rep).len() > 0,
        replace_all(s, pat, rep).last() == '\n',
    decreases s.len(),
{
    if starts_with(s, pat) {
        let t = s.skip(pat.len() as int);
        if t.len() > 0 {
            assert(t.last() == s.last());
            lemma_replace_keeps_final_newline(t, pat, rep);
        } else {
            assert(replace_all(t, pat, rep) =~= Seq::<char>::empty());
            assert(replace_all(s, pat, rep) =~= rep);
        }
    } else {
        let t = s.drop_first();
        if t.len() > 0 {
            assert(t.last() == s.last());
            lemma_replace_keeps_final_newline(t, pat, rep);
        } else {
            assert(replace_all(t, pat, rep) =~= Seq::<char>::empty());
            assert(replace_all(s, pat, rep) =~= seq![s[0]]);
        }
    }
}

/// Replacing in a text that is exactly the pattern gives the replacement.
pub proof fn lemma_replace_whole(pat: Seq<char>, rep: Seq<char>)
    requires
        pat.len() > 0,
    ensures
        replace_all(pat, pat, rep) == rep,
{
    lemma_replace_leading(pat, Seq::empty(), rep);
    assert(pat + Seq::<char>::empty() =~= pat);
    assert(rep + Seq::<char>::empty() =~= rep);
}

} // verus!

verus! {

/// `s` has no carriage return.
pub open spec fn no_cr(s: Seq<char>) -> bool {
    forall|i: int| 0 <= i < s.len() ==> s[i] != '\r'
}

/// A text without carriage returns that ends in a line break (or is empty)
/// is its lines joined again, and none of them holds a carriage return.
pub proof fn lemma_join_of_lines(s: Seq<char>)
    requires
        no_cr(s),
        s.len() == 0 || s.last() == '\n',
    ensures
        join_lines(lines(s)) == s,
        forall|k: int| 0 <= k < lines(s).len() ==> no_cr(#[trigger] lines(s)[k]),
    decreases s.len(),
{
    if s.len() == 0 {
        assert(join_lines(lines(s)) =~= s);
    } else {
        lemma_first_index_of(s, '\n');
        match first_index_of(s, '\n') {
            Some(i) => {
                let a = s.take(i);
                let rest = s.skip(i + 1);
                assert(no_cr(rest)) by {
                    assert forall|j: int| 0 <= j < rest.len() implies rest[j] != '\r' by {
                        assert(rest[j] == s[j + i + 1]);
                    }
                }
                if rest.len() > 0 {
                    assert(rest.last() == s.last());
                }
                lemma_join_of_lines(rest);
                assert(no_cr(a)) by {
                    assert forall|j: int| 0 <= j < a.len() implies a[j] != '\r' by {
                        assert(a[j] == s[j]);
                    }
                }
                if a.len() > 0 {
                    assert(a.last() == s[i - 1]);
                }
                assert(strip_cr(a) == a);
                let ls = lines(s);
                assert(ls == seq![a] + lines(rest));
                lemma_join_lines_front(ls);
                assert(ls.drop_first() =~= lines(rest));
                assert(s =~= a + seq!['\n'] + rest) by {
                    assert(s[i] == '\n');
                }
                assert forall|k: int| 0 <= k < ls.len() implies no_cr(#[trigger] ls[k]) by {
                    if k > 0 {
                        assert(ls[k] == lines(rest)[k - 1]);
                    }
                }
            },
            None => {
                assert(s[s.len() - 1] == '\n');
            },
        }
    }
}

} // verus!

verus! {

/// A text whose ASCII lower case holds an ASCII needle holds a run of ASCII
/// characters that lower-cases to it.
pub proof fn lemma_ascii_witness(s: Seq<char>, n: Seq<char>) -> (m: Seq<char>)
    requires
        is_ascii_text(n),
        contains(ascii_lower(s), n),
    ensures
        is_ascii_text(m),
        contains(s, m),
        ascii_lower(m) == n,
{
    let j = choose|j: int| matches_at(ascii_lower(s), j, n);
    let m = s.subrange(j, j + n.len());
    assert(ascii_lower(m) =~= ascii_lower(s).subrange(j, j + n.len()));
    assert forall|i: int| 0 <= i < m.len() implies m[i] <= '\u{7f}' by {
        assert(lower_char(m[i]) == n[i]);
    }
    assert(matches_at(s, j, m));
    m
}

/// `.appimage` is ASCII text already in lower case.
pub proof fn lemma_appimage_needle()
    ensures
        is_ascii_text(".appimage"@),
        ascii_lower(".appimage"@) == ".appimage"@,
{
    reveal_strlit(".appimage");
    assert(".appimage"@ =~= seq!['.', 'a', 'p', 'p', 'i', 'm', 'a', 'g', 'e']);
    assert(ascii_lower(".appimage"@) =~= ".appimage"@);
}

} // verus!
