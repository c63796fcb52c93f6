//! Unix path text: the final component, its extension and stem, joining.
//!
//! These follow `std::path::Path` on Unix for paths given as text: empty
//! components and `.` components are skipped, and a final `..` has no file
//! name.
use vstd::prelude::*;
use crate::text::{push_all, slice_chars, to_chars};

verus! {

/// Index just after the last `'/'` of `s`, or 0 when there is none.
pub open spec fn segment_start(s: Seq<char>) -> int
    decreases s.len(),
{
    if s.len() == 0 {
        0
    } else if s.last() == '/' {
        s.len() as int
    } else {
        segment_start(s.drop_last())
    }
}

pub proof fn lemma_segment_start(s: Seq<char>)
    ensures
        0 <= segment_start(s) <= s.len(),
        s.len() > 0 && s.last() != '/' ==> segment_start(s) < s.len(),
        forall|j: int| segment_start(s) <= j < s.len() ==> s[j] != '/',
        segment_start(s) > 0 ==> s[segment_start(s) - 1] == '/',
    decreases s.len(),
{
    if s.len() > 0 && s.last() != '/' {
        lemma_segment_start(s.drop_last());
        assert(forall|j: int| 0 <= j < s.len() - 1 ==> s.drop_last()[j] == s[j]);
    }
}

/// The last component of a path that is neither empty nor `.`.
pub open spec fn final_component(s: Seq<char>) -> Option<Seq<char>>
    decreases s.len(),
{
    if s.len() == 0 {
        None
    } else if s.last() == '/' {
        final_component(s.drop_last())
    } else {
        proof { lemma_segment_start(s); }
        let k = segment_start(s);
        if s.skip(k) =~= seq!['.'] {
            final_component(s.take(k))
        } else {
            Some(s.skip(k))
        }
    }
}

/// What `Path::file_name` returns.
pub open spec fn file_name(s: Seq<char>) -> Option<Seq<char>> {
    match final_component(s) {
        Some(c) => if c =~= seq!['.', '.'] {
            None
        } else {
            Some(c)
        },
        None => None,
    }
}

/// Index of the last `c` in `s`, if any.
pub open spec fn last_index_of(s: Seq<char>, c: char) -> Option<int>
    decreases s.len(),
{
    if s.len() == 0 {
        None
    } else if s.last() == c {
        Some(s.len() - 1)
    } else {
        last_index_of(s.drop_last(), c)
    }
}

pub proof fn lemma_last_index_of(s: Seq<char>, c: char)
    ensures
        match last_index_of(s, c) {
            Some(i) => 0 <= i < s.len() && s[i] == c && forall|j: int| i < j < s.len() ==> s[j] != c,
            None => forall|j: int| 0 <= j < s.len() ==> s[j] != c,
        },
    decreases s.len(),
{
    if s.len() > 0 && s.last() != c {
        lemma_last_index_of(s.drop_last(), c);
        assert(forall|j: int| 0 <= j < s.len() - 1 ==> s.drop_last()[j] == s[j]);
    }
}

/// The position of the dot that separates stem and extension in a file
/// name: the last `'.'`, provided something precedes it.
pub open spec fn extension_dot(f: Seq<char>) -> Option<int> {
    match last_index_of(f, '.') {
        Some(i) => if i > 0 {
            Some(i)
        } else {
            None
        },
        None => None,
    }
}

/// What `Path::extension` returns.
pub open spec fn extension(s: Seq<char>) -> Option<Seq<char>> {
    match file_name(s) {
        Some(f) => match extension_dot(f) {
            Some(i) => Some(f.skip(i + 1)),
            None => None,
        },
        None => None,
    }
}

/// What `Path::file_stem` returns.
pub open spec fn file_stem(s: Seq<char>) -> Option<Seq<char>> {
    match file_name(s) {
        Some(f) => match extension_dot(f) {
            Some(i) => Some(f.take(i)),
            None => Some(f),
        },
        None => None,
    }
}

/// What `Path::is_absolute` returns on Unix.
pub open spec fn is_absolute(s: Seq<char>) -> bool {
    s.len() > 0 && s[0] == '/'
}

/// What `Path::join` returns on Unix: an absolute `p` replaces `base`,
/// otherwise `p` is appended after a `'/'` unless `base` is empty or already
/// ends in one.
pub open spec fn join(base: Seq<char>, p: Seq<char>) -> Seq<char> {
    if is_absolute(p) {
        p
    } else if base.len() == 0 || base.last() == '/' {
        base + p
    } else {
        base + seq!['/'] + p
    }
}

// ---------------------------------------------------------------------------

/// Start of the last segment of `s[..end]`.
fn segment_start_exec(s: &Vec<char>, end: usize) -> (k: usize)
    requires
        end <= s.len(),
    ensures
        k as int == segment_start(s@.take(end as int)),
{
    let mut k = end;
    assert(s@.take(end as int).take(k as int) =~= s@.take(end as int));
    while k > 0 && s[k - 1] != '/'
        invariant
            k <= end <= s.len(),
            segment_start(s@.take(end as int)) == segment_start(s@.take(k as int)),
        decreases k,
    {
        assert(s@.take(k as int).drop_last() =~= s@.take(k - 1));
        k = k - 1;
    }
    k
}

/// The file name of a path, as `Path::file_name` gives it.
pub fn file_name_exec(s: &Vec<char>) -> (r: Option<Vec<char>>)
    ensures
        match r {
            Some(v) => file_name(s@) == Some(v@),
            None => file_name(s@) is None,
        },
{
    let mut end = s.len();
    assert(s@.take(end as int) =~= s@);
    loop
        invariant
            end <= s.len(),
            final_component(s@) == final_component(s@.take(end as int)),
        decreases end,
    {
        if end == 0 {
            return None;
        }
        if s[end - 1] == '/' {
            assert(s@.take(end as int).drop_last() =~= s@.take(end - 1));
            end = end - 1;
        } else {
            let ghost t = s@.take(end as int);
            let k = segment_start_exec(s, end);
            proof { lemma_segment_start(t); }
            assert(t.take(k as int) =~= s@.take(k as int));
            assert(t.skip(k as int) =~= s@.subrange(k as int, end as int));
            if end - k == 1 && s[k] == '.' {
                assert(t.skip(k as int) =~= seq!['.']);
                end = k;
            } else {
                assert(!(t.skip(k as int) =~= seq!['.'])) by {
                    assert(t.skip(k as int).len() == end - k);
                    if end - k == 1 {
                        assert(t.skip(k as int)[0] == s@[k as int]);
                    }
                }
                let seg = slice_chars(s, k, end);
                if end - k == 2 && s[k] == '.' && s[k + 1] == '.' {
                    assert(seg@ =~= seq!['.', '.']);
                    return None;
                }
                assert(!(seg@ =~= seq!['.', '.']));
                return Some(seg);
            }
        }
    }
}

/// Index of the last `c` in `s`.
fn last_index_of_exec(s: &Vec<char>, c: char) -> (r: Option<usize>)
    ensures
        match r {
            Some(i) => last_index_of(s@, c) == Some(i as int),
            None => last_index_of(s@, c) is None,
        },
{
    let mut k = s.len();
    assert(s@.take(k as int) =~= s@);
    while k > 0
        invariant
            k <= s.len(),
            last_index_of(s@, c) == last_index_of(s@.take(k as int), c),
        decreases k,
    {
        if s[k - 1] == c {
            return Some(k - 1);
        }
        assert(s@.take(k as int).drop_last() =~= s@.take(k - 1));
        k = k - 1;
    }
    None
}

/// The position of the dot before the extension of a file name.
fn extension_dot_exec(f: &Vec<char>) -> (r: Option<usize>)
    ensures
        match r {
            Some(i) => extension_dot(f@) == Some(i as int),
            None => extension_dot(f@) is None,
        },
{
    match last_index_of_exec(f, '.') {
        Some(i) => if i > 0 {
            Some(i)
        } else {
            None
        },
        None => None,
    }
}

/// The extension of a path, as `Path::extension` gives it.
pub fn extension_exec(s: &Vec<char>) -> (r: Option<Vec<char>>)
    ensures
        match r {
            Some(v) => extension(s@) == Some(v@),
            None => extension(s@) is None,
        },
{
    match file_name_exec(s) {
        Some(f) => match extension_dot_exec(&f) {
            Some(i) => {
                proof { lemma_last_index_of(f@, '.'); }
                let e = slice_chars(&f, i + 1, f.len());
                assert(e@ =~= f@.skip(i + 1));
                Some(e)
            },
            None => None,
        },
        None => None,
    }
}

/// The stem of a path, as `Path::file_stem` gives it.
pub fn file_stem_exec(s: &Vec<char>) -> (r: Option<Vec<char>>)
    ensures
        match r {
            Some(v) => file_stem(s@) == Some(v@),
            None => file_stem(s@) is None,
        },
{
    match file_name_exec(s) {
        Some(f) => match extension_dot_exec(&f) {
            Some(i) => {
                proof { lemma_last_index_of(f@, '.'); }
                let e = slice_chars(&f, 0, i);
                assert(e@ =~= f@.take(i as int));
                Some(e)
            },
            None => Some(f),
        },
        None => None,
    }
}

/// `base` joined with `p`, as `Path::join` does it.
pub fn join_exec(base: &Vec<char>, p: &Vec<char>) -> (r: Vec<char>)
    ensures
        r@ == join(base@, p@),
{
    if p.len() > 0 && p[0] == '/' {
        let mut r = Vec::new();
        push_all(&mut r, p);
        return r;
    }
    let mut r = Vec::new();
    push_all(&mut r, base);
    if !(base.len() == 0 || base[base.len() - 1] == '/') {
        r.push('/');
    }
    push_all(&mut r, p);
    r
}

/// `base` joined with a literal relative path.
pub fn join_str(base: &Vec<char>, p: &str) -> (r: Vec<char>)
    ensures
        r@ == join(base@, p@),
{
    let pv = to_chars(p);
    join_exec(base, &pv)
}

pub fn is_absolute_exec(s: &Vec<char>) -> (b: bool)
    ensures
        b == is_absolute(s@),
{
    s.len() > 0 && s[0] == '/'
}

} // verus!

verus! {

/// A single path component that names a file: non-empty, without `'/'`,
/// and neither `.` nor `..`.
pub open spec fn is_plain_name(f: Seq<char>) -> bool {
    &&& f.len() > 0
    &&& forall|i: int| 0 <= i < f.len() ==> f[i] != '/'
    &&& f != seq!['.']
    &&& f != seq!['.', '.']
}

proof fn lemma_segment_start_of_name(prefix: Seq<char>, f: Seq<char>)
    requires
        f.len() > 0,
        forall|i: int| 0 <= i < f.len() ==> f[i] != '/',
        prefix.len() == 0 || prefix.last() == '/',
    ensures
        segment_start(prefix + f) == prefix.len(),
    decreases f.len(),
{
    let s = prefix + f;
    if f.len() == 1 {
        assert(s.drop_last() =~= prefix);
        assert(s.last() == f[0]);
        assert(f[0] != '/');
        assert(segment_start(prefix) == prefix.len());
    } else {
        assert(f.last() != '/');
        assert(s.drop_last() =~= prefix + f.drop_last());
        assert(s.last() == f.last());
        lemma_segment_start_of_name(prefix, f.drop_last());
    }
}

/// The file name of a plain name placed in a directory is that name.
pub proof fn lemma_file_name_of_join(dir: Seq<char>, f: Seq<char>)
    requires
        is_plain_name(f),
    ensures
        file_name(join(dir, f)) == Some(f),
{
    let prefix = if dir.len() == 0 || dir.last() == '/' {
        dir
    } else {
        dir + seq!['/']
    };
    assert(!is_absolute(f));
    assert(join(dir, f) =~= prefix + f);
    lemma_segment_start_of_name(prefix, f);
    let s = prefix + f;
    assert(s.last() == f.last());
    assert(s.skip(prefix.len() as int) =~= f);
}

/// The file name a path yields is a plain name.
pub proof fn lemma_file_name_is_plain(s: Seq<char>)
    ensures
        file_name(s) matches Some(f) ==> is_plain_name(f),
    decreases s.len(),
{
    lemma_final_component_is_plain(s);
}

proof fn lemma_final_component_is_plain(s: Seq<char>)
    ensures
        final_component(s) matches Some(f) ==> f.len() > 0 && (forall|i: int| 0 <= i < f.len() ==> f[i] != '/') && f != seq!['.'],
    decreases s.len(),
{
    if s.len() > 0 {
        if s.last() == '/' {
            lemma_final_component_is_plain(s.drop_last());
        } else {
            lemma_segment_start(s);
            let k = segment_start(s);
            if s.skip(k) =~= seq!['.'] {
                lemma_final_component_is_plain(s.take(k));
            } else {
                assert forall|i: int| 0 <= i < s.skip(k).len() implies s.skip(k)[i] != '/' by {
                    assert(s.skip(k)[i] == s[k + i]);
                }
            }
        }
    }
}

} // verus!
