//! File names and extensions of Windows paths, as `std::path::Path` reads
//! them on Windows.
//!
//! A path may begin with a prefix that is not a component: a drive (`C:`),
//! `\\server\share` when both names are present, a device `\\.\name`, or
//! a verbatim prefix written with back slashes: `\\?\UNC\server\share`,
//! `\\?\C:` or `\\?\name`.  After a verbatim prefix only `'\\'`
//! separates components and a `.` component is kept; elsewhere `'\\'` and
//! `'/'` both separate and `.` components are skipped.  Empty components
//! are skipped, and a final `..` (or kept `.`) has no file name.

use vstd::prelude::*;

verus! {

pub open spec fn is_separator(c: char) -> bool {
    c == '\\' || c == '/'
}

/// A separator after a prefix of the given kind: only `'\\'` after a
/// verbatim prefix.
pub open spec fn separates(c: char, verbatim: bool) -> bool {
    if verbatim {
        c == '\\'
    } else {
        is_separator(c)
    }
}

pub open spec fn is_ascii_letter(c: char) -> bool {
    ('a' <= c && c <= 'z') || ('A' <= c && c <= 'Z')
}

/// The least separator index at or after `i`, or `p.len()` when there is none.
pub open spec fn next_separator(p: Seq<char>, i: int, verbatim: bool) -> int
    recommends
        0 <= i,
    decreases p.len() - i,
{
    if i < 0 || i >= p.len() {
        p.len() as int
    } else if separates(p[i], verbatim) {
        i
    } else {
        next_separator(p, i + 1, verbatim)
    }
}

pub proof fn lemma_next_separator(p: Seq<char>, i: int, verbatim: bool)
    requires
        0 <= i,
    ensures
        i <= next_separator(p, i, verbatim) <= p.len() || (i > p.len() && next_separator(p, i, verbatim)
            == p.len()),
    decreases p.len() - i,
{
    if i < p.len() && !separates(p[i], verbatim) {
        lemma_next_separator(p, i + 1, verbatim);
    }
}

/// The path begins with the verbatim marker `\\?\`, written with back
/// slashes only.
pub open spec fn is_verbatim(p: Seq<char>) -> bool {
    p.len() >= 4 && p[0] == '\\' && p[1] == '\\' && p[2] == '?' && p[3] == '\\'
}

/// Length of the prefix that is not part of any component.
pub open spec fn prefix_len(p: Seq<char>) -> int {
    if is_verbatim(p) {
        if p.len() >= 8 && p[4] == 'U' && p[5] == 'N' && p[6] == 'C' && is_separator(p[7]) {
            // \\?\UNC\server\share
            let a = next_separator(p, 8, true);
            if a >= p.len() {
                p.len() as int
            } else {
                let b = next_separator(p, a + 1, true);
                if b == a + 1 {
                    a
                } else {
                    b
                }
            }
        } else if p.len() >= 6 && is_ascii_letter(p[4]) && p[5] == ':' && (p.len() == 6
            || is_separator(p[6])) {
            // \\?\C:
            6
        } else {
            // \\?\name
            next_separator(p, 4, true)
        }
    } else if p.len() >= 2 && is_separator(p[0]) && is_separator(p[1]) {
        if p.len() >= 4 && p[2] == '.' && is_separator(p[3]) {
            // \\.\device
            next_separator(p, 4, false)
        } else {
            // \\server\share, when both names are present
            let a = next_separator(p, 2, false);
            if a == 2 || a >= p.len() {
                0
            } else {
                let b = next_separator(p, a + 1, false);
                if b == a + 1 {
                    0
                } else {
                    b
                }
            }
        }
    } else if p.len() >= 2 && is_ascii_letter(p[0]) && p[1] == ':' {
        2
    } else {
        0
    }
}

/// Index of the last occurrence of `c` in `s`, or `-1`.
pub open spec fn last_index_of(s: Seq<char>, c: char) -> int
    decreases s.len(),
{
    if s.len() == 0 {
        -1
    } else if s.last() == c {
        s.len() - 1
    } else {
        last_index_of(s.drop_last(), c)
    }
}

/// Index of the last separator in `s`, or `-1`.
pub open spec fn last_separator(s: Seq<char>, verbatim: bool) -> int
    decreases s.len(),
{
    if s.len() == 0 {
        -1
    } else if separates(s.last(), verbatim) {
        s.len() - 1
    } else {
        last_separator(s.drop_last(), verbatim)
    }
}

pub proof fn lemma_last_separator(s: Seq<char>, verbatim: bool)
    ensures
        -1 <= last_separator(s, verbatim) < s.len(),
        last_separator(s, verbatim) >= 0 ==> separates(s[last_separator(s, verbatim)], verbatim),
        forall|j: int|
            last_separator(s, verbatim) < j < s.len() ==> !separates(#[trigger] s[j], verbatim),
    decreases s.len(),
{
    if s.len() > 0 && !separates(s.last(), verbatim) {
        lemma_last_separator(s.drop_last(), verbatim);
        assert forall|j: int| last_separator(s, verbatim) < j < s.len() implies !separates(
            #[trigger] s[j],
            verbatim,
        ) by {
            if j < s.len() - 1 {
                assert(s.drop_last()[j] == s[j]);
            }
        }
    }
}

pub proof fn lemma_last_index_of(s: Seq<char>, c: char)
    ensures
        -1 <= last_index_of(s, c) < s.len(),
        last_index_of(s, c) >= 0 ==> s[last_index_of(s, c)] == c,
        forall|j: int| last_index_of(s, c) < j < s.len() ==> #[trigger] s[j] != c,
    decreases s.len(),
{
    if s.len() > 0 && s.last() != c {
        lemma_last_index_of(s.drop_last(), c);
        assert forall|j: int| last_index_of(s, c) < j < s.len() implies #[trigger] s[j] != c by {
            if j < s.len() - 1 {
                assert(s.drop_last()[j] == s[j]);
            }
        }
    }
}

/// A component that is skipped: an empty one, and `.` unless the path is
/// verbatim.
pub open spec fn skipped(seg: Seq<char>, verbatim: bool) -> bool {
    seg.len() == 0 || (!verbatim && seg == seq!['.'])
}

/// The last component of a prefix-free path that is not skipped.
pub open spec fn last_component(s: Seq<char>, verbatim: bool) -> Option<Seq<char>>
    decreases s.len(),
{
    if s.len() == 0 {
        None
    } else {
        let k = last_separator(s, verbatim);
        proof {
            lemma_last_separator(s, verbatim);
        }
        let seg = s.subrange(k + 1, s.len() as int);
        if skipped(seg, verbatim) {
            last_component(s.subrange(0, if k < 0 { 0 } else { k }), verbatim)
        } else {
            Some(seg)
        }
    }
}

/// What `Path::file_name` gives for `p`: the last component when it is a
/// name (not `..`, nor a kept `.`).
pub open spec fn file_name(p: Seq<char>) -> Option<Seq<char>> {
    match last_component(p.subrange(prefix_len(p), p.len() as int), is_verbatim(p)) {
        Some(c) => if c == seq!['.', '.'] || c == seq!['.'] {
            None
        } else {
            Some(c)
        },
        None => None,
    }
}

/// What `Path::extension` gives for `p`: the text after the last dot of the
/// file name, unless that dot opens the name.
pub open spec fn extension(p: Seq<char>) -> Option<Seq<char>> {
    match file_name(p) {
        Some(n) => {
            let d = last_index_of(n, '.');
            if d <= 0 {
                None
            } else {
                Some(n.subrange(d + 1, n.len() as int))
            }
        },
        None => None,
    }
}

/// What `Path::file_stem` gives for `p`.
pub open spec fn file_stem(p: Seq<char>) -> Option<Seq<char>> {
    match file_name(p) {
        Some(n) => {
            let d = last_index_of(n, '.');
            if d <= 0 {
                Some(n)
            } else {
                Some(n.subrange(0, d))
            }
        },
        None => None,
    }
}

/// File name, stem and extension agree: a name with an extension is its
/// stem, a dot and the extension, with a non-empty stem; a name without one
/// is its own stem; a path without a file name has neither.
pub proof fn lemma_name_parts_law(p: Seq<char>)
    ensures
        file_name(p) is None ==> file_stem(p) is None && extension(p) is None,
        file_name(p) matches Some(n) ==> match extension(p) {
            Some(e) => file_stem(p) matches Some(s) && s.len() > 0 && n == s + "."@ + e && !(
            exists|i: int| 0 <= i < e.len() && e[i] == '.'),
            None => file_stem(p) == Some(n),
        },
{
    if let Some(n) = file_name(p) {
        lemma_last_index_of(n, '.');
        let d = last_index_of(n, '.');
        if d > 0 {
            assert(n =~= n.subrange(0, d) + "."@ + n.subrange(d + 1, n.len() as int)) by {
                reveal_strlit(".");
            }
        }
    }
}

fn char_separates(c: char, verbatim: bool) -> (r: bool)
    ensures
        r == separates(c, verbatim),
{
    if verbatim {
        c == '\\'
    } else {
        c == '\\' || c == '/'
    }
}

fn next_separator_exec(p: &[char], i: usize, verbatim: bool) -> (r: usize)
    requires
        i <= p@.len(),
    ensures
        r == next_separator(p@, i as int, verbatim),
        i <= r <= p@.len(),
{
    let mut j = i;
    while j < p.len() && !char_separates(p[j], verbatim)
        invariant
            i <= j <= p@.len(),
            next_separator(p@, i as int, verbatim) == next_separator(p@, j as int, verbatim),
        decreases p@.len() - j,
    {
        j = j + 1;
    }
    j
}

fn is_letter(c: char) -> (r: bool)
    ensures
        r == is_ascii_letter(c),
{
    ('a' <= c && c <= 'z') || ('A' <= c && c <= 'Z')
}

fn is_verbatim_exec(p: &[char]) -> (r: bool)
    ensures
        r == is_verbatim(p@),
{
    p.len() >= 4 && p[0] == '\\' && p[1] == '\\' && p[2] == '?' && p[3] == '\\'
}

fn prefix_len_exec(p: &[char]) -> (r: usize)
    ensures
        r == prefix_len(p@),
        r <= p@.len(),
{
    let n = p.len();
    if is_verbatim_exec(p) {
        if n >= 8 && p[4] == 'U' && p[5] == 'N' && p[6] == 'C' && char_separates(p[7], false) {
            let a = next_separator_exec(p, 8, true);
            if a >= n {
                n
            } else {
                let b = next_separator_exec(p, a + 1, true);
                if b == a + 1 {
                    a
                } else {
                    b
                }
            }
        } else if n >= 6 && is_letter(p[4]) && p[5] == ':' && (n == 6 || char_separates(
            p[6],
            false,
        )) {
            6
        } else {
            next_separator_exec(p, 4, true)
        }
    } else if n >= 2 && char_separates(p[0], false) && char_separates(p[1], false) {
        if n >= 4 && p[2] == '.' && char_separates(p[3], false) {
            next_separator_exec(p, 4, false)
        } else {
            let a = next_separator_exec(p, 2, false);
            if a == 2 || a >= n {
                0
            } else {
                let b = next_separator_exec(p, a + 1, false);
                if b == a + 1 {
                    0
                } else {
                    b
                }
            }
        }
    } else if n >= 2 && is_letter(p[0]) && p[1] == ':' {
        2
    } else {
        0
    }
}

fn last_separator_exec(s: &[char], verbatim: bool) -> (r: Option<usize>)
    ensures
        match r {
            Some(k) => last_separator(s@, verbatim) == k,
            None => last_separator(s@, verbatim) == -1,
        },
{
    let mut i = s.len();
    assert(s@.subrange(0, i as int) =~= s@);
    while i > 0 && !char_separates(s[i - 1], verbatim)
        invariant
            i <= s@.len(),
            last_separator(s@, verbatim) == last_separator(s@.subrange(0, i as int), verbatim),
        decreases i,
    {
        assert(s@.subrange(0, i as int).drop_last() =~= s@.subrange(0, i - 1));
        i = i - 1;
    }
    if i == 0 {
        None
    } else {
        Some(i - 1)
    }
}

fn last_dot_exec(s: &[char]) -> (r: Option<usize>)
    ensures
        match r {
            Some(k) => last_index_of(s@, '.') == k,
            None => last_index_of(s@, '.') == -1,
        },
{
    let mut i = s.len();
    assert(s@.subrange(0, i as int) =~= s@);
    while i > 0 && s[i - 1] != '.'
        invariant
            i <= s@.len(),
            last_index_of(s@, '.') == last_index_of(s@.subrange(0, i as int), '.'),
        decreases i,
    {
        assert(s@.subrange(0, i as int).drop_last() =~= s@.subrange(0, i - 1));
        i = i - 1;
    }
    if i == 0 {
        None
    } else {
        Some(i - 1)
    }
}

fn last_component_exec(s: &[char], verbatim: bool) -> (r: Option<Vec<char>>)
    ensures
        match r {
            Some(v) => last_component(s@, verbatim) == Some(v@),
            None => last_component(s@, verbatim) is None,
        },
{
    let mut hi = s.len();
    assert(s@.subrange(0, hi as int) =~= s@);
    loop
        invariant
            hi <= s@.len(),
            last_component(s@, verbatim) == last_component(s@.subrange(0, hi as int), verbatim),
        decreases hi,
    {
        let t = &s[0..hi];
        if hi == 0 {
            return None;
        }
        let k = last_separator_exec(t, verbatim);
        proof {
            lemma_last_separator(t@, verbatim);
        }
        let start: usize = match k {
            Some(k) => k + 1,
            None => 0,
        };
        let seg = &t[start..hi];
        let dot = seg.len() == 1 && seg[0] == '.';
        proof {
            if dot {
                assert(seg@ =~= seq!['.']);
            }
            if seg@ == seq!['.'] {
                assert(seg@[0] == '.');
            }
        }
        if seg.len() == 0 || (!verbatim && dot) {
            let next: usize = match k {
                Some(k) => k,
                None => 0,
            };
            assert(t@.subrange(0, next as int) =~= s@.subrange(0, next as int));
            hi = next;
        } else {
            return Some(vstd::slice::slice_to_vec(seg));
        }
    }
}

/// The file name of the path `p`.
pub fn file_name_of(p: &[char]) -> (r: Option<Vec<char>>)
    ensures
        match r {
            Some(v) => file_name(p@) == Some(v@),
            None => file_name(p@) is None,
        },
{
    let pre = prefix_len_exec(p);
    let verbatim = is_verbatim_exec(p);
    let n = p.len();
    match last_component_exec(&p[pre..n], verbatim) {
        Some(c) => {
            let dots = (c.len() == 2 && c[0] == '.' && c[1] == '.') || (c.len() == 1 && c[0] == '.');
            proof {
                if c.len() == 2 && c[0] == '.' && c[1] == '.' {
                    assert(c@ =~= seq!['.', '.']);
                }
                if c.len() == 1 && c[0] == '.' {
                    assert(c@ =~= seq!['.']);
                }
                if c@ == seq!['.', '.'] {
                    assert(c@[0] == '.' && c@[1] == '.');
                }
                if c@ == seq!['.'] {
                    assert(c@[0] == '.');
                }
            }
            if dots {
                None
            } else {
                Some(c)
            }
        },
        None => None,
    }
}

/// The extension of the path `p`, as `Path::extension` reads it.
pub fn extension_of(p: &[char]) -> (r: Option<Vec<char>>)
    ensures
        match r {
            Some(v) => extension(p@) == Some(v@),
            None => extension(p@) is None,
        },
{
    match file_name_of(p) {
        Some(n) => match last_dot_exec(&n) {
            Some(d) => {
                if d == 0 {
                    None
                } else {
                    proof {
                        lemma_last_index_of(n@, '.');
                    }
                    let len = n.len();
                    Some(vstd::slice::slice_to_vec(&n[d + 1..len]))
                }
            },
            None => None,
        },
        None => None,
    }
}

/// The file stem of the path `p`, as `Path::file_stem` reads it.
pub fn file_stem_of(p: &[char]) -> (r: Option<Vec<char>>)
    ensures
        match r {
            Some(v) => file_stem(p@) == Some(v@),
            None => file_stem(p@) is None,
        },
{
    match file_name_of(p) {
        Some(n) => match last_dot_exec(&n) {
            Some(d) => {
                if d == 0 {
                    Some(n)
                } else {
                    proof {
                        lemma_last_index_of(n@, '.');
                    }
                    Some(vstd::slice::slice_to_vec(&n[0..d]))
                }
            },
            None => Some(n),
        },
        None => None,
    }
}

} // verus!
