//! Character-level text model shared by the parsers and validators.
//!
//! Strings are modelled by their view, a `Seq<char>`.  The functions here
//! give the meaning of the std string operations the library relies on
//! (`trim`, `contains`, `starts_with`, `split`, `lines`, decimal formatting)
//! and verified executable counterparts working on `&[char]`.

use vstd::prelude::*;

verus! {

/// Unicode `White_Space` property, the set `char::is_whitespace` tests.
pub open spec fn is_space(c: char) -> bool {
    ||| ('\t' <= c && c <= '\r')
    ||| c == ' '
    ||| c == '\u{85}'
    ||| c == '\u{A0}'
    ||| c == '\u{1680}'
    ||| ('\u{2000}' <= c && c <= '\u{200A}')
    ||| c == '\u{2028}'
    ||| c == '\u{2029}'
    ||| c == '\u{202F}'
    ||| c == '\u{205F}'
    ||| c == '\u{3000}'
}

pub fn char_is_space(c: char) -> (r: bool)
    ensures
        r == is_space(c),
{
    ('\t' <= c && c <= '\r') || c == ' ' || c == '\u{85}' || c == '\u{A0}' || c == '\u{1680}'
        || ('\u{2000}' <= c && c <= '\u{200A}') || c == '\u{2028}' || c == '\u{2029}' || c
        == '\u{202F}' || c == '\u{205F}' || c == '\u{3000}'
}

/// `s` with its leading white space removed.
pub open spec fn trim_start(s: Seq<char>) -> Seq<char>
    decreases s.len(),
{
    if s.len() > 0 && is_space(s[0]) {
        trim_start(s.drop_first())
    } else {
        s
    }
}

/// `s` with its trailing white space removed.
pub open spec fn trim_end(s: Seq<char>) -> Seq<char>
    decreases s.len(),
{
    if s.len() > 0 && is_space(s.last()) {
        trim_end(s.drop_last())
    } else {
        s
    }
}

/// What `str::trim` gives back.
pub open spec fn trim(s: Seq<char>) -> Seq<char> {
    trim_end(trim_start(s))
}

/// `s` holds only white space (or nothing).
pub open spec fn is_blank(s: Seq<char>) -> bool {
    trim(s).len() == 0
}

pub proof fn lemma_trim_start_suffix(s: Seq<char>, i: int)
    requires
        0 <= i <= s.len(),
        forall|k: int| 0 <= k < i ==> is_space(#[trigger] s[k]),
    ensures
        trim_start(s) == trim_start(s.subrange(i, s.len() as int)),
    decreases i,
{
    if i > 0 {
        lemma_trim_start_suffix(s, i - 1);
        let t = s.subrange(i - 1, s.len() as int);
        assert(t.drop_first() =~= s.subrange(i, s.len() as int));
    } else {
        assert(s.subrange(0, s.len() as int) =~= s);
    }
}

pub proof fn lemma_trim_end_prefix(s: Seq<char>, j: int)
    requires
        0 <= j <= s.len(),
        forall|k: int| j <= k < s.len() ==> is_space(#[trigger] s[k]),
    ensures
        trim_end(s) == trim_end(s.subrange(0, j)),
    decreases s.len() - j,
{
    if j < s.len() {
        lemma_trim_end_prefix(s, j + 1);
        let t = s.subrange(0, j + 1);
        assert(t.drop_last() =~= s.subrange(0, j));
    } else {
        assert(s.subrange(0, s.len() as int) =~= s);
    }
}

/// The bounds `[lo, hi)` of `trim(cs)` inside `cs`.
pub fn trim_bounds(cs: &[char]) -> (r: (usize, usize))
    ensures
        r.0 <= r.1 <= cs@.len(),
        cs@.subrange(r.0 as int, r.1 as int) == trim(cs@),
{
    let n = cs.len();
    let mut lo: usize = 0;
    while lo < n && char_is_space(cs[lo])
        invariant
            lo <= n == cs@.len(),
            forall|k: int| 0 <= k < lo ==> is_space(#[trigger] cs@[k]),
        decreases n - lo,
    {
        lo = lo + 1;
    }
    let mut hi: usize = n;
    while hi > lo && char_is_space(cs[hi - 1])
        invariant
            lo <= hi <= n == cs@.len(),
            forall|k: int| hi <= k < n ==> is_space(#[trigger] cs@[k]),
        decreases hi,
    {
        hi = hi - 1;
    }
    proof {
        let s = cs@;
        lemma_trim_start_suffix(s, lo as int);
        let t = s.subrange(lo as int, n as int);
        assert(trim_start(t) == t) by {
            if t.len() > 0 {
                assert(t[0] == s[lo as int]);
            }
        }
        lemma_trim_end_prefix(t, hi - lo);
        let u = t.subrange(0, hi - lo);
        assert(u =~= s.subrange(lo as int, hi as int));
        assert(trim_end(u) == u) by {
            if u.len() > 0 {
                assert(u.last() == s[hi - 1]);
            }
        }
    }
    (lo, hi)
}


/// `p` occurs in `s` starting at index `i`.
pub open spec fn occurs_at(s: Seq<char>, p: Seq<char>, i: int) -> bool {
    0 <= i && i + p.len() <= s.len() && s.subrange(i, i + p.len()) == p
}

/// What `str::starts_with` answers.
pub open spec fn starts_with(s: Seq<char>, p: Seq<char>) -> bool {
    occurs_at(s, p, 0)
}

/// What `str::contains` answers.
pub open spec fn contains(s: Seq<char>, p: Seq<char>) -> bool {
    exists|i: int| occurs_at(s, p, i)
}

/// Index of the leftmost occurrence of `p` in `s`, or `-1` when there is none.
pub open spec fn first_match(s: Seq<char>, p: Seq<char>) -> int
    decreases s.len(),
{
    if s.len() < p.len() {
        -1
    } else if s.subrange(0, p.len() as int) == p {
        0
    } else if s.len() == 0 {
        -1
    } else {
        let r = first_match(s.drop_first(), p);
        if r < 0 {
            -1
        } else {
            r + 1
        }
    }
}

pub proof fn lemma_occurs_drop_first(s: Seq<char>, p: Seq<char>, k: int)
    requires
        s.len() > 0,
        k >= 0,
    ensures
        occurs_at(s.drop_first(), p, k) <==> occurs_at(s, p, k + 1),
{
    if 0 <= k && k + p.len() <= s.len() - 1 {
        assert(s.drop_first().subrange(k, k + p.len()) =~= s.subrange(k + 1, k + 1 + p.len()));
    }
}

/// `first_match` is the leftmost occurrence.
pub proof fn lemma_first_match(s: Seq<char>, p: Seq<char>)
    ensures
        first_match(s, p) >= -1,
        first_match(s, p) >= 0 ==> occurs_at(s, p, first_match(s, p)),
        forall|k: int| 0 <= k && (first_match(s, p) < 0 || k < first_match(s, p)) ==> !occurs_at(s, p, k),
    decreases s.len(),
{
    let r = first_match(s, p);
    if s.len() < p.len() {
    } else if s.subrange(0, p.len() as int) == p {
    } else if s.len() == 0 {
        assert(s.subrange(0, p.len() as int) =~= p);
    } else {
        lemma_first_match(s.drop_first(), p);
        assert forall|k: int| 0 <= k && (r < 0 || k < r) implies !occurs_at(s, p, k) by {
            if k > 0 {
                lemma_occurs_drop_first(s, p, k - 1);
            }
        }
        if r >= 0 {
            lemma_occurs_drop_first(s, p, r - 1);
        }
    }
}

/// The leftmost occurrence determines `first_match`.
pub proof fn lemma_first_match_unique(s: Seq<char>, p: Seq<char>, i: int)
    requires
        i == -1 || occurs_at(s, p, i),
        forall|k: int| 0 <= k && (i < 0 || k < i) ==> !occurs_at(s, p, k),
    ensures
        first_match(s, p) == i,
{
    lemma_first_match(s, p);
    let r = first_match(s, p);
    if r >= 0 && i >= 0 {
        assert(!(r < i));
        assert(!(i < r));
    }
}

/// The pieces `str::split` yields for the non-empty pattern `p`.
pub open spec fn split_by(s: Seq<char>, p: Seq<char>) -> Seq<Seq<char>>
    recommends
        p.len() > 0,
    decreases s.len(),
{
    let i = first_match(s, p);
    if p.len() == 0 || i < 0 {
        seq![s]
    } else {
        proof {
            lemma_first_match(s, p);
        }
        seq![s.subrange(0, i)] + split_by(s.subrange(i + p.len(), s.len() as int), p)
    }
}

/// `l` without the one carriage return that may end it.
pub open spec fn strip_cr(l: Seq<char>) -> Seq<char> {
    if l.len() > 0 && l.last() == '\r' {
        l.drop_last()
    } else {
        l
    }
}

/// The lines `str::lines` yields: split at `'\n'`, a `'\r'` before the
/// `'\n'` dropped, and no empty line after a final `'\n'`.
pub open spec fn lines(s: Seq<char>) -> Seq<Seq<char>>
    decreases s.len(),
{
    let i = first_match(s, seq!['\n']);
    if s.len() == 0 {
        seq![]
    } else if i < 0 {
        seq![s]
    } else {
        proof {
            lemma_first_match(s, seq!['\n']);
        }
        seq![strip_cr(s.subrange(0, i))] + lines(s.subrange(i + 1, s.len() as int))
    }
}

/// The views of a sequence of character vectors.
pub open spec fn views_of(v: Seq<Vec<char>>) -> Seq<Seq<char>> {
    v.map_values(|x: Vec<char>| x@)
}

/// Index of the leftmost occurrence of `pat` in `cs`.
pub fn find(cs: &[char], pat: &[char]) -> (r: Option<usize>)
    ensures
        match r {
            Some(i) => first_match(cs@, pat@) == i,
            None => first_match(cs@, pat@) == -1,
        },
{
    let n = cs.len();
    let m = pat.len();
    if m > n {
        proof {
            lemma_first_match_unique(cs@, pat@, -1);
        }
        return None;
    }
    let mut i: usize = 0;
    while i <= n - m
        invariant
            n == cs@.len(),
            m == pat@.len(),
            m <= n,
            i <= n - m + 1,
            forall|k: int| 0 <= k < i ==> !occurs_at(cs@, pat@, k),
        decreases n - m + 1 - i,
    {
        let mut j: usize = 0;
        while j < m && cs[i + j] == pat[j]
            invariant
                n == cs@.len(),
                m == pat@.len(),
                i + m <= n,
                j <= m,
                forall|t: int| 0 <= t < j ==> cs@[i + t] == pat@[t],
            decreases m - j,
        {
            j = j + 1;
        }
        if j == m {
            proof {
                assert(cs@.subrange(i as int, i + m) =~= pat@);
                lemma_first_match_unique(cs@, pat@, i as int);
            }
            return Some(i);
        }
        proof {
            assert(cs@.subrange(i as int, i + m)[j as int] != pat@[j as int]);
        }
        i = i + 1;
    }
    proof {
        assert forall|k: int| 0 <= k implies !occurs_at(cs@, pat@, k) by {
            if k >= i {
            }
        }
        lemma_first_match_unique(cs@, pat@, -1);
    }
    None
}

/// Whether `pat` occurs in `cs`.
pub fn contains_chars(cs: &[char], pat: &[char]) -> (r: bool)
    ensures
        r == contains(cs@, pat@),
{
    proof {
        lemma_first_match(cs@, pat@);
    }
    match find(cs, pat) {
        Some(_) => true,
        None => {
            assert(!contains(cs@, pat@));
            false
        },
    }
}

/// Whether `cs` begins with `pat`.
pub fn starts_with_chars(cs: &[char], pat: &[char]) -> (r: bool)
    ensures
        r == starts_with(cs@, pat@),
{
    if pat.len() > cs.len() {
        return false;
    }
    let mut j: usize = 0;
    while j < pat.len()
        invariant
            pat@.len() <= cs@.len(),
            j <= pat@.len(),
            forall|t: int| 0 <= t < j ==> cs@[t] == pat@[t],
        decreases pat@.len() - j,
    {
        if cs[j] != pat[j] {
            assert(cs@.subrange(0, pat@.len() as int)[j as int] != pat@[j as int]);
            return false;
        }
        j = j + 1;
    }
    assert(cs@.subrange(0, pat@.len() as int) =~= pat@);
    true
}

/// The pieces of `cs` between the occurrences of the non-empty `pat`.
pub fn split_chars(cs: &[char], pat: &[char]) -> (r: Vec<Vec<char>>)
    requires
        pat@.len() > 0,
    ensures
        views_of(r@) == split_by(cs@, pat@),
{
    let mut out: Vec<Vec<char>> = Vec::new();
    let mut rest: &[char] = cs;
    loop
        invariant
            pat@.len() > 0,
            split_by(cs@, pat@) == views_of(out@) + split_by(rest@, pat@),
        decreases rest@.len(),
    {
        let ghost before = views_of(out@);
        match find(rest, pat) {
            None => {
                let piece = vstd::slice::slice_to_vec(rest);
                out.push(piece);
                assert(views_of(out@) =~= before + seq![rest@]);
                return out;
            },
            Some(i) => {
                proof {
                    lemma_first_match(rest@, pat@);
                }
                let piece = vstd::slice::slice_to_vec(&rest[0..i]);
                out.push(piece);
                let rl = rest.len();
                assert(occurs_at(rest@, pat@, i as int));
                let next = &rest[i + pat.len()..rl];
                assert(views_of(out@) =~= before + seq![rest@.subrange(0, i as int)]);
                assert(split_by(cs@, pat@) == views_of(out@) + split_by(next@, pat@));
                rest = next;
            },
        }
    }
}

/// The lines of `cs`, as `str::lines` yields them.
pub fn lines_of(cs: &[char]) -> (r: Vec<Vec<char>>)
    ensures
        views_of(r@) == lines(cs@),
{
    let nl = ['\n'];
    let mut out: Vec<Vec<char>> = Vec::new();
    let mut rest: &[char] = cs;
    assert(nl@ == seq!['\n']);
    loop
        invariant
            nl@ == seq!['\n'],
            lines(cs@) == views_of(out@) + lines(rest@),
        decreases rest@.len(),
    {
        let ghost before = views_of(out@);
        if rest.len() == 0 {
            assert(views_of(out@) =~= before + lines(rest@));
            return out;
        }
        match find(rest, &nl) {
            None => {
                let piece = vstd::slice::slice_to_vec(rest);
                out.push(piece);
                assert(views_of(out@) =~= before + seq![rest@]);
                return out;
            },
            Some(i) => {
                proof {
                    lemma_first_match(rest@, nl@);
                }
                let mut end = i;
                if end > 0 && rest[end - 1] == '\r' {
                    end = end - 1;
                }
                let piece = vstd::slice::slice_to_vec(&rest[0..end]);
                out.push(piece);
                let rl = rest.len();
                assert(occurs_at(rest@, nl@, i as int));
                let next = &rest[i + 1..rl];
                assert(piece@ =~= strip_cr(rest@.subrange(0, i as int)));
                assert(views_of(out@) =~= before + seq![strip_cr(rest@.subrange(0, i as int))]);
                assert(lines(cs@) == views_of(out@) + lines(next@));
                rest = next;
            },
        }
    }
}


/// The characters of `s`, in order.
pub fn chars_of(s: &str) -> (v: Vec<char>)
    ensures
        v@ == s@,
{
    broadcast use vstd::string::group_string_axioms;

    let mut v: Vec<char> = Vec::new();
    for c in it: s.chars()
        invariant
            v@ == it.seq().take(it.index() as int),
    {
        v.push(c);
    }
    v
}

/// The string whose characters are `cs`.
#[verifier::external_body]
pub(crate) fn string_of(cs: &[char]) -> (r: String)
    ensures
        r@ == cs@,
{
    cs.iter().collect()
}

/// What `str::to_lowercase` gives back for a string of the given characters.
pub uninterp spec fn lowercase(s: Seq<char>) -> Seq<char>;

/// Every character is ASCII.
pub open spec fn is_ascii_text(s: Seq<char>) -> bool {
    forall|i: int| 0 <= i < s.len() ==> (#[trigger] s[i] as u32) < 128
}

/// An ASCII upper-case letter turned lower-case; any other character kept.
pub open spec fn ascii_lower_char(c: char) -> char {
    if 'A' <= c && c <= 'Z' {
        ((c as int) + 32) as char
    } else {
        c
    }
}

/// `s` with its ASCII upper-case letters turned lower-case.
pub open spec fn ascii_lowercase(s: Seq<char>) -> Seq<char> {
    s.map_values(|c: char| ascii_lower_char(c))
}

/// Calls `str::to_lowercase`; its result is named `lowercase`.  For ASCII
/// text the Unicode lower-case mapping is the ASCII one: `A`-`Z` become
/// `a`-`z` and every other character stays.
#[verifier::external_body]
pub(crate) fn to_lowercase(s: &str) -> (r: String)
    ensures
        r@ == lowercase(s@),
        is_ascii_text(s@) ==> r@ == ascii_lowercase(s@),
{
    s.to_lowercase()
}

/// `trim(cs)` as a vector.
pub fn trim_chars(cs: &[char]) -> (r: Vec<char>)
    ensures
        r@ == trim(cs@),
{
    let (lo, hi) = trim_bounds(cs);
    vstd::slice::slice_to_vec(&cs[lo..hi])
}

/// Whether `cs` is empty or white space only.
pub fn is_blank_chars(cs: &[char]) -> (r: bool)
    ensures
        r == is_blank(cs@),
{
    let (lo, hi) = trim_bounds(cs);
    lo == hi
}

/// The decimal digit `d`.
pub open spec fn digit_char(d: int) -> char {
    if d == 0 {
        '0'
    } else if d == 1 {
        '1'
    } else if d == 2 {
        '2'
    } else if d == 3 {
        '3'
    } else if d == 4 {
        '4'
    } else if d == 5 {
        '5'
    } else if d == 6 {
        '6'
    } else if d == 7 {
        '7'
    } else if d == 8 {
        '8'
    } else {
        '9'
    }
}

/// The decimal notation of `n`, as `Display` writes an unsigned integer.
pub open spec fn decimal(n: nat) -> Seq<char>
    decreases n,
{
    if n < 10 {
        seq![digit_char(n as int)]
    } else {
        decimal(n / 10).push(digit_char((n % 10) as int))
    }
}

/// The decimal notation of `n`.
pub fn decimal_chars(n: u128) -> (r: Vec<char>)
    ensures
        r@ == decimal(n as nat),
    decreases n,
{
    let d = n % 10;
    let c = if d == 0 {
        '0'
    } else if d == 1 {
        '1'
    } else if d == 2 {
        '2'
    } else if d == 3 {
        '3'
    } else if d == 4 {
        '4'
    } else if d == 5 {
        '5'
    } else if d == 6 {
        '6'
    } else if d == 7 {
        '7'
    } else if d == 8 {
        '8'
    } else {
        '9'
    };
    if n < 10 {
        let mut r = Vec::new();
        r.push(c);
        r
    } else {
        let mut r = decimal_chars(n / 10);
        r.push(c);
        r
    }
}

/// The decimal notation of `n` as a string.
pub fn decimal_string(n: u128) -> (r: String)
    ensures
        r@ == decimal(n as nat),
{
    let v = decimal_chars(n);
    string_of(&v)
}

pub proof fn lemma_decimal_digits(n: nat)
    ensures
        decimal(n).len() >= 1,
        forall|k: int| 0 <= k < decimal(n).len() ==> '0' <= #[trigger] decimal(n)[k] <= '9',
    decreases n,
{
    if n >= 10 {
        lemma_decimal_digits(n / 10);
    }
}

pub proof fn lemma_digit_char_injective(d: int, e: int)
    requires
        0 <= d < 10,
        0 <= e < 10,
        digit_char(d) == digit_char(e),
    ensures
        d == e,
{
}

/// Distinct numbers have distinct decimal notations.
pub proof fn lemma_decimal_injective(a: nat, b: nat)
    requires
        decimal(a) == decimal(b),
    ensures
        a == b,
    decreases a + b,
{
    lemma_decimal_digits(a);
    lemma_decimal_digits(b);
    if a < 10 && b < 10 {
        assert(decimal(a) == seq![digit_char(a as int)]);
        assert(decimal(b) == seq![digit_char(b as int)]);
        assert(seq![digit_char(a as int)][0] == digit_char(a as int));
        assert(seq![digit_char(b as int)][0] == digit_char(b as int));
        lemma_digit_char_injective(a as int, b as int);
    } else if a < 10 {
        lemma_decimal_digits(b / 10);
        assert(decimal(b).len() >= 2);
    } else if b < 10 {
        lemma_decimal_digits(a / 10);
        assert(decimal(a).len() >= 2);
    } else {
        assert(decimal(a).drop_last() =~= decimal(a / 10));
        assert(decimal(b).drop_last() =~= decimal(b / 10));
        lemma_decimal_injective(a / 10, b / 10);
        assert(decimal(a).last() == digit_char((a % 10) as int));
        assert(decimal(b).last() == digit_char((b % 10) as int));
        lemma_digit_char_injective((a % 10) as int, (b % 10) as int);
        assert(a == 10 * (a / 10) + a % 10);
        assert(b == 10 * (b / 10) + b % 10);
    }
}


/// Whether two character sequences are equal.
pub fn chars_eq(a: &[char], b: &[char]) -> (r: bool)
    ensures
        r == (a@ == b@),
{
    if a.len() != b.len() {
        return false;
    }
    let mut i: usize = 0;
    while i < a.len()
        invariant
            a@.len() == b@.len(),
            i <= a@.len(),
            forall|k: int| 0 <= k < i ==> a@[k] == b@[k],
        decreases a@.len() - i,
    {
        if a[i] != b[i] {
            return false;
        }
        i = i + 1;
    }
    assert(a@ =~= b@);
    true
}

} // verus!
