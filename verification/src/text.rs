//! Character-level text helpers: whitespace, word splitting and trimming.

use vstd::prelude::*;

verus! {

/// The Unicode `White_Space` property (Unicode PropList), which is what
/// `char::is_whitespace`, `str::split_whitespace` and `str::trim` go by.
pub open spec fn is_white(c: char) -> bool {
    ||| ('\u{9}' <= c && c <= '\u{d}')
    ||| c == ' '
    ||| c == '\u{85}'
    ||| c == '\u{a0}'
    ||| c == '\u{1680}'
    ||| ('\u{2000}' <= c && c <= '\u{200a}')
    ||| c == '\u{2028}'
    ||| c == '\u{2029}'
    ||| c == '\u{202f}'
    ||| c == '\u{205f}'
    ||| c == '\u{3000}'
}

/// Whether `c` has the Unicode `White_Space` property.
pub fn is_whitespace(c: char) -> (b: bool)
    ensures
        b == is_white(c),
{
    ('\u{9}' <= c && c <= '\u{d}') || c == ' ' || c == '\u{85}' || c == '\u{a0}' || c == '\u{1680}'
        || ('\u{2000}' <= c && c <= '\u{200a}') || c == '\u{2028}' || c == '\u{2029}'
        || c == '\u{202f}' || c == '\u{205f}' || c == '\u{3000}'
}

/// The characters of `s`, in order.
pub fn chars_of(s: &str) -> (v: Vec<char>)
    ensures
        v@ == s@,
{
    let mut v: Vec<char> = Vec::new();
    for c in it: s.chars()
        invariant
            v@ == it.seq().take(it.index() as int),
            it.seq() == s@,
    {
        v.push(c);
    }
    v
}


/// Left-to-right scan that `split_whitespace` performs: the words already
/// closed, and the word being read (empty between words).
pub open spec fn scan_words(s: Seq<char>) -> (Seq<Seq<char>>, Seq<char>)
    decreases s.len(),
{
    if s.len() == 0 {
        (Seq::empty(), Seq::empty())
    } else {
        let (done, cur) = scan_words(s.drop_last());
        if is_white(s.last()) {
            if cur.len() == 0 {
                (done, cur)
            } else {
                (done.push(cur), Seq::empty())
            }
        } else {
            (done, cur.push(s.last()))
        }
    }
}

/// The maximal runs of non-whitespace characters of `s`, in order: what
/// `str::split_whitespace` yields.
pub open spec fn split_words(s: Seq<char>) -> Seq<Seq<char>> {
    let (done, cur) = scan_words(s);
    if cur.len() == 0 {
        done
    } else {
        done.push(cur)
    }
}

/// Whether the characters in `v` are those of `lit`.
pub fn same_chars(v: &Vec<char>, lit: &str) -> (b: bool)
    ensures
        b == (v@ == lit@),
{
    let n = lit.unicode_len();
    if v.len() != n {
        return false;
    }
    let mut i: usize = 0;
    while i < n
        invariant
            n == lit@.len(),
            v@.len() == n,
            i <= n,
            forall|j: int| 0 <= j < i ==> v@[j] == lit@[j],
        decreases n - i,
    {
        if v[i] != lit.get_char(i) {
            return false;
        }
        i = i + 1;
    }
    assert(v@ =~= lit@);
    true
}


/// The index of the first non-whitespace character of `s` at or after
/// `i`, or the length of `s` when there is none.
pub open spec fn first_non_white(s: Seq<char>, i: int) -> int
    decreases s.len() - i,
{
    if i >= s.len() {
        s.len() as int
    } else if !is_white(s[i]) {
        i
    } else {
        first_non_white(s, i + 1)
    }
}

/// One past the last non-whitespace character of `s` before `j`, or 0 when
/// there is none.
pub open spec fn end_non_white(s: Seq<char>, j: int) -> int
    decreases j,
{
    if j <= 0 {
        0
    } else if !is_white(s[j - 1]) {
        j
    } else {
        end_non_white(s, j - 1)
    }
}

/// `s` without its leading and trailing whitespace: what `str::trim` gives.
pub open spec fn trimmed(s: Seq<char>) -> Seq<char> {
    let a = first_non_white(s, 0);
    let b = end_non_white(s, s.len() as int);
    if a >= b {
        Seq::empty()
    } else {
        s.subrange(a, b)
    }
}

/// Positions `a <= b` such that `v[a..b]` is `v` trimmed.
pub fn trim_bounds(v: &Vec<char>) -> (r: (usize, usize))
    ensures
        r.0 <= r.1 <= v@.len(),
        v@.subrange(r.0 as int, r.1 as int) == trimmed(v@),
{
    let n = v.len();
    let mut a: usize = 0;
    while a < n && is_whitespace(v[a])
        invariant
            n == v@.len(),
            a <= n,
            first_non_white(v@, 0) == first_non_white(v@, a as int),
        decreases n - a,
    {
        a = a + 1;
    }
    let mut b: usize = n;
    while b > a && is_whitespace(v[b - 1])
        invariant
            n == v@.len(),
            a <= b <= n,
            first_non_white(v@, 0) == a,
            end_non_white(v@, n as int) == end_non_white(v@, b as int),
        decreases b,
    {
        b = b - 1;
    }
    proof {
        if a < b {
            assert(!is_white(v@[b - 1]));
        } else {
            lemma_end_bounded(v@, a as int);
        }
    }
    (a, b)
}

proof fn lemma_end_bounded(s: Seq<char>, j: int)
    ensures
        end_non_white(s, j) <= if j < 0 { 0 } else { j },
    decreases j,
{
    if j > 0 && is_white(s[j - 1]) {
        lemma_end_bounded(s, j - 1);
    }
}

/// `s` without its leading and trailing whitespace.
pub fn trim_text(s: &str) -> (t: String)
    ensures
        t@ == trimmed(s@),
{
    let v = chars_of(s);
    let (a, b) = trim_bounds(&v);
    String::from_str(s.substring_char(a, b))
}

} // verus!
