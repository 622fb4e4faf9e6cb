//! Character-level utilities: whitespace classification, conversion between
//! strings and character vectors, substring search, splitting into lines,
//! and trimming.

use vstd::prelude::*;

verus! {

use vstd::string::StrSliceExecFns;

broadcast use vstd::string::group_string_axioms;

/// Whether `c` has the Unicode `White_Space` property, the classification
/// `str::trim` and `char::is_whitespace` use.
pub open spec fn is_whitespace(c: char) -> bool {
    ||| c == ' '
    ||| c == '\t'
    ||| c == '\n'
    ||| c == '\u{b}'
    ||| c == '\u{c}'
    ||| c == '\r'
    ||| c == '\u{85}'
    ||| c == '\u{a0}'
    ||| c == '\u{1680}'
    ||| ('\u{2000}' <= c && c <= '\u{200a}')
    ||| c == '\u{2028}'
    ||| c == '\u{2029}'
    ||| c == '\u{202f}'
    ||| c == '\u{205f}'
    ||| c == '\u{3000}'
}

/// Decides `is_whitespace` for a concrete character.
pub fn whitespace_char(c: char) -> (r: bool)
    ensures
        r == is_whitespace(c),
{
    c == ' ' || c == '\t' || c == '\n' || c == '\u{b}' || c == '\u{c}' || c == '\r'
        || c == '\u{85}' || c == '\u{a0}' || c == '\u{1680}'
        || ('\u{2000}' <= c && c <= '\u{200a}') || c == '\u{2028}' || c == '\u{2029}'
        || c == '\u{202f}' || c == '\u{205f}' || c == '\u{3000}'
}

/// A line is blank when every character in it is whitespace.
pub open spec fn blank(l: Seq<char>) -> bool {
    forall|i: int| 0 <= i < l.len() ==> is_whitespace(l[i])
}

/// Decides `blank` for a concrete line.
pub fn blank_line(l: &Vec<char>) -> (r: bool)
    ensures
        r == blank(l@),
{
    let mut i: usize = 0;
    while i < l.len()
        invariant
            i <= l@.len(),
            forall|j: int| 0 <= j < i ==> is_whitespace(l@[j]),
        decreases l@.len() - i,
    {
        if !whitespace_char(l[i]) {
            return false;
        }
        i = i + 1;
    }
    true
}

/// Collects the characters of a string into a vector, so that later passes
/// can index them directly.
pub fn chars_of(s: &str) -> (r: Vec<char>)
    ensures
        r@ == s@,
{
    let n = s.unicode_len();
    let mut r: Vec<char> = Vec::new();
    let mut i: usize = 0;
    while i < n
        invariant
            n == s@.len(),
            i <= n,
            r@ == s@.subrange(0, i as int),
        decreases n - i,
    {
        r.push(s.get_char(i));
        i = i + 1;
        proof {
            assert(r@ =~= s@.subrange(0, i as int));
        }
    }
    proof {
        assert(r@ =~= s@);
    }
    r
}

/// Relies on `String`'s `FromIterator<char>`: collecting a sequence of
/// characters yields the string of exactly those characters, in order.
#[verifier::external_body]
pub fn string_of(chars: &Vec<char>) -> (r: String)
    ensures
        r@ == chars@,
{
    chars.iter().collect()
}

/// Copies the characters of `s` between indices `a` and `b`.
pub fn subvec(s: &Vec<char>, a: usize, b: usize) -> (r: Vec<char>)
    requires
        a <= b <= s@.len(),
    ensures
        r@ == s@.subrange(a as int, b as int),
{
    let mut r: Vec<char> = Vec::new();
    let mut i: usize = a;
    while i < b
        invariant
            a <= i <= b <= s@.len(),
            r@ == s@.subrange(a as int, i as int),
        decreases b - i,
    {
        r.push(s[i]);
        i = i + 1;
        proof {
            assert(r@ =~= s@.subrange(a as int, i as int));
        }
    }
    r
}

/// Whether the two vectors hold the same characters.
pub fn chars_eq(a: &Vec<char>, b: &Vec<char>) -> (r: bool)
    ensures
        r == (a@ == b@),
{
    if a.len() != b.len() {
        return false;
    }
    let mut i: usize = 0;
    while i < a.len()
        invariant
            a@.len() == b@.len(),
            i <= a@.len(),
            forall|j: int| 0 <= j < i ==> a@[j] == b@[j],
        decreases a@.len() - i,
    {
        if a[i] != b[i] {
            return false;
        }
        i = i + 1;
    }
    proof {
        assert(a@ =~= b@);
    }
    true
}

/// True when the characters of `pat` occur in `s` starting at index `i`.
pub open spec fn matches_at(s: Seq<char>, pat: Seq<char>, i: int) -> bool {
    0 <= i && i + pat.len() <= s.len() && s.subrange(i, i + pat.len()) == pat
}

/// Index of the first occurrence of `pat` in `s` at or after `from`.
pub open spec fn find_from(s: Seq<char>, pat: Seq<char>, from: int) -> Option<int>
    decreases s.len() - from + 1,
{
    if from < 0 || from + pat.len() > s.len() {
        None
    } else if matches_at(s, pat, from) {
        Some(from)
    } else {
        find_from(s, pat, from + 1)
    }
}

/// Where `find_from` answers `Some`, the occurrence is the first one at or
/// after `from`; where it answers `None`, there is none.
pub proof fn lemma_find_from(s: Seq<char>, pat: Seq<char>, from: int)
    requires
        0 <= from,
    ensures
        match find_from(s, pat, from) {
            Some(i) => from <= i && matches_at(s, pat, i) && forall|j: int|
                from <= j < i ==> !matches_at(s, pat, j),
            None => forall|j: int| from <= j ==> !matches_at(s, pat, j),
        },
    decreases s.len() - from + 1,
{
    if from + pat.len() > s.len() {
        assert forall|j: int| from <= j implies !matches_at(s, pat, j) by {
            assert(j + pat.len() > s.len());
        }
    } else if matches_at(s, pat, from) {
    } else {
        lemma_find_from(s, pat, from + 1);
    }
}

/// Index of the first occurrence of the character `c` at or after `from`.
pub open spec fn find_char_from(s: Seq<char>, c: char, from: int) -> Option<int>
    decreases s.len() - from,
{
    if from < 0 || from >= s.len() {
        None
    } else if s[from] == c {
        Some(from)
    } else {
        find_char_from(s, c, from + 1)
    }
}

/// Index of the first non-whitespace character at or after `from`.
pub open spec fn find_non_ws_from(s: Seq<char>, from: int) -> Option<int>
    decreases s.len() - from,
{
    if from < 0 || from >= s.len() {
        None
    } else if !is_whitespace(s[from]) {
        Some(from)
    } else {
        find_non_ws_from(s, from + 1)
    }
}

/// Index of the last non-whitespace character at or before `from`.
pub open spec fn rfind_non_ws_from(s: Seq<char>, from: int) -> Option<int>
    decreases from + 1,
{
    if from < 0 || from >= s.len() {
        None
    } else if !is_whitespace(s[from]) {
        Some(from)
    } else {
        rfind_non_ws_from(s, from - 1)
    }
}

/// `s` with leading and trailing whitespace removed, and its interior kept.
pub open spec fn trimmed(s: Seq<char>) -> Seq<char> {
    match find_non_ws_from(s, 0) {
        None => Seq::empty(),
        Some(a) => match rfind_non_ws_from(s, s.len() - 1) {
            None => Seq::empty(),
            Some(b) => s.subrange(a, b + 1),
        },
    }
}

/// Removes leading and trailing whitespace from a concrete line.
pub fn trim_chars(s: &Vec<char>) -> (r: Vec<char>)
    ensures
        r@ == trimmed(s@),
{
    let n = s.len();
    let mut a: usize = 0;
    while a < n && whitespace_char(s[a])
        invariant
            a <= n,
            n == s@.len(),
            find_non_ws_from(s@, 0) == find_non_ws_from(s@, a as int),
        decreases n - a,
    {
        a = a + 1;
    }
    if a == n {
        return Vec::new();
    }
    let mut b: usize = n - 1;
    while whitespace_char(s[b])
        invariant
            a <= b < n,
            n == s@.len(),
            find_non_ws_from(s@, 0) == Some(a as int),
            !is_whitespace(s@[a as int]),
            rfind_non_ws_from(s@, n - 1) == rfind_non_ws_from(s@, b as int),
        decreases b,
    {
        b = b - 1;
    }
    subvec(s, a, b + 1)
}

/// A line with a trailing carriage return loses it, as with `str::lines`.
pub open spec fn strip_carriage_return(l: Seq<char>) -> Seq<char> {
    if l.len() > 0 && l[l.len() - 1] == '\r' {
        l.drop_last()
    } else {
        l
    }
}

/// The lines of `s` from position `p` on: split at each line feed, the
/// segment after a final line feed dropped when empty, and a carriage
/// return before each line feed removed, as with `str::lines`.
pub open spec fn lines_from(s: Seq<char>, p: int) -> Seq<Seq<char>>
    decreases s.len() - p,
{
    if p < 0 || p >= s.len() {
        Seq::empty()
    } else {
        match find_char_from(s, '\n', p) {
            None => seq![strip_carriage_return(s.subrange(p, s.len() as int))],
            Some(k) => if p <= k < s.len() {
                seq![strip_carriage_return(s.subrange(p, k))] + lines_from(s, k + 1)
            } else {
                Seq::empty()
            },
        }
    }
}

/// The view of each line in a vector of lines.
pub open spec fn lines_model(ls: Seq<Vec<char>>) -> Seq<Seq<char>> {
    ls.map_values(|l: Vec<char>| l@)
}

/// Removes a trailing carriage return from a concrete line.
fn strip_cr(l: Vec<char>) -> (r: Vec<char>)
    ensures
        r@ == strip_carriage_return(l@),
{
    let ghost l0 = l@;
    let mut l = l;
    if l.len() > 0 && l[l.len() - 1] == '\r' {
        let n = l.len();
        l.truncate(n - 1);
        proof {
            assert(l@ =~= strip_carriage_return(l0));
        }
    }
    l
}

/// Splits `s` into its lines, as `str::lines` does.
pub fn split_lines(s: &Vec<char>) -> (r: Vec<Vec<char>>)
    ensures
        lines_model(r@) == lines_from(s@, 0),
{
    let n = s.len();
    let mut out: Vec<Vec<char>> = Vec::new();
    let mut p: usize = 0;
    while p < n
        invariant
            p <= n,
            n == s@.len(),
            lines_from(s@, 0) == lines_model(out@) + lines_from(s@, p as int),
        decreases n - p,
    {
        let mut j = p;
        while j < n && s[j] != '\n'
            invariant
                p <= j <= n,
                n == s@.len(),
                find_char_from(s@, '\n', p as int) == find_char_from(s@, '\n', j as int),
            decreases n - j,
        {
            proof {
                assert(find_char_from(s@, '\n', j as int) == find_char_from(s@, '\n', j + 1));
            }
            j = j + 1;
        }
        let ghost prev = out@;
        if j < n {
            let line = strip_cr(subvec(s, p, j));
            out.push(line);
            proof {
                assert(lines_from(s@, p as int) == seq![line@] + lines_from(s@, j + 1));
                assert(lines_model(out@) =~= lines_model(prev).push(line@));
                assert(lines_model(prev) + lines_from(s@, p as int) =~= lines_model(out@)
                    + lines_from(s@, j + 1));
            }
            p = j + 1;
        } else {
            let line = strip_cr(subvec(s, p, n));
            out.push(line);
            proof {
                assert(lines_from(s@, p as int) == seq![line@]);
                assert(lines_model(out@) =~= lines_model(prev).push(line@));
                assert(lines_model(prev) + lines_from(s@, p as int) =~= lines_model(out@));
            }
            p = n;
        }
    }
    proof {
        assert(lines_model(out@) =~= lines_model(out@) + lines_from(s@, p as int));
    }
    out
}

} // verus!
