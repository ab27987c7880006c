//! Character-level helpers shared by the catalog parser: classification of
//! single characters, whitespace scans and trimming, prefix and substring
//! tests, and conversions between `&str`, `Vec<char>` and `String`.

use vstd::prelude::*;

verus! {

/// Decimal digit.
pub open spec fn is_digit(c: char) -> bool {
    '0' <= c && c <= '9'
}

/// Whitespace as the catalog format uses it: space, tab, carriage return,
/// line feed.
pub open spec fn is_space(c: char) -> bool {
    c == ' ' || c == '\t' || c == '\r' || c == '\n'
}

/// Range separator: ASCII hyphen or the Unicode hyphen seen in the source
/// catalog.
pub open spec fn is_dash(c: char) -> bool {
    c == '-' || c == '\u{2010}'
}

/// Executable form of [`is_digit`].
pub fn is_digit_char(c: char) -> (r: bool)
    ensures
        r == is_digit(c),
{
    '0' <= c && c <= '9'
}

/// Executable form of [`is_space`].
pub fn is_space_char(c: char) -> (r: bool)
    ensures
        r == is_space(c),
{
    c == ' ' || c == '\t' || c == '\r' || c == '\n'
}

/// Executable form of [`is_dash`].
pub fn is_dash_char(c: char) -> (r: bool)
    ensures
        r == is_dash(c),
{
    c == '-' || c == '\u{2010}'
}

/// Numeric value of a digit character.
pub open spec fn digit_val(c: char) -> nat {
    (c as nat - '0' as nat) as nat
}

/// Index of the first non-whitespace character at or after `i`; `s.len()` if
/// all remaining characters are whitespace.
pub open spec fn skip_ws(s: Seq<char>, i: int) -> int
    decreases s.len() - i,
{
    if i < 0 || i >= s.len() || !is_space(s[i]) {
        i
    } else {
        skip_ws(s, i + 1)
    }
}

pub proof fn lemma_skip_ws(s: Seq<char>, i: int)
    requires
        0 <= i <= s.len(),
    ensures
        i <= skip_ws(s, i) <= s.len(),
        forall|j: int| i <= j < skip_ws(s, i) ==> is_space(s[j]),
        skip_ws(s, i) == s.len() || !is_space(s[skip_ws(s, i)]),
    decreases s.len() - i,
{
    if i < s.len() && is_space(s[i]) {
        lemma_skip_ws(s, i + 1);
    }
}

pub proof fn lemma_skip_ws_eq(s: Seq<char>, i: int, k: int)
    requires
        0 <= i <= k <= s.len(),
        forall|j: int| i <= j < k ==> is_space(s[j]),
        k == s.len() || !is_space(s[k]),
    ensures
        skip_ws(s, i) == k,
    decreases k - i,
{
    if i < k {
        lemma_skip_ws_eq(s, i + 1, k);
    }
}

/// Executable form of [`skip_ws`].
pub fn skip_ws_at(v: &Vec<char>, i: usize) -> (r: usize)
    requires
        i <= v@.len(),
    ensures
        r == skip_ws(v@, i as int),
        i <= r <= v@.len(),
{
    let mut k: usize = i;
    loop
        invariant
            i <= k <= v@.len(),
            forall|j: int| i <= j < k ==> is_space(v@[j]),
        decreases v@.len() - k,
    {
        if k == v.len() || !is_space_char(v[k]) {
            proof {
                lemma_skip_ws_eq(v@, i as int, k as int);
            }
            return k;
        }
        k = k + 1;
    }
}

/// End of the whitespace-free tail: the smallest `b <= j` such that every
/// character in `[b, j)` is whitespace and `b` is 0 or preceded by a
/// non-whitespace character.
pub open spec fn ws_end(s: Seq<char>, j: int) -> int
    decreases j,
{
    if j <= 0 {
        0
    } else if is_space(s[j - 1]) {
        ws_end(s, j - 1)
    } else {
        j
    }
}

pub proof fn lemma_ws_end(s: Seq<char>, j: int)
    requires
        0 <= j <= s.len(),
    ensures
        0 <= ws_end(s, j) <= j,
        forall|m: int| ws_end(s, j) <= m < j ==> is_space(s[m]),
        ws_end(s, j) == 0 || !is_space(s[ws_end(s, j) - 1]),
    decreases j,
{
    if j > 0 && is_space(s[j - 1]) {
        lemma_ws_end(s, j - 1);
    }
}

pub proof fn lemma_ws_end_eq(s: Seq<char>, j: int, k: int)
    requires
        0 <= k <= j <= s.len(),
        forall|m: int| k <= m < j ==> is_space(s[m]),
        k == 0 || !is_space(s[k - 1]),
    ensures
        ws_end(s, j) == k,
    decreases j - k,
{
    if k < j {
        lemma_ws_end_eq(s, j - 1, k);
    }
}

/// If `s[a]` is not whitespace then the whitespace-free tail end of any later
/// prefix stays to the right of `a`.
pub proof fn lemma_ws_end_past(s: Seq<char>, a: int, j: int)
    requires
        0 <= a < j <= s.len(),
        !is_space(s[a]),
    ensures
        ws_end(s, j) >= a + 1,
    decreases j,
{
    if j > a + 1 && is_space(s[j - 1]) {
        lemma_ws_end_past(s, a, j - 1);
    }
}

/// The string with leading and trailing whitespace removed.
pub open spec fn spec_trim(s: Seq<char>) -> Seq<char> {
    let a = skip_ws(s, 0);
    if a == s.len() {
        Seq::empty()
    } else {
        s.subrange(a, ws_end(s, s.len() as int))
    }
}

/// Executable form of [`spec_trim`].
pub fn trim_chars(v: &Vec<char>) -> (r: Vec<char>)
    ensures
        r@ == spec_trim(v@),
{
    let a = skip_ws_at(v, 0);
    if a == v.len() {
        let r: Vec<char> = Vec::new();
        proof {
            assert(r@ =~= spec_trim(v@));
        }
        return r;
    }
    proof {
        lemma_skip_ws(v@, 0);
        lemma_ws_end_past(v@, a as int, v@.len() as int);
        lemma_ws_end(v@, v@.len() as int);
    }
    let mut b: usize = v.len();
    while is_space_char(v[b - 1])
        invariant
            a + 1 <= ws_end(v@, v@.len() as int) <= b <= v@.len(),
            a == skip_ws(v@, 0),
            a < v@.len(),
            forall|m: int| b <= m < v@.len() ==> is_space(v@[m]),
        decreases b,
    {
        proof {
            lemma_ws_end(v@, v@.len() as int);
            if ws_end(v@, v@.len() as int) == b {
                assert(!is_space(v@[b - 1]));
            }
        }
        b = b - 1;
    }
    proof {
        lemma_ws_end_eq(v@, v@.len() as int, b as int);
    }
    subrange_chars(v, a, b)
}

/// Copy of `v[lo..hi]`.
pub fn subrange_chars(v: &Vec<char>, lo: usize, hi: usize) -> (r: Vec<char>)
    requires
        lo <= hi <= v@.len(),
    ensures
        r@ == v@.subrange(lo as int, hi as int),
{
    let mut r: Vec<char> = Vec::new();
    let mut i: usize = lo;
    while i < hi
        invariant
            lo <= i <= hi <= v@.len(),
            r@ == v@.subrange(lo as int, i as int),
        decreases hi - i,
    {
        r.push(v[i]);
        proof {
            assert(r@ =~= v@.subrange(lo as int, (i + 1) as int));
        }
        i = i + 1;
    }
    r
}

/// Append a copy of `src[lo..hi]` to `dst`.
pub fn append_range(dst: &mut Vec<char>, src: &Vec<char>, lo: usize, hi: usize)
    requires
        lo <= hi <= src@.len(),
    ensures
        final(dst)@ == old(dst)@ + src@.subrange(lo as int, hi as int),
{
    let mut i: usize = lo;
    while i < hi
        invariant
            lo <= i <= hi <= src@.len(),
            dst@ == old(dst)@ + src@.subrange(lo as int, i as int),
        decreases hi - i,
    {
        dst.push(src[i]);
        proof {
            assert(dst@ =~= old(dst)@ + src@.subrange(lo as int, (i + 1) as int));
        }
        i = i + 1;
    }
    proof {
        assert(dst@ =~= old(dst)@ + src@.subrange(lo as int, hi as int));
    }
}

/// Append every character of `s` to `dst`.
pub fn append_str(dst: &mut Vec<char>, s: &str)
    ensures
        final(dst)@ == old(dst)@ + s@,
{
    let n = s.unicode_len();
    let mut i: usize = 0;
    while i < n
        invariant
            0 <= i <= n,
            n == s@.len(),
            dst@ == old(dst)@ + s@.subrange(0, i as int),
        decreases n - i,
    {
        dst.push(s.get_char(i));
        proof {
            assert(dst@ =~= old(dst)@ + s@.subrange(0, (i + 1) as int));
        }
        i = i + 1;
    }
    proof {
        assert(s@.subrange(0, n as int) =~= s@);
    }
}

/// The characters of `s` as a vector.
pub fn str_to_chars(s: &str) -> (r: Vec<char>)
    ensures
        r@ == s@,
{
    let mut r: Vec<char> = Vec::new();
    append_str(&mut r, s);
    r
}

/// Relies on `String::push`: appends exactly the one character to the string.
#[verifier::external_body]
fn push_char(s: &mut String, c: char)
    ensures
        final(s)@ == old(s)@.push(c),
{
    s.push(c)
}

/// The characters of `v` gathered into a `String`.
pub fn chars_to_string(v: &Vec<char>) -> (r: String)
    ensures
        r@ == v@,
{
    let mut r = String::new();
    let mut i: usize = 0;
    while i < v.len()
        invariant
            0 <= i <= v@.len(),
            r@ == v@.subrange(0, i as int),
        decreases v@.len() - i,
    {
        push_char(&mut r, v[i]);
        proof {
            assert(r@ =~= v@.subrange(0, (i + 1) as int));
        }
        i = i + 1;
    }
    proof {
        assert(r@ =~= v@);
    }
    r
}

/// The character vectors of `list` gathered into `String`s.
pub fn strings_of(list: &Vec<Vec<char>>) -> (r: Vec<String>)
    ensures
        r.deep_view() == list.deep_view(),
{
    let mut r: Vec<String> = Vec::new();
    let mut i: usize = 0;
    while i < list.len()
        invariant
            0 <= i <= list.deep_view().len(),
            r.deep_view() == list.deep_view().subrange(0, i as int),
        decreases list.deep_view().len() - i,
    {
        let s = chars_to_string(&list[i]);
        let ghost prev = r.deep_view();
        r.push(s);
        proof {
            assert(r.deep_view() =~~= prev.push(s@));
            assert(s@ =~= list.deep_view()[i as int]);
            assert(r.deep_view() =~~= list.deep_view().subrange(0, (i + 1) as int));
        }
        i = i + 1;
    }
    proof {
        assert(r.deep_view() =~~= list.deep_view());
    }
    r
}

/// Copies of the strings of `v`, in order.
pub fn clone_strings(v: &Vec<String>) -> (r: Vec<String>)
    ensures
        r@ == v@,
        r.deep_view() == v.deep_view(),
{
    let mut r: Vec<String> = Vec::new();
    let mut i: usize = 0;
    while i < v.len()
        invariant
            0 <= i <= v@.len(),
            r@ == v@.subrange(0, i as int),
        decreases v@.len() - i,
    {
        r.push(v[i].clone());
        proof {
            assert(r@ =~= v@.subrange(0, (i + 1) as int));
        }
        i = i + 1;
    }
    proof {
        assert(r@ =~= v@);
        assert(r.deep_view() =~~= v.deep_view());
    }
    r
}

/// `p` occurs in `s` starting at index `i`.
pub open spec fn prefix_at(s: Seq<char>, i: int, p: Seq<char>) -> bool {
    0 <= i && i + p.len() <= s.len() && s.subrange(i, i + p.len()) == p
}

/// `p` occurs somewhere in `s`.
pub open spec fn contains_seq(s: Seq<char>, p: Seq<char>) -> bool {
    exists|i: int| prefix_at(s, i, p)
}

/// Executable test of [`prefix_at`] against a pattern given as `&str`.
pub fn is_prefix_at(v: &Vec<char>, i: usize, pat: &str) -> (r: bool)
    ensures
        r == prefix_at(v@, i as int, pat@),
{
    let plen = pat.unicode_len();
    let n = v.len();
    if i > n || plen > n - i {
        return false;
    }
    let mut j: usize = 0;
    while j < plen
        invariant
            0 <= j <= plen,
            plen == pat@.len(),
            n == v@.len(),
            i + plen <= n,
            forall|k: int| 0 <= k < j ==> v@[i + k] == pat@[k],
        decreases plen - j,
    {
        if v[i + j] != pat.get_char(j) {
            proof {
                assert(v@.subrange(i as int, i + plen) != pat@) by {
                    if v@.subrange(i as int, i + plen) == pat@ {
                        assert(v@.subrange(i as int, i + plen)[j as int] == v@[i + j]);
                    }
                }
            }
            return false;
        }
        j = j + 1;
    }
    proof {
        assert(v@.subrange(i as int, i + plen) =~= pat@);
    }
    true
}

/// Executable test of [`contains_seq`] against a pattern given as `&str`.
pub fn contains_str(v: &Vec<char>, pat: &str) -> (r: bool)
    ensures
        r == contains_seq(v@, pat@),
{
    let plen = pat.unicode_len();
    let n = v.len();
    if plen > n {
        proof {
            assert(forall|i: int| !prefix_at(v@, i, pat@));
        }
        return false;
    }
    if plen == 0 {
        proof {
            assert(v@.subrange(0, 0) =~= pat@);
            assert(prefix_at(v@, 0, pat@));
        }
        return true;
    }
    let mut i: usize = 0;
    loop
        invariant
            0 <= i <= n - plen + 1,
            plen == pat@.len(),
            n == v@.len(),
            1 <= plen <= n,
            forall|k: int| 0 <= k < i ==> !prefix_at(v@, k, pat@),
        decreases n - plen + 1 - i,
    {
        if i > n - plen {
            proof {
                assert(forall|k: int| prefix_at(v@, k, pat@) ==> 0 <= k < i);
            }
            return false;
        }
        if is_prefix_at(v, i, pat) {
            return true;
        }
        i = i + 1;
    }
}

/// Lower-case image of the ASCII letters; every other character is itself.
pub open spec fn spec_lower_char(c: char) -> char {
    if c == 'A' {
        'a'
    } else if c == 'B' {
        'b'
    } else if c == 'C' {
        'c'
    } else if c == 'D' {
        'd'
    } else if c == 'E' {
        'e'
    } else if c == 'F' {
        'f'
    } else if c == 'G' {
        'g'
    } else if c == 'H' {
        'h'
    } else if c == 'I' {
        'i'
    } else if c == 'J' {
        'j'
    } else if c == 'K' {
        'k'
    } else if c == 'L' {
        'l'
    } else if c == 'M' {
        'm'
    } else if c == 'N' {
        'n'
    } else if c == 'O' {
        'o'
    } else if c == 'P' {
        'p'
    } else if c == 'Q' {
        'q'
    } else if c == 'R' {
        'r'
    } else if c == 'S' {
        's'
    } else if c == 'T' {
        't'
    } else if c == 'U' {
        'u'
    } else if c == 'V' {
        'v'
    } else if c == 'W' {
        'w'
    } else if c == 'X' {
        'x'
    } else if c == 'Y' {
        'y'
    } else if c == 'Z' {
        'z'
    } else {
        c
    }
}

/// [`spec_lower_char`] applied to every character.
pub open spec fn spec_lower(s: Seq<char>) -> Seq<char> {
    Seq::new(s.len(), |i: int| spec_lower_char(s[i]))
}

/// Executable form of [`spec_lower_char`].
pub fn lower_char(c: char) -> (r: char)
    ensures
        r == spec_lower_char(c),
{
    match c {
        'A' => 'a',
        'B' => 'b',
        'C' => 'c',
        'D' => 'd',
        'E' => 'e',
        'F' => 'f',
        'G' => 'g',
        'H' => 'h',
        'I' => 'i',
        'J' => 'j',
        'K' => 'k',
        'L' => 'l',
        'M' => 'm',
        'N' => 'n',
        'O' => 'o',
        'P' => 'p',
        'Q' => 'q',
        'R' => 'r',
        'S' => 's',
        'T' => 't',
        'U' => 'u',
        'V' => 'v',
        'W' => 'w',
        'X' => 'x',
        'Y' => 'y',
        'Z' => 'z',
        _ => c,
    }
}

/// Executable form of [`spec_lower`].
pub fn lower_chars(v: &Vec<char>) -> (r: Vec<char>)
    ensures
        r@ == spec_lower(v@),
{
    let mut r: Vec<char> = Vec::new();
    let mut i: usize = 0;
    while i < v.len()
        invariant
            0 <= i <= v@.len(),
            r@ == spec_lower(v@).subrange(0, i as int),
        decreases v@.len() - i,
    {
        r.push(lower_char(v[i]));
        proof {
            assert(r@ =~= spec_lower(v@).subrange(0, (i + 1) as int));
        }
        i = i + 1;
    }
    proof {
        assert(r@ =~= spec_lower(v@));
    }
    r
}

/// Executable equality of a character vector against a `&str` pattern.
pub fn chars_eq_str(v: &Vec<char>, pat: &str) -> (r: bool)
    ensures
        r == (v@ == pat@),
{
    let plen = pat.unicode_len();
    if plen != v.len() {
        return false;
    }
    let r = is_prefix_at(v, 0, pat);
    proof {
        if r {
            assert(v@.subrange(0, v@.len() as int) =~= v@);
        } else {
            if v@ == pat@ {
                assert(v@.subrange(0, v@.len() as int) =~= v@);
            }
        }
    }
    r
}

} // verus!
