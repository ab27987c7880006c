//! The field extractors: three independent rewrites of the name portion of an
//! item line. Characteristics extraction removes a bracketed `[...]` segment,
//! alternative-name extraction splits a `Primary / Alternate` construction,
//! and size normalization maps a size token to its canonical lower-case label.

use vstd::prelude::*;

use crate::chars::chars_eq_str;
use crate::chars::chars_to_string;
use crate::chars::is_prefix_at;
use crate::chars::lower_chars;
use crate::chars::prefix_at;
use crate::chars::spec_lower;
use crate::chars::spec_trim;
use crate::chars::str_to_chars;
use crate::chars::subrange_chars;
use crate::chars::trim_chars;

verus! {

/// Index of the first occurrence of `c` at or after `i`; `s.len()` if none.
pub open spec fn find_char(s: Seq<char>, i: int, c: char) -> int
    decreases s.len() - i,
{
    if i < 0 || i >= s.len() {
        s.len() as int
    } else if s[i] == c {
        i
    } else {
        find_char(s, i + 1, c)
    }
}

pub proof fn lemma_find_char(s: Seq<char>, i: int, c: char)
    requires
        0 <= i <= s.len(),
    ensures
        i <= find_char(s, i, c) <= s.len(),
        forall|j: int| i <= j < find_char(s, i, c) ==> s[j] != c,
        find_char(s, i, c) < s.len() ==> s[find_char(s, i, c)] == c,
    decreases s.len() - i,
{
    if i < s.len() && s[i] != c {
        lemma_find_char(s, i + 1, c);
    }
}

/// Executable form of [`find_char`].
pub fn find_char_at(v: &Vec<char>, i: usize, c: char) -> (r: usize)
    requires
        i <= v@.len(),
    ensures
        r == find_char(v@, i as int, c),
        i <= r <= v@.len(),
        r < v@.len() ==> v@[r as int] == c,
        forall|j: int| i <= j < r ==> v@[j] != c,
    decreases v@.len() - i,
{
    if i == v.len() {
        return i;
    }
    if v[i] == c {
        return i;
    }
    find_char_at(v, i + 1, c)
}

/// Index of the first `,` or `(` at or after `i`; `s.len()` if none. This is
/// where an alternate-name token stops.
pub open spec fn find_stop(s: Seq<char>, i: int) -> int
    decreases s.len() - i,
{
    if i < 0 || i >= s.len() {
        s.len() as int
    } else if s[i] == ',' || s[i] == '(' {
        i
    } else {
        find_stop(s, i + 1)
    }
}

/// Executable form of [`find_stop`].
pub fn find_stop_at(v: &Vec<char>, i: usize) -> (r: usize)
    requires
        i <= v@.len(),
    ensures
        r == find_stop(v@, i as int),
        i <= r <= v@.len(),
    decreases v@.len() - i,
{
    if i == v.len() {
        return i;
    }
    if v[i] == ',' || v[i] == '(' {
        return i;
    }
    find_stop_at(v, i + 1)
}

/// The segments of `s` between commas, starting at `i`; empty segments are
/// kept, and a trailing comma yields a trailing empty segment.
pub open spec fn split_commas(s: Seq<char>, i: int) -> Seq<Seq<char>>
    decreases s.len() - i,
        via split_commas_dec
{
    if i < 0 {
        Seq::empty()
    } else {
        let j = find_char(s, i, ',');
        if j >= s.len() {
            seq![s.subrange(i, s.len() as int)]
        } else {
            seq![s.subrange(i, j)] + split_commas(s, j + 1)
        }
    }
}

#[via_fn]
proof fn split_commas_dec(s: Seq<char>, i: int) {
    if 0 <= i <= s.len() {
        lemma_find_char(s, i, ',');
    }
}

/// [`split_commas`] with every segment trimmed.
pub open spec fn split_commas_trimmed(s: Seq<char>) -> Seq<Seq<char>> {
    Seq::new(split_commas(s, 0).len(), |k: int| spec_trim(split_commas(s, 0)[k]))
}

/// The largest index `a <= hi - 1` such that `s[a]` is `[` and a closing `]`
/// stands at index `a + 2` or later; `-1` if there is none.
pub open spec fn bracket_open_from(s: Seq<char>, hi: int) -> int
    decreases hi + 1,
        when hi < s.len()
{
    if hi < 0 {
        -1
    } else if s[hi] == '[' && find_char(s, hi + 2, ']') < s.len() {
        hi
    } else {
        bracket_open_from(s, hi - 1)
    }
}

/// The result of [`bracket_open_from`] points at an opening bracket that has
/// a closing bracket two or more places later.
pub proof fn lemma_bracket_open(s: Seq<char>, hi: int)
    requires
        -1 <= hi < s.len(),
    ensures
        -1 <= bracket_open_from(s, hi) <= hi,
        bracket_open_from(s, hi) >= 0 ==> s[bracket_open_from(s, hi)] == '[' && find_char(
            s,
            bracket_open_from(s, hi) + 2,
            ']',
        ) < s.len(),
    decreases hi + 1,
{
    if hi >= 0 && !(s[hi] == '[' && find_char(s, hi + 2, ']') < s.len()) {
        lemma_bracket_open(s, hi - 1);
    }
}

/// Executable search for the opening bracket among indices below `hi`.
pub fn bracket_open_below(v: &Vec<char>, hi: usize) -> (r: Option<usize>)
    requires
        hi <= v@.len(),
    ensures
        match r {
            Some(a) => a < hi && bracket_open_from(v@, hi - 1) == a,
            None => bracket_open_from(v@, hi - 1) == -1,
        },
    decreases hi,
{
    if hi == 0 {
        return None;
    }
    let a = hi - 1;
    if v[a] == '[' {
        let start = if v.len() - a >= 2 {
            a + 2
        } else {
            v.len()
        };
        let close = find_char_at(v, start, ']');
        proof {
            if a + 2 > v@.len() {
                assert(find_char(v@, a + 2, ']') == v@.len() as int);
            }
        }
        if close < v.len() {
            return Some(a);
        }
    }
    bracket_open_below(v, a)
}

/// What the characteristics extractor returns: the residual name and the
/// comma-split, trimmed contents of the bracketed segment; without a bracketed
/// segment the text is unchanged and the list is empty.
pub open spec fn spec_extract_characteristics(s: Seq<char>) -> (Seq<char>, Seq<Seq<char>>) {
    let a = bracket_open_from(s, s.len() - 1);
    if a < 0 {
        (s, Seq::empty())
    } else {
        let b = find_char(s, a + 2, ']');
        let name = spec_trim(s.subrange(0, a) + s.subrange(b + 1, s.len() as int));
        (name, split_commas_trimmed(s.subrange(a + 1, b)))
    }
}

/// Character-level worker for [`extract_characteristics`].
pub fn extract_characteristics_chars(v: &Vec<char>) -> (r: (Vec<char>, Vec<Vec<char>>))
    ensures
        r.0@ == spec_extract_characteristics(v@).0,
        r.1.deep_view() == spec_extract_characteristics(v@).1,
{
    match bracket_open_below(v, v.len()) {
        None => {
            let name = subrange_chars(v, 0, v.len());
            let list: Vec<Vec<char>> = Vec::new();
            proof {
                assert(name@ =~= v@);
                assert(list.deep_view() =~~= spec_extract_characteristics(v@).1);
            }
            (name, list)
        },
        Some(a) => {
            proof {
                lemma_bracket_open(v@, v@.len() - 1);
            }
            let start = if v.len() - a >= 2 {
                a + 2
            } else {
                v.len()
            };
            proof {
                if a + 2 > v@.len() {
                    assert(find_char(v@, a + 2, ']') == v@.len() as int);
                }
            }
            let b = find_char_at(v, start, ']');
            proof {
                assert(b == find_char(v@, a + 2, ']'));
                assert(b < v@.len());
            }
            let mut outer: Vec<char> = subrange_chars(v, 0, a);
            crate::chars::append_range(&mut outer, v, b + 1, v.len());
            let name = trim_chars(&outer);
            let inner = subrange_chars(v, a + 1, b);
            let list = split_commas_exec(&inner);
            proof {
                assert(name@ == spec_extract_characteristics(v@).0);
                assert(list.deep_view() == spec_extract_characteristics(v@).1);
            }
            (name, list)
        },
    }
}

/// Comma-splits `v` and trims every segment.
pub fn split_commas_exec(v: &Vec<char>) -> (r: Vec<Vec<char>>)
    ensures
        r.deep_view() == split_commas_trimmed(v@),
{
    let ghost u = split_commas(v@, 0);
    let mut segs: Vec<Vec<char>> = Vec::new();
    let mut i: usize = 0;
    loop
        invariant_except_break
            u.len() == segs.deep_view().len() + split_commas(v@, i as int).len(),
            forall|m: int|
                0 <= m < split_commas(v@, i as int).len() ==> u[segs.deep_view().len() + m]
                    == #[trigger] split_commas(v@, i as int)[m],
        invariant
            0 <= i <= v@.len(),
            u == split_commas(v@, 0),
            forall|k: int|
                0 <= k < segs.deep_view().len() ==> #[trigger] segs.deep_view()[k] == spec_trim(
                    u[k],
                ),
        ensures
            segs.deep_view().len() == u.len(),
            forall|k: int|
                0 <= k < segs.deep_view().len() ==> #[trigger] segs.deep_view()[k] == spec_trim(
                    u[k],
                ),
        decreases v@.len() - i,
    {
        let ghost rem = split_commas(v@, i as int);
        let j = find_char_at(v, i, ',');
        let seg = subrange_chars(v, i, j);
        let t = trim_chars(&seg);
        let ghost prev = segs.deep_view();
        segs.push(t);
        proof {
            assert(segs.deep_view() =~~= prev.push(t@));
            if j < v@.len() {
                assert(rem == seq![v@.subrange(i as int, j as int)] + split_commas(v@, j + 1));
            } else {
                assert(rem =~~= seq![v@.subrange(i as int, v@.len() as int)]);
            }
            assert(rem[0] == v@.subrange(i as int, j as int));
            assert(u[prev.len() as int] == rem[0]);
            assert(t@ == spec_trim(u[prev.len() as int]));
            if j < v@.len() {
                assert(forall|m: int|
                    0 <= m < split_commas(v@, j + 1).len() ==> rem[m + 1] == #[trigger] split_commas(
                        v@,
                        j + 1,
                    )[m]);
                assert(forall|m: int|
                    0 <= m < split_commas(v@, j + 1).len() ==> u[segs.deep_view().len() + m]
                        == #[trigger] split_commas(v@, j + 1)[m]);
            }
        }
        if j == v.len() {
            break;
        }
        i = j + 1;
    }
    proof {
        assert(segs.deep_view().len() == split_commas_trimmed(v@).len());
        assert(segs.deep_view() =~~= split_commas_trimmed(v@));
    }
    segs
}

/// Extracts a bracketed characteristics segment like `[seedless, 3-7 pounds]`:
/// returns the residual name and the comma-split, trimmed annotations.
pub fn extract_characteristics(text: &str) -> (r: (String, Vec<String>))
    ensures
        r.0@ == spec_extract_characteristics(text@).0,
        r.1.deep_view() == spec_extract_characteristics(text@).1,
{
    let v = str_to_chars(text);
    let (name, list) = extract_characteristics_chars(&v);
    let name_s = chars_to_string(&name);
    let list_s = crate::chars::strings_of(&list);
    (name_s, list_s)
}

/// What the alternative-name extractor returns: at the first `/`, the
/// alternate token runs to the next `,` or `(`; the residual name is the
/// primary token followed by the trailing text, trimmed. Without a slash the
/// text is unchanged.
pub open spec fn spec_extract_alternative_name(s: Seq<char>) -> (Seq<char>, Option<Seq<char>>) {
    let p = find_char(s, 0, '/');
    if p >= s.len() {
        (s, None)
    } else {
        let q = find_stop(s, p + 1);
        let alt = spec_trim(s.subrange(p + 1, q));
        let name = spec_trim(spec_trim(s.subrange(0, p)) + spec_trim(s.subrange(q, s.len() as int)));
        (name, Some(alt))
    }
}

/// Character-level worker for [`extract_alternative_name`].
pub fn extract_alternative_name_chars(v: &Vec<char>) -> (r: (Vec<char>, Option<Vec<char>>))
    ensures
        r.0@ == spec_extract_alternative_name(v@).0,
        match (r.1, spec_extract_alternative_name(v@).1) {
            (Some(a), Some(b)) => a@ == b,
            (None, None) => true,
            _ => false,
        },
{
    let p = find_char_at(v, 0, '/');
    if p == v.len() {
        let name = subrange_chars(v, 0, v.len());
        proof {
            assert(name@ =~= v@);
        }
        return (name, None);
    }
    let q = find_stop_at(v, p + 1);
    let alt_raw = subrange_chars(v, p + 1, q);
    let alt = trim_chars(&alt_raw);
    let head_raw = subrange_chars(v, 0, p);
    let head = trim_chars(&head_raw);
    let tail_raw = subrange_chars(v, q, v.len());
    let tail = trim_chars(&tail_raw);
    let mut joined = head;
    crate::chars::append_range(&mut joined, &tail, 0, tail.len());
    proof {
        assert(tail@.subrange(0, tail@.len() as int) =~= tail@);
    }
    let name = trim_chars(&joined);
    (name, Some(alt))
}

/// Extracts an alternative name like the `Southern Rose` of
/// `Aurora / Southern Rose`: returns the residual name and the alternate.
pub fn extract_alternative_name(text: &str) -> (r: (String, Option<String>))
    ensures
        r.0@ == spec_extract_alternative_name(text@).0,
        match (r.1, spec_extract_alternative_name(text@).1) {
            (Some(a), Some(b)) => a@ == b,
            (None, None) => true,
            _ => false,
        },
{
    let v = str_to_chars(text);
    let (name, alt) = extract_alternative_name_chars(&v);
    let name_s = chars_to_string(&name);
    let alt_s = match alt {
        Some(a) => Some(chars_to_string(&a)),
        None => None,
    };
    (name_s, alt_s)
}

/// The canonical size labels.
pub open spec fn is_size_label(s: Seq<char>) -> bool {
    s == "small"@ || s == "medium"@ || s == "large"@ || s == "extra large"@ || s == "jumbo"@
}

/// What size normalization returns: the trimmed token, lower-cased when that
/// lower-casing yields one of the canonical labels, otherwise unchanged.
pub open spec fn spec_normalize_size(s: Seq<char>) -> Seq<char> {
    let t = spec_trim(s);
    let l = spec_lower(t);
    if is_size_label(l) {
        l
    } else {
        t
    }
}

/// Character-level worker for [`normalize_size`].
pub fn normalize_size_chars(v: &Vec<char>) -> (r: Vec<char>)
    ensures
        r@ == spec_normalize_size(v@),
{
    let t = trim_chars(v);
    let l = lower_chars(&t);
    if chars_eq_str(&l, "small") || chars_eq_str(&l, "medium") || chars_eq_str(&l, "large")
        || chars_eq_str(&l, "extra large") || chars_eq_str(&l, "jumbo") {
        l
    } else {
        t
    }
}

/// Normalizes a size token: one of `small`, `medium`, `large`, `extra large`,
/// `jumbo` in any letter case maps to the canonical label; any other token is
/// trimmed and kept unchanged.
pub fn normalize_size(size_str: &str) -> (r: String)
    ensures
        r@ == spec_normalize_size(size_str@),
{
    let v = str_to_chars(size_str);
    let t = normalize_size_chars(&v);
    chars_to_string(&t)
}

} // verus!
