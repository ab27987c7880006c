//! The item-line classifier: given the content of a bulleted line and the
//! current category path, it tries the line shapes in a fixed order — the
//! retailer-assigned marker, the dual-size split, the standard single-code
//! shape — and builds zero or more records on a match.

use vstd::prelude::*;

use crate::chars::contains_seq;
use crate::chars::contains_str;
use crate::chars::is_dash;
use crate::chars::is_digit;
use crate::chars::is_prefix_at;
use crate::chars::is_space;
use crate::chars::prefix_at;
use crate::chars::skip_ws;
use crate::chars::skip_ws_at;
use crate::chars::spec_trim;
use crate::chars::str_to_chars;
use crate::chars::subrange_chars;
use crate::chars::trim_chars;
use crate::codes::spec_parse_plu_codes;
use crate::fields::spec_extract_alternative_name;
use crate::fields::spec_extract_characteristics;
use crate::fields::spec_normalize_size;
use crate::model::PluItem;
use crate::model::PluItemV;

verus! {

/// The characters allowed between the parentheses of a code group: digits,
/// separators, whitespace, superscript footnote digits and dashes.
pub open spec fn code_char(c: char) -> bool {
    is_digit(c) || is_space(c) || c == ',' || c == '\u{00b9}' || c == '\u{00b2}' || c
        == '\u{00b3}' || is_dash(c)
}

/// Executable form of [`code_char`].
pub fn is_code_char(c: char) -> (r: bool)
    ensures
        r == code_char(c),
{
    crate::chars::is_digit_char(c) || c == ' ' || c == '\t' || c == '\r' || c == '\n' || c == ','
        || c == '\u{00b9}' || c == '\u{00b2}' || c == '\u{00b3}' || c == '-' || c == '\u{2010}'
}

/// Index of the first character at or after `i` that may not stand in a code
/// group; `s.len()` if all remaining characters may.
pub open spec fn class_run_end(s: Seq<char>, i: int) -> int
    decreases s.len() - i,
{
    if i < 0 || i >= s.len() || !code_char(s[i]) {
        i
    } else {
        class_run_end(s, i + 1)
    }
}

pub proof fn lemma_class_run_end_eq(s: Seq<char>, i: int, k: int)
    requires
        0 <= i <= k <= s.len(),
        forall|j: int| i <= j < k ==> code_char(s[j]),
        k == s.len() || !code_char(s[k]),
    ensures
        class_run_end(s, i) == k,
    decreases k - i,
{
    if i < k {
        lemma_class_run_end_eq(s, i + 1, k);
    }
}

/// Executable form of [`class_run_end`].
pub fn class_run_end_at(v: &Vec<char>, i: usize) -> (r: usize)
    requires
        i <= v@.len(),
    ensures
        r == class_run_end(v@, i as int),
        i <= r <= v@.len(),
{
    let mut k: usize = i;
    loop
        invariant
            i <= k <= v@.len(),
            forall|j: int| i <= j < k ==> code_char(v@[j]),
        decreases v@.len() - k,
    {
        if k == v.len() || !is_code_char(v[k]) {
            proof {
                lemma_class_run_end_eq(v@, i as int, k as int);
            }
            return k;
        }
        k = k + 1;
    }
}

/// The canonical size label standing at index `i` of `s`, tried in the fixed
/// order `small`, `medium`, `large`, `extra large`, `jumbo`.
pub open spec fn size_label_at(s: Seq<char>, i: int) -> Option<Seq<char>> {
    if prefix_at(s, i, "small"@) {
        Some("small"@)
    } else if prefix_at(s, i, "medium"@) {
        Some("medium"@)
    } else if prefix_at(s, i, "large"@) {
        Some("large"@)
    } else if prefix_at(s, i, "extra large"@) {
        Some("extra large"@)
    } else if prefix_at(s, i, "jumbo"@) {
        Some("jumbo"@)
    } else {
        None
    }
}

/// Executable form of [`size_label_at`]: the label and its end index.
pub fn size_at(v: &Vec<char>, i: usize) -> (r: Option<(Vec<char>, usize)>)
    ensures
        match r {
            Some(le) => size_label_at(v@, i as int) == Some(le.0@) && le.1 == i + le.0@.len()
                && le.1 <= v@.len(),
            None => size_label_at(v@, i as int) is None,
        },
{
    let n = v.len();
    proof {
        assert(n == v@.len());
    }
    if is_prefix_at(v, i, "small") {
        let l = str_to_chars("small");
        let e = i + l.len();
        return Some((l, e));
    }
    if is_prefix_at(v, i, "medium") {
        let l = str_to_chars("medium");
        let e = i + l.len();
        return Some((l, e));
    }
    if is_prefix_at(v, i, "large") {
        let l = str_to_chars("large");
        let e = i + l.len();
        return Some((l, e));
    }
    if is_prefix_at(v, i, "extra large") {
        let l = str_to_chars("extra large");
        let e = i + l.len();
        return Some((l, e));
    }
    if is_prefix_at(v, i, "jumbo") {
        let l = str_to_chars("jumbo");
        let e = i + l.len();
        return Some((l, e));
    }
    None
}

/// The pieces of a dual-size line, cut at the comma that ends the base name.
pub struct DualParts {
    pub base: Seq<char>,
    pub size1: Seq<char>,
    pub codes1: Seq<char>,
    pub size2: Seq<char>,
    pub codes2: Seq<char>,
}

/// Tries the dual-size shape with the base name ending at index `p`: a comma,
/// a size label, a parenthesized code group, a comma, a second size label and
/// a second code group closing the line.
pub open spec fn dual_parts_at(s: Seq<char>, p: int) -> Option<DualParts> {
    if p < 0 || p >= s.len() || s[p] != ',' {
        None
    } else {
        let q1 = skip_ws(s, p + 1);
        match size_label_at(s, q1) {
            None => None,
            Some(sz1) => {
                let e1 = q1 + sz1.len();
                let q2 = skip_ws(s, e1);
                if q2 >= s.len() || s[q2] != '(' {
                    None
                } else {
                    let r1 = class_run_end(s, q2 + 1);
                    if !(r1 > q2 + 1 && r1 < s.len() && s[r1] == ')' && r1 + 1 < s.len() && s[r1
                        + 1] == ',') {
                        None
                    } else {
                        let q3 = skip_ws(s, r1 + 2);
                        match size_label_at(s, q3) {
                            None => None,
                            Some(sz2) => {
                                let e2 = q3 + sz2.len();
                                let q4 = skip_ws(s, e2);
                                if q4 >= s.len() || s[q4] != '(' {
                                    None
                                } else {
                                    let r2 = class_run_end(s, q4 + 1);
                                    if r2 > q4 + 1 && r2 < s.len() && s[r2] == ')' && r2 + 1
                                        == s.len() {
                                        Some(
                                            DualParts {
                                                base: s.subrange(0, p),
                                                size1: sz1,
                                                codes1: s.subrange(q2 + 1, r1),
                                                size2: sz2,
                                                codes2: s.subrange(q4 + 1, r2),
                                            },
                                        )
                                    } else {
                                        None
                                    }
                                }
                            },
                        }
                    }
                }
            },
        }
    }
}

/// The first base-name split at which the dual-size shape matches.
pub open spec fn first_dual_from(s: Seq<char>, i: int) -> Option<int>
    decreases s.len() - i,
{
    if i < 0 || i >= s.len() {
        None
    } else if dual_parts_at(s, i) is Some {
        Some(i)
    } else {
        first_dual_from(s, i + 1)
    }
}

pub proof fn lemma_first_dual_some(s: Seq<char>, i: int, p: int)
    requires
        0 <= i <= p < s.len(),
        dual_parts_at(s, p) is Some,
        forall|m: int| i <= m < p ==> dual_parts_at(s, m) is None,
    ensures
        first_dual_from(s, i) == Some(p),
    decreases p - i,
{
    if i < p {
        lemma_first_dual_some(s, i + 1, p);
    }
}

pub proof fn lemma_first_dual_none(s: Seq<char>, i: int)
    requires
        0 <= i,
        forall|m: int| i <= m < s.len() ==> dual_parts_at(s, m) is None,
    ensures
        first_dual_from(s, i) is None,
    decreases s.len() - i,
{
    if i < s.len() {
        lemma_first_dual_none(s, i + 1);
    }
}

/// The last `(` of `s` at or before index `hi`; `-1` if there is none.
pub open spec fn last_open_from(s: Seq<char>, hi: int) -> int
    decreases hi + 1,
        when hi < s.len()
{
    if hi < 0 {
        -1
    } else if s[hi] == '(' {
        hi
    } else {
        last_open_from(s, hi - 1)
    }
}

/// Executable search for the last `(` among indices below `hi`.
pub fn last_open_below(v: &Vec<char>, hi: usize) -> (r: Option<usize>)
    requires
        hi <= v@.len(),
    ensures
        match r {
            Some(a) => a < hi && last_open_from(v@, hi - 1) == a,
            None => last_open_from(v@, hi - 1) == -1,
        },
    decreases hi,
{
    if hi == 0 {
        return None;
    }
    let a = hi - 1;
    if v[a] == '(' {
        return Some(a);
    }
    last_open_below(v, a)
}

/// Tries the standard shape `Name (codes)`: the line ends with `)`, its last
/// `(` is followed only by code-group characters, at least one. Returns the
/// trimmed name part and the text between the parentheses.
pub open spec fn standard_parts(s: Seq<char>) -> Option<(Seq<char>, Seq<char>)> {
    if s.len() < 1 || s[s.len() - 1] != ')' {
        None
    } else {
        let p = last_open_from(s, s.len() - 1);
        if p < 0 {
            None
        } else if class_run_end(s, p + 1) == s.len() - 1 && s.len() - 1 > p + 1 {
            Some((spec_trim(s.subrange(0, p)), s.subrange(p + 1, s.len() - 1)))
        } else {
            None
        }
    }
}

/// Whether a trailing `, size` suffix starts at the comma at index `p`.
pub open spec fn suffix_match(s: Seq<char>, p: int) -> bool {
    if p < 0 || p >= s.len() || s[p] != ',' {
        false
    } else {
        let q = skip_ws(s, p + 1);
        match size_label_at(s, q) {
            Some(l) => q + l.len() == s.len(),
            None => false,
        }
    }
}

/// The first comma at which a trailing `, size` suffix starts.
pub open spec fn suffix_from(s: Seq<char>, i: int) -> Option<int>
    decreases s.len() - i,
{
    if i < 0 || i >= s.len() {
        None
    } else if suffix_match(s, i) {
        Some(i)
    } else {
        suffix_from(s, i + 1)
    }
}

pub proof fn lemma_suffix_some(s: Seq<char>, i: int, p: int)
    requires
        0 <= i <= p < s.len(),
        suffix_match(s, p),
        forall|m: int| i <= m < p ==> !suffix_match(s, m),
    ensures
        suffix_from(s, i) == Some(p),
    decreases p - i,
{
    if i < p {
        lemma_suffix_some(s, i + 1, p);
    }
}

pub proof fn lemma_suffix_none(s: Seq<char>, i: int)
    requires
        0 <= i,
        forall|m: int| i <= m < s.len() ==> !suffix_match(s, m),
    ensures
        suffix_from(s, i) is None,
    decreases s.len() - i,
{
    if i < s.len() {
        lemma_suffix_none(s, i + 1);
    }
}

/// The glue placed between a name and its size label.
pub open spec fn comma_space() -> Seq<char> {
    seq![',', ' ']
}

/// The records a dual-size line yields: one per size group whose code list is
/// non-empty, the base name shared, the size appended to name and alternate.
pub open spec fn dual_records(s: Seq<char>, p: int, path: Seq<Seq<char>>) -> Seq<PluItemV> {
    let d = dual_parts_at(s, p).unwrap();
    let base_t = spec_trim(d.base);
    let nc = spec_extract_characteristics(base_t).0;
    let chars = spec_extract_characteristics(base_t).1;
    let nm = spec_extract_alternative_name(nc).0;
    let alt = spec_extract_alternative_name(nc).1;
    let sz1 = spec_normalize_size(d.size1);
    let sz2 = spec_normalize_size(d.size2);
    let codes1 = spec_parse_plu_codes(d.codes1);
    let codes2 = spec_parse_plu_codes(d.codes2);
    let rec1 = PluItemV {
        name: spec_trim(nm) + comma_space() + sz1,
        plu_codes: codes1,
        category_path: path,
        alternative_name: match alt {
            Some(a) => Some(spec_trim(a) + comma_space() + sz1),
            None => None,
        },
        characteristics: chars,
        size: Some(sz1),
    };
    let rec2 = PluItemV {
        name: spec_trim(nm) + comma_space() + sz2,
        plu_codes: codes2,
        category_path: path,
        alternative_name: match alt {
            Some(a) => Some(spec_trim(a) + comma_space() + sz2),
            None => None,
        },
        characteristics: chars,
        size: Some(sz2),
    };
    (if codes1.len() > 0 {
        seq![rec1]
    } else {
        Seq::empty()
    }) + (if codes2.len() > 0 {
        seq![rec2]
    } else {
        Seq::empty()
    })
}

/// The records a standard `Name (codes)` line yields: none when the code list
/// is empty, else exactly one, with a trailing `, size` suffix peeled off the
/// residual name when present.
pub open spec fn standard_records(s: Seq<char>, path: Seq<Seq<char>>) -> Seq<PluItemV> {
    let pr = standard_parts(s).unwrap();
    let codes = spec_parse_plu_codes(pr.1);
    if codes.len() == 0 {
        Seq::empty()
    } else {
        let nc = spec_extract_characteristics(pr.0).0;
        let chars = spec_extract_characteristics(pr.0).1;
        let nm = spec_extract_alternative_name(nc).0;
        let alt = spec_extract_alternative_name(nc).1;
        match suffix_from(nm, 0) {
            Some(p2) => {
                let q = skip_ws(nm, p2 + 1);
                let lbl = size_label_at(nm, q).unwrap();
                seq![
                    PluItemV {
                        name: spec_trim(nm.subrange(0, p2)),
                        plu_codes: codes,
                        category_path: path,
                        alternative_name: alt,
                        characteristics: chars,
                        size: Some(spec_normalize_size(lbl)),
                    },
                ]
            },
            None => seq![
                PluItemV {
                    name: nm,
                    plu_codes: codes,
                    category_path: path,
                    alternative_name: alt,
                    characteristics: chars,
                    size: None,
                },
            ],
        }
    }
}

/// What the classifier does with the content of a bulleted line: `None` when
/// no shape matches (the line is unrecognized); otherwise the records it
/// emits — none for a retailer-assigned marker, per size group for the
/// dual-size shape, at most one for the standard shape.
pub open spec fn spec_classify(content: Seq<char>, path: Seq<Seq<char>>) -> Option<Seq<PluItemV>> {
    if contains_seq(content, "retailer assigned"@) {
        Some(Seq::empty())
    } else {
        match first_dual_from(content, 0) {
            Some(p) => Some(dual_records(content, p, path)),
            None => match standard_parts(content) {
                Some(pr) => Some(standard_records(content, path)),
                None => None,
            },
        }
    }
}

/// Executable match of the dual-size shape at base split `p`.
pub fn dual_at_exec(v: &Vec<char>, p: usize) -> (r: Option<(Vec<char>, Vec<char>, Vec<char>, Vec<char>)>)
    requires
        p < v@.len(),
    ensures
        match r {
            Some(t) => dual_parts_at(v@, p as int) == Some(
                DualParts {
                    base: v@.subrange(0, p as int),
                    size1: t.0@,
                    codes1: t.1@,
                    size2: t.2@,
                    codes2: t.3@,
                },
            ),
            None => dual_parts_at(v@, p as int) is None,
        },
{
    let n = v.len();
    proof {
        assert(n == v@.len());
    }
    if v[p] != ',' {
        return None;
    }
    let q1 = skip_ws_at(v, p + 1);
    let s1 = size_at(v, q1);
    match s1 {
        None => None,
        Some((sz1, e1)) => {
            let q2 = skip_ws_at(v, e1);
            if q2 == v.len() {
                return None;
            }
            if v[q2] != '(' {
                return None;
            }
            let r1 = class_run_end_at(v, q2 + 1);
            if !(r1 > q2 + 1 && r1 < v.len()) {
                return None;
            }
            if v[r1] != ')' {
                return None;
            }
            if !(r1 + 1 < v.len()) {
                return None;
            }
            if v[r1 + 1] != ',' {
                return None;
            }
            let q3 = skip_ws_at(v, r1 + 2);
            let s2 = size_at(v, q3);
            match s2 {
                None => None,
                Some((sz2, e2)) => {
                    let q4 = skip_ws_at(v, e2);
                    if q4 == v.len() {
                        return None;
                    }
                    if v[q4] != '(' {
                        return None;
                    }
                    let r2 = class_run_end_at(v, q4 + 1);
                    if r2 > q4 + 1 && r2 < v.len() && v[r2] == ')' && r2 + 1 == v.len() {
                        let codes1 = subrange_chars(v, q2 + 1, r1);
                        let codes2 = subrange_chars(v, q4 + 1, r2);
                        Some((sz1, codes1, sz2, codes2))
                    } else {
                        None
                    }
                },
            }
        },
    }
}

/// Finds the first base split at which the dual-size shape matches.
pub fn find_dual(v: &Vec<char>) -> (r: Option<(usize, (Vec<char>, Vec<char>, Vec<char>, Vec<char>))>)
    ensures
        match r {
            Some(pt) => first_dual_from(v@, 0) == Some(pt.0 as int) && dual_parts_at(
                v@,
                pt.0 as int,
            ) == Some(
                DualParts {
                    base: v@.subrange(0, pt.0 as int),
                    size1: pt.1.0@,
                    codes1: pt.1.1@,
                    size2: pt.1.2@,
                    codes2: pt.1.3@,
                },
            ),
            None => first_dual_from(v@, 0) is None,
        },
{
    let mut p: usize = 0;
    while p < v.len()
        invariant
            0 <= p <= v@.len(),
            forall|m: int| 0 <= m < p ==> dual_parts_at(v@, m) is None,
        decreases v@.len() - p,
    {
        match dual_at_exec(v, p) {
            Some(t) => {
                proof {
                    lemma_first_dual_some(v@, 0, p as int);
                }
                return Some((p, t));
            },
            None => {},
        }
        p = p + 1;
    }
    proof {
        lemma_first_dual_none(v@, 0);
    }
    None
}

/// Executable match of the standard `Name (codes)` shape.
pub fn standard_exec(v: &Vec<char>) -> (r: Option<(Vec<char>, Vec<char>)>)
    ensures
        match r {
            Some(t) => standard_parts(v@) == Some((t.0@, t.1@)),
            None => standard_parts(v@) is None,
        },
{
    if v.len() == 0 {
        return None;
    }
    if v[v.len() - 1] != ')' {
        return None;
    }
    match last_open_below(v, v.len()) {
        None => None,
        Some(p) => {
            let r1 = class_run_end_at(v, p + 1);
            if r1 == v.len() - 1 && v.len() - 1 > p + 1 {
                let name_raw = subrange_chars(v, 0, p);
                let name = trim_chars(&name_raw);
                let codes = subrange_chars(v, p + 1, v.len() - 1);
                Some((name, codes))
            } else {
                None
            }
        },
    }
}

/// Finds the first comma that starts a trailing `, size` suffix, together
/// with the label found there.
pub fn find_suffix(v: &Vec<char>) -> (r: Option<(usize, Vec<char>)>)
    ensures
        match r {
            Some(pl) => suffix_from(v@, 0) == Some(pl.0 as int) && size_label_at(
                v@,
                skip_ws(v@, pl.0 + 1),
            ) == Some(pl.1@) && suffix_match(v@, pl.0 as int),
            None => suffix_from(v@, 0) is None,
        },
{
    let mut p: usize = 0;
    while p < v.len()
        invariant
            0 <= p <= v@.len(),
            forall|m: int| 0 <= m < p ==> !suffix_match(v@, m),
        decreases v@.len() - p,
    {
        if v[p] == ',' {
            let q = skip_ws_at(v, p + 1);
            match size_at(v, q) {
                Some((l, e)) => {
                    if e == v.len() {
                        proof {
                            lemma_suffix_some(v@, 0, p as int);
                        }
                        return Some((p, l));
                    }
                },
                None => {},
            }
        }
        p = p + 1;
    }
    proof {
        lemma_suffix_none(v@, 0);
    }
    None
}

/// `nm`, a comma and a space, and the size label.
pub fn join_size(nm: &Vec<char>, sz: &Vec<char>) -> (r: Vec<char>)
    ensures
        r@ == nm@ + comma_space() + sz@,
{
    let mut r = subrange_chars(nm, 0, nm.len());
    r.push(',');
    r.push(' ');
    crate::chars::append_range(&mut r, sz, 0, sz.len());
    proof {
        assert(sz@.subrange(0, sz@.len() as int) =~= sz@);
        assert(r@ =~= nm@ + comma_space() + sz@);
    }
    r
}

/// Classifies the content of one bulleted line against the current category
/// path and appends the records it yields. Returns whether a line shape
/// matched; an unrecognized line appends nothing and returns `false`.
pub fn process_item_line(content: &str, category_path: &Vec<String>, items: &mut Vec<PluItem>) -> (r:
    bool)
    ensures
        match spec_classify(content@, category_path.deep_view()) {
            Some(recs) => r && final(items).deep_view() == old(items).deep_view() + recs,
            None => !r && final(items).deep_view() == old(items).deep_view(),
        },
{
    let v = str_to_chars(content);
    if contains_str(&v, "retailer assigned") {
        proof {
            assert(items.deep_view() =~~= old(items).deep_view() + Seq::<PluItemV>::empty());
        }
        return true;
    }
    match find_dual(&v) {
        Some((p, parts)) => {
            let (sz1v, codes1v, sz2v, codes2v) = parts;
            let base_raw = subrange_chars(&v, 0, p);
            let base_t = trim_chars(&base_raw);
            let (nc, charx) = crate::fields::extract_characteristics_chars(&base_t);
            let (nm, alt) = crate::fields::extract_alternative_name_chars(&nc);
            let sz1 = crate::fields::normalize_size_chars(&sz1v);
            let sz2 = crate::fields::normalize_size_chars(&sz2v);
            let codes1 = crate::codes::parse_plu_codes_chars(&codes1v);
            let codes2 = crate::codes::parse_plu_codes_chars(&codes2v);
            let nm_t = trim_chars(&nm);
            let ghost path_v = category_path.deep_view();
            let ghost alt_spec = spec_extract_alternative_name(nc@).1;
            let ghost rec1 = PluItemV {
                name: nm_t@ + comma_space() + sz1@,
                plu_codes: codes1@,
                category_path: path_v,
                alternative_name: match alt_spec {
                    Some(a) => Some(spec_trim(a) + comma_space() + sz1@),
                    None => None,
                },
                characteristics: charx.deep_view(),
                size: Some(sz1@),
            };
            let ghost rec2 = PluItemV {
                name: nm_t@ + comma_space() + sz2@,
                plu_codes: codes2@,
                category_path: path_v,
                alternative_name: match alt_spec {
                    Some(a) => Some(spec_trim(a) + comma_space() + sz2@),
                    None => None,
                },
                characteristics: charx.deep_view(),
                size: Some(sz2@),
            };
            let ghost recs = dual_records(v@, p as int, path_v);
            proof {
                assert(recs =~~= (if codes1@.len() > 0 {
                    seq![rec1]
                } else {
                    Seq::<PluItemV>::empty()
                }) + (if codes2@.len() > 0 {
                    seq![rec2]
                } else {
                    Seq::<PluItemV>::empty()
                }));
            }
            if codes1.len() > 0 {
                let name1 = join_size(&nm_t, &sz1);
                let alt1: Option<String> = match &alt {
                    Some(a) => {
                        let at = trim_chars(a);
                        let j = join_size(&at, &sz1);
                        Some(crate::chars::chars_to_string(&j))
                    },
                    None => None,
                };
                let cs = crate::chars::strings_of(&charx);
                let item = PluItem::new(
                    crate::chars::chars_to_string(&name1),
                    codes1,
                    crate::chars::clone_strings(category_path),
                    alt1,
                    cs,
                    Some(crate::chars::chars_to_string(&sz1)),
                );
                let ghost prev = items.deep_view();
                items.push(item);
                proof {
                    assert(items.deep_view() =~~= prev.push(item@));
                    assert(item@ =~~= rec1);
                }
            }
            if codes2.len() > 0 {
                let name2 = join_size(&nm_t, &sz2);
                let alt2: Option<String> = match &alt {
                    Some(a) => {
                        let at = trim_chars(a);
                        let j = join_size(&at, &sz2);
                        Some(crate::chars::chars_to_string(&j))
                    },
                    None => None,
                };
                let cs = crate::chars::strings_of(&charx);
                let item = PluItem::new(
                    crate::chars::chars_to_string(&name2),
                    codes2,
                    crate::chars::clone_strings(category_path),
                    alt2,
                    cs,
                    Some(crate::chars::chars_to_string(&sz2)),
                );
                let ghost prev = items.deep_view();
                items.push(item);
                proof {
                    assert(items.deep_view() =~~= prev.push(item@));
                    assert(item@ =~~= rec2);
                }
            }
            proof {
                assert(items.deep_view() =~~= old(items).deep_view() + recs);
            }
            true
        },
        None => {
            match standard_exec(&v) {
                Some((name_part, codes_text)) => {
                    let codes = crate::codes::parse_plu_codes_chars(&codes_text);
                    let ghost path_v = category_path.deep_view();
                    let ghost recs = standard_records(v@, path_v);
                    if codes.len() == 0 {
                        proof {
                            assert(recs =~~= Seq::<PluItemV>::empty());
                            assert(items.deep_view() =~~= old(items).deep_view() + recs);
                        }
                        return true;
                    }
                    let (nc, charx) = crate::fields::extract_characteristics_chars(&name_part);
                    let (nm, alt) = crate::fields::extract_alternative_name_chars(&nc);
                    let alt_s: Option<String> = match &alt {
                        Some(a) => Some(crate::chars::chars_to_string(a)),
                        None => None,
                    };
                    let cs = crate::chars::strings_of(&charx);
                    let item = match find_suffix(&nm) {
                        Some((p2, lbl)) => {
                            let head = subrange_chars(&nm, 0, p2);
                            let name_f = trim_chars(&head);
                            let sz = crate::fields::normalize_size_chars(&lbl);
                            PluItem::new(
                                crate::chars::chars_to_string(&name_f),
                                codes,
                                crate::chars::clone_strings(category_path),
                                alt_s,
                                cs,
                                Some(crate::chars::chars_to_string(&sz)),
                            )
                        },
                        None => PluItem::new(
                            crate::chars::chars_to_string(&nm),
                            codes,
                            crate::chars::clone_strings(category_path),
                            alt_s,
                            cs,
                            None,
                        ),
                    };
                    let ghost prev = items.deep_view();
                    items.push(item);
                    proof {
                        assert(items.deep_view() =~~= prev.push(item@));
                        assert(recs =~~= seq![item@]);
                        assert(items.deep_view() =~~= old(items).deep_view() + recs);
                    }
                    true
                },
                None => {
                    false
                },
            }
        },
    }
}

} // verus!
