//! The code extractor: turns the text found between the parentheses of an
//! item line into the list of concrete PLU codes. Footnoted numeric ranges
//! yield no codes; maximal digit runs become candidate numbers; a five-digit
//! candidate starting with a known truncatable prefix is cut back to four
//! digits and swallows the following candidate as a footnote digit.

use vstd::prelude::*;

use crate::chars::is_dash;
use crate::chars::is_dash_char;
use crate::chars::is_digit;
use crate::chars::is_digit_char;
use crate::chars::is_prefix_at;
use crate::chars::prefix_at;
use crate::chars::spec_trim;
use crate::chars::str_to_chars;
use crate::chars::subrange_chars;
use crate::chars::trim_chars;

verus! {

/// Index of the first non-digit character at or after `i`; `s.len()` if all
/// remaining characters are digits.
pub open spec fn digit_run_end(s: Seq<char>, i: int) -> int
    decreases s.len() - i,
{
    if i < 0 || i >= s.len() || !is_digit(s[i]) {
        i
    } else {
        digit_run_end(s, i + 1)
    }
}

pub proof fn lemma_digit_run_end(s: Seq<char>, i: int)
    requires
        0 <= i <= s.len(),
    ensures
        i <= digit_run_end(s, i) <= s.len(),
        forall|j: int| i <= j < digit_run_end(s, i) ==> is_digit(s[j]),
        digit_run_end(s, i) == s.len() || !is_digit(s[digit_run_end(s, i)]),
        i < s.len() && is_digit(s[i]) ==> digit_run_end(s, i) >= i + 1,
    decreases s.len() - i,
{
    if i < s.len() && is_digit(s[i]) {
        lemma_digit_run_end(s, i + 1);
    }
}

pub proof fn lemma_digit_run_end_eq(s: Seq<char>, i: int, k: int)
    requires
        0 <= i <= k <= s.len(),
        forall|j: int| i <= j < k ==> is_digit(s[j]),
        k == s.len() || !is_digit(s[k]),
    ensures
        digit_run_end(s, i) == k,
    decreases k - i,
{
    if i < k {
        lemma_digit_run_end_eq(s, i + 1, k);
    }
}

/// Executable form of [`digit_run_end`].
pub fn digit_run_end_at(v: &Vec<char>, i: usize) -> (r: usize)
    requires
        i <= v@.len(),
    ensures
        r == digit_run_end(v@, i as int),
        i <= r <= v@.len(),
{
    let mut k: usize = i;
    loop
        invariant
            i <= k <= v@.len(),
            forall|j: int| i <= j < k ==> is_digit(v@[j]),
        decreases v@.len() - k,
    {
        if k == v.len() || !is_digit_char(v[k]) {
            proof {
                lemma_digit_run_end_eq(v@, i as int, k as int);
            }
            return k;
        }
        k = k + 1;
    }
}

/// The maximal digit runs of `s` at or after `i`, in order of appearance.
pub open spec fn number_tokens(s: Seq<char>, i: int) -> Seq<Seq<char>>
    decreases s.len() - i,
        via number_tokens_dec
{
    if i < 0 || i >= s.len() {
        Seq::empty()
    } else if is_digit(s[i]) {
        seq![s.subrange(i, digit_run_end(s, i))] + number_tokens(s, digit_run_end(s, i))
    } else {
        number_tokens(s, i + 1)
    }
}

#[via_fn]
proof fn number_tokens_dec(s: Seq<char>, i: int) {
    if 0 <= i < s.len() && is_digit(s[i]) {
        lemma_digit_run_end(s, i);
    }
}

/// Every character of `t` is a digit.
pub open spec fn all_digits(t: Seq<char>) -> bool {
    forall|j: int| 0 <= j < t.len() ==> is_digit(#[trigger] t[j])
}

/// Every token is a non-empty all-digit run.
pub open spec fn all_digit_tokens(tokens: Seq<Seq<char>>) -> bool {
    forall|k: int|
        0 <= k < tokens.len() ==> (#[trigger] tokens[k]).len() >= 1 && all_digits(tokens[k])
}

pub proof fn lemma_number_tokens_digits(s: Seq<char>, i: int)
    requires
        0 <= i,
    ensures
        all_digit_tokens(number_tokens(s, i)),
    decreases s.len() - i,
{
    if i >= s.len() {
    } else if is_digit(s[i]) {
        lemma_digit_run_end(s, i);
        lemma_number_tokens_digits(s, digit_run_end(s, i));
        let run = s.subrange(i, digit_run_end(s, i));
        let rest = number_tokens(s, digit_run_end(s, i));
        assert(all_digits(run));
        assert forall|k: int| 0 <= k < (seq![run] + rest).len() implies (#[trigger] (seq![run]
            + rest)[k]).len() >= 1 && all_digits((seq![run] + rest)[k]) by {
            if k > 0 {
                assert((seq![run] + rest)[k] == rest[k - 1]);
            }
        }
    } else {
        lemma_number_tokens_digits(s, i + 1);
    }
}

/// Numeric value of a digit string, most significant digit first.
pub open spec fn digits_value(t: Seq<char>) -> nat
    decreases t.len(),
{
    if t.len() == 0 {
        0
    } else {
        digits_value(t.drop_last()) * 10 + crate::chars::digit_val(t.last())
    }
}

/// A prefix of a digit string never has a larger value than the whole.
pub proof fn lemma_digits_value_prefix(t: Seq<char>, i: int)
    requires
        0 <= i <= t.len(),
    ensures
        digits_value(t.subrange(0, i)) <= digits_value(t),
    decreases t.len(),
{
    if i < t.len() {
        assert(t.subrange(0, i) =~= t.drop_last().subrange(0, i));
        lemma_digits_value_prefix(t.drop_last(), i);
    } else {
        assert(t.subrange(0, i) =~= t);
    }
}

/// Value bounds for short digit strings.
pub proof fn lemma_digits_value_bound4(t: Seq<char>)
    requires
        forall|j: int| 0 <= j < t.len() ==> is_digit(t[j]),
    ensures
        t.len() <= 1 ==> digits_value(t) <= 9,
        t.len() <= 2 ==> digits_value(t) <= 99,
        t.len() <= 3 ==> digits_value(t) <= 999,
        t.len() <= 4 ==> digits_value(t) <= 9999,
    decreases t.len(),
{
    if t.len() > 0 {
        lemma_digits_value_bound4(t.drop_last());
    }
}

/// The four-digit code values whose five-digit textual renderings are a code
/// plus a footnote digit. A closed set observed in the source catalog.
pub open spec fn is_trunc_prefix(p: Seq<char>) -> bool {
    p == "4136"@ || p == "4137"@ || p == "3392"@
}

/// A `digits-dash-digits` footnoted numeric range: such content denotes a
/// block of retailer-assignable codes, never concrete codes.
pub open spec fn is_range_shape(s: Seq<char>) -> bool {
    let k = digit_run_end(s, 0);
    1 <= k < s.len() && is_dash(s[k]) && k + 1 < s.len() && digit_run_end(s, k + 1) == s.len()
}

/// The codes taken out of a token list: a five-digit token with a truncatable
/// prefix yields the four-digit value and swallows the next token; any other
/// token yields its value when it fits in a `u32` and is dropped otherwise.
pub open spec fn codes_from_tokens(tokens: Seq<Seq<char>>, i: int) -> Seq<u32>
    decreases tokens.len() - i,
{
    if i < 0 || i >= tokens.len() {
        Seq::empty()
    } else {
        let t = tokens[i];
        if t.len() == 5 && is_trunc_prefix(t.subrange(0, 4)) {
            let next = if i + 2 <= tokens.len() {
                i + 2
            } else {
                tokens.len() as int
            };
            seq![digits_value(t.subrange(0, 4)) as u32] + codes_from_tokens(tokens, next)
        } else if digits_value(t) <= u32::MAX {
            seq![digits_value(t) as u32] + codes_from_tokens(tokens, i + 1)
        } else {
            codes_from_tokens(tokens, i + 1)
        }
    }
}

/// What the code extractor returns on the text between the parentheses:
/// nothing for a range, otherwise the codes of the digit runs in order.
pub open spec fn spec_parse_plu_codes(text: Seq<char>) -> Seq<u32> {
    let t = spec_trim(text);
    if is_range_shape(t) {
        Seq::empty()
    } else {
        codes_from_tokens(number_tokens(t, 0), 0)
    }
}

/// Executable numeric value of a digit character.
pub fn digit_value(c: char) -> (r: u32)
    requires
        is_digit(c),
    ensures
        r == crate::chars::digit_val(c),
        r <= 9,
{
    (c as u32) - ('0' as u32)
}

/// Value of an all-digit token, or `None` when it does not fit in a `u32`.
pub fn token_value(t: &Vec<char>) -> (r: Option<u32>)
    requires
        forall|j: int| 0 <= j < t@.len() ==> is_digit(t@[j]),
    ensures
        match r {
            Some(x) => digits_value(t@) <= u32::MAX && x == digits_value(t@),
            None => digits_value(t@) > u32::MAX,
        },
{
    let mut acc: u32 = 0;
    let mut i: usize = 0;
    while i < t.len()
        invariant
            0 <= i <= t@.len(),
            forall|j: int| 0 <= j < t@.len() ==> is_digit(t@[j]),
            acc == digits_value(t@.subrange(0, i as int)),
        decreases t@.len() - i,
    {
        let d = digit_value(t[i]);
        proof {
            assert(t@.subrange(0, (i + 1) as int).drop_last() =~= t@.subrange(0, i as int));
            assert(t@.subrange(0, (i + 1) as int).last() == t@[i as int]);
        }
        if acc > u32::MAX / 10 {
            proof {
                lemma_digits_value_prefix(t@, (i + 1) as int);
            }
            return None;
        }
        let acc10 = acc * 10;
        if d > u32::MAX - acc10 {
            proof {
                lemma_digits_value_prefix(t@, (i + 1) as int);
            }
            return None;
        }
        acc = acc10 + d;
        i = i + 1;
    }
    proof {
        assert(t@.subrange(0, t@.len() as int) =~= t@);
    }
    Some(acc)
}

/// Collects the maximal digit runs of `v`, in order.
pub fn collect_tokens(v: &Vec<char>) -> (r: Vec<Vec<char>>)
    ensures
        r.deep_view() == number_tokens(v@, 0),
{
    let mut toks: Vec<Vec<char>> = Vec::new();
    proof {
        assert(number_tokens(v@, 0) =~~= toks.deep_view() + number_tokens(v@, 0));
    }
    let mut i: usize = 0;
    while i < v.len()
        invariant
            0 <= i <= v@.len(),
            number_tokens(v@, 0) == toks.deep_view() + number_tokens(v@, i as int),
        decreases v@.len() - i,
    {
        if is_digit_char(v[i]) {
            proof {
                lemma_digit_run_end(v@, i as int);
            }
            let e = digit_run_end_at(v, i);
            let tok = subrange_chars(v, i, e);
            let ghost prev = toks.deep_view();
            toks.push(tok);
            proof {
                assert(toks.deep_view() =~~= prev.push(tok@));
                assert(number_tokens(v@, i as int) == seq![v@.subrange(i as int, e as int)]
                    + number_tokens(v@, e as int));
                assert(number_tokens(v@, 0) =~~= toks.deep_view() + number_tokens(v@, e as int));
            }
            i = e;
        } else {
            i = i + 1;
        }
    }
    proof {
        assert(number_tokens(v@, 0) =~~= toks.deep_view());
    }
    toks
}

/// Executable test of [`is_range_shape`].
pub fn is_range_chars(v: &Vec<char>) -> (r: bool)
    ensures
        r == is_range_shape(v@),
{
    let k = digit_run_end_at(v, 0);
    if !(1 <= k && k < v.len()) {
        return false;
    }
    if !is_dash_char(v[k]) {
        return false;
    }
    if !(k + 1 < v.len()) {
        return false;
    }
    let e = digit_run_end_at(v, k + 1);
    e == v.len()
}

/// Turns the token list into codes, mirroring [`codes_from_tokens`].
pub fn codes_of_tokens(toks: &Vec<Vec<char>>) -> (r: Vec<u32>)
    requires
        all_digit_tokens(toks.deep_view()),
    ensures
        r@ == codes_from_tokens(toks.deep_view(), 0),
{
    let mut r: Vec<u32> = Vec::new();
    proof {
        assert(codes_from_tokens(toks.deep_view(), 0) =~= r@ + codes_from_tokens(
            toks.deep_view(),
            0,
        ));
    }
    let n = toks.len();
    let mut i: usize = 0;
    while i < n
        invariant
            0 <= i <= n,
            n == toks.deep_view().len(),
            all_digit_tokens(toks.deep_view()),
            codes_from_tokens(toks.deep_view(), 0) == r@ + codes_from_tokens(
                toks.deep_view(),
                i as int,
            ),
        decreases n - i,
    {
        let t = &toks[i];
        proof {
            assert(toks.deep_view()[i as int] == toks[i as int]@);
        }
        let is_trunc = t.len() == 5 && (is_prefix_at(t, 0, "4136") || is_prefix_at(t, 0, "4137")
            || is_prefix_at(t, 0, "3392"));
        proof {
            reveal_strlit("4136");
            reveal_strlit("4137");
            reveal_strlit("3392");
            if t@.len() == 5 {
                assert(prefix_at(t@, 0, "4136"@) <==> t@.subrange(0, 4) == "4136"@);
                assert(prefix_at(t@, 0, "4137"@) <==> t@.subrange(0, 4) == "4137"@);
                assert(prefix_at(t@, 0, "3392"@) <==> t@.subrange(0, 4) == "3392"@);
            }
        }
        if is_trunc {
            let head = subrange_chars(t, 0, 4);
            proof {
                lemma_digits_value_bound4(head@);
            }
            // A four-digit value always fits, so the `None` arm cannot run.
            let code = match token_value(&head) {
                Some(x) => x,
                None => 0,
            };
            r.push(code);
            proof {
                assert(codes_from_tokens(toks.deep_view(), 0) =~= r@ + codes_from_tokens(
                    toks.deep_view(),
                    if i + 2 <= n { i + 2 } else { n as int },
                ));
            }
            if n - i >= 2 {
                i = i + 2;
            } else {
                i = n;
            }
        } else {
            match token_value(t) {
                Some(x) => {
                    r.push(x);
                    proof {
                        assert(codes_from_tokens(toks.deep_view(), 0) =~= r@ + codes_from_tokens(
                            toks.deep_view(),
                            (i + 1) as int,
                        ));
                    }
                },
                None => {},
            }
            i = i + 1;
        }
    }
    r
}

/// Parses PLU codes from the text found between the parentheses of an item
/// line, e.g. `4098` or `4049, 43181,2`. Footnote digits and ranges yield no
/// codes.
pub fn parse_plu_codes(text: &str) -> (r: Vec<u32>)
    ensures
        r@ == spec_parse_plu_codes(text@),
{
    let raw = str_to_chars(text);
    parse_plu_codes_chars(&raw)
}

/// Character-level worker for [`parse_plu_codes`].
pub fn parse_plu_codes_chars(v: &Vec<char>) -> (r: Vec<u32>)
    ensures
        r@ == spec_parse_plu_codes(v@),
{
    let t = trim_chars(v);
    if is_range_chars(&t) {
        let r: Vec<u32> = Vec::new();
        proof {
            assert(r@ =~= spec_parse_plu_codes(v@));
        }
        return r;
    }
    let toks = collect_tokens(&t);
    proof {
        lemma_number_tokens_digits(t@, 0);
    }
    codes_of_tokens(&toks)
}

} // verus!
