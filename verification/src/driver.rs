//! The line driver and hierarchy tracker: walks the catalog text line by
//! line, skips blank and boilerplate lines, resets the category path on
//! top-level category lines, pushes sub-category headers, and hands bulleted
//! item lines to the classifier.

use vstd::prelude::*;

use crate::chars::is_prefix_at;
use crate::chars::is_space;
use crate::chars::is_space_char;
use crate::chars::prefix_at;
use crate::chars::skip_ws;
use crate::chars::skip_ws_at;
use crate::chars::spec_trim;
use crate::chars::str_to_chars;
use crate::chars::subrange_chars;
use crate::chars::trim_chars;
use crate::fields::find_char;
use crate::fields::find_char_at;
use crate::items::spec_classify;
use crate::model::PluCollection;
use crate::model::PluItem;
use crate::model::PluItemV;

verus! {

/// A line segment with one trailing carriage return removed.
pub open spec fn strip_cr(seg: Seq<char>) -> Seq<char> {
    if seg.len() > 0 && seg.last() == '\r' {
        seg.drop_last()
    } else {
        seg
    }
}

/// The lines of `s` at or after `i`: segments between newline characters,
/// each with a trailing carriage return removed.
pub open spec fn split_lines_from(s: Seq<char>, i: int) -> Seq<Seq<char>>
    decreases s.len() - i,
        via split_lines_dec
{
    if i < 0 {
        Seq::empty()
    } else {
        let j = find_char(s, i, '\n');
        if j >= s.len() {
            seq![strip_cr(s.subrange(i, s.len() as int))]
        } else {
            seq![strip_cr(s.subrange(i, j))] + split_lines_from(s, j + 1)
        }
    }
}

#[via_fn]
proof fn split_lines_dec(s: Seq<char>, i: int) {
    if 0 <= i <= s.len() {
        crate::fields::lemma_find_char(s, i, '\n');
    }
}

/// Splits `v` into lines, mirroring [`split_lines_from`].
pub fn split_lines_exec(v: &Vec<char>) -> (r: Vec<Vec<char>>)
    ensures
        r.deep_view() == split_lines_from(v@, 0),
{
    let ghost u = split_lines_from(v@, 0);
    let mut segs: Vec<Vec<char>> = Vec::new();
    let mut i: usize = 0;
    loop
        invariant_except_break
            u.len() == segs.deep_view().len() + split_lines_from(v@, i as int).len(),
            forall|m: int|
                0 <= m < split_lines_from(v@, i as int).len() ==> u[segs.deep_view().len() + m]
                    == #[trigger] split_lines_from(v@, i as int)[m],
        invariant
            0 <= i <= v@.len(),
            u == split_lines_from(v@, 0),
            forall|k: int|
                0 <= k < segs.deep_view().len() ==> #[trigger] segs.deep_view()[k] == u[k],
        ensures
            segs.deep_view().len() == u.len(),
            forall|k: int|
                0 <= k < segs.deep_view().len() ==> #[trigger] segs.deep_view()[k] == u[k],
        decreases v@.len() - i,
    {
        let ghost rem = split_lines_from(v@, i as int);
        let j = find_char_at(v, i, '\n');
        let mut seg = subrange_chars(v, i, j);
        if seg.len() > 0 && seg[seg.len() - 1] == '\r' {
            let ghost before = seg@;
            seg.pop();
            proof {
                assert(seg@ =~= before.drop_last());
            }
        }
        proof {
            assert(seg@ == strip_cr(v@.subrange(i as int, j as int)));
        }
        let ghost prev = segs.deep_view();
        segs.push(seg);
        proof {
            assert(segs.deep_view() =~~= prev.push(seg@));
            if j < v@.len() {
                assert(rem == seq![strip_cr(v@.subrange(i as int, j as int))] + split_lines_from(
                    v@,
                    j + 1,
                ));
            } else {
                assert(rem =~~= seq![strip_cr(v@.subrange(i as int, v@.len() as int))]);
            }
            assert(rem[0] == strip_cr(v@.subrange(i as int, j as int)));
            assert(u[prev.len() as int] == rem[0]);
            if j < v@.len() {
                assert(forall|m: int|
                    0 <= m < split_lines_from(v@, j + 1).len() ==> rem[m + 1]
                        == #[trigger] split_lines_from(v@, j + 1)[m]);
                assert(forall|m: int|
                    0 <= m < split_lines_from(v@, j + 1).len() ==> u[segs.deep_view().len() + m]
                        == #[trigger] split_lines_from(v@, j + 1)[m]);
            }
        }
        if j == v.len() {
            break;
        }
        i = j + 1;
    }
    proof {
        assert(segs.deep_view() =~~= u);
    }
    segs
}

/// An upper-case ASCII letter.
pub open spec fn is_upper(c: char) -> bool {
    'A' <= c && c <= 'Z'
}

/// A character allowed after the first in a top-level category label:
/// letters, space and a small set of punctuation.
pub open spec fn top_char(c: char) -> bool {
    ('a' <= c && c <= 'z') || ('A' <= c && c <= 'Z') || c == ' ' || c == '/' || c == '&' || c
        == '\'' || c == '-'
}

/// A bare capitalized category label: an upper-case letter followed by one or
/// more letters, spaces or the allowed punctuation, nothing else.
pub open spec fn is_top_shape(t: Seq<char>) -> bool {
    t.len() >= 2 && is_upper(t[0]) && forall|j: int| 1 <= j < t.len() ==> top_char(#[trigger] t[j])
}

/// Executable form of [`is_top_shape`].
pub fn is_top_shape_exec(t: &Vec<char>) -> (r: bool)
    ensures
        r == is_top_shape(t@),
{
    if t.len() < 2 {
        return false;
    }
    let c0 = t[0];
    if !('A' <= c0 && c0 <= 'Z') {
        return false;
    }
    let mut j: usize = 1;
    while j < t.len()
        invariant
            1 <= j <= t@.len(),
            forall|m: int| 1 <= m < j ==> top_char(#[trigger] t@[m]),
        decreases t@.len() - j,
    {
        let c = t[j];
        if !(('a' <= c && c <= 'z') || ('A' <= c && c <= 'Z') || c == ' ' || c == '/' || c == '&'
            || c == '\'' || c == '-') {
            return false;
        }
        j = j + 1;
    }
    true
}

/// A first-level bulleted line: optional leading whitespace, the bullet
/// glyph, then at least one whitespace character before the content.
pub open spec fn first_level(line: Seq<char>) -> bool {
    let k = skip_ws(line, 0);
    k < line.len() && line[k] == '\u{2022}' && k + 1 < line.len() && is_space(line[k + 1])
}

/// A second-level bulleted line: at least two leading whitespace characters,
/// the secondary glyph `o`, then at least one whitespace character.
pub open spec fn second_level(line: Seq<char>) -> bool {
    let k = skip_ws(line, 0);
    k >= 2 && k < line.len() && line[k] == 'o' && k + 1 < line.len() && is_space(line[k + 1])
}

/// The content of a bulleted line: everything after the glyph, trimmed.
pub open spec fn bullet_content(line: Seq<char>) -> Seq<char> {
    spec_trim(line.subrange(skip_ws(line, 0) + 1, line.len() as int))
}

/// `s` with every trailing colon removed.
pub open spec fn strip_colons(s: Seq<char>) -> Seq<char>
    decreases s.len(),
{
    if s.len() > 0 && s.last() == ':' {
        strip_colons(s.drop_last())
    } else {
        s
    }
}

pub proof fn lemma_strip_colons_eq(s: Seq<char>, e: int)
    requires
        0 <= e <= s.len(),
        forall|j: int| e <= j < s.len() ==> s[j] == ':',
        e == 0 || s[e - 1] != ':',
    ensures
        strip_colons(s) == s.subrange(0, e),
    decreases s.len(),
{
    if s.len() > e {
        assert(s.last() == ':');
        lemma_strip_colons_eq(s.drop_last(), e);
        assert(s.drop_last().subrange(0, e) =~= s.subrange(0, e));
    } else {
        assert(s.subrange(0, e) =~= s);
    }
}

/// A line that the driver passes over: blank once trimmed, or one of the two
/// boilerplate prefixes.
pub open spec fn is_skipped(t: Seq<char>) -> bool {
    t.len() == 0 || prefix_at(t, 0, "no listing"@) || prefix_at(t, 0, "all commodities"@)
}

/// What one line does to the category path and the output: the heart of the
/// hierarchy tracker. Returns the new path and the records the line emits.
pub open spec fn spec_step(path: Seq<Seq<char>>, line: Seq<char>) -> (Seq<Seq<char>>, Seq<
    PluItemV,
>) {
    let t = spec_trim(line);
    if is_skipped(t) {
        (path, Seq::empty())
    } else if is_top_shape(t) {
        (seq![t], Seq::empty())
    } else if first_level(line) {
        let content = bullet_content(line);
        let p1 = if path.len() > 1 {
            path.subrange(0, 1)
        } else {
            path
        };
        if p1.len() == 0 {
            (p1, Seq::empty())
        } else if content.len() > 0 && content.last() == ':' {
            (p1.push(spec_trim(strip_colons(content))), Seq::empty())
        } else {
            match spec_classify(content, p1) {
                Some(recs) => (p1, recs),
                None => (p1, Seq::empty()),
            }
        }
    } else if second_level(line) {
        let content = bullet_content(line);
        let p2 = if path.len() > 2 {
            path.subrange(0, 2)
        } else {
            path
        };
        if p2.len() != 2 {
            (p2, Seq::empty())
        } else {
            match spec_classify(content, p2) {
                Some(recs) => (p2, recs),
                None => (p2, Seq::empty()),
            }
        }
    } else {
        (path, Seq::empty())
    }
}

/// The path and accumulated records after the first `n` lines.
pub open spec fn spec_run(lines: Seq<Seq<char>>, n: int) -> (Seq<Seq<char>>, Seq<PluItemV>)
    decreases n,
{
    if n <= 0 {
        (Seq::empty(), Seq::empty())
    } else {
        let pr = spec_run(lines, n - 1);
        let st = spec_step(pr.0, lines[n - 1]);
        (st.0, pr.1 + st.1)
    }
}

/// The record sequence the whole text yields.
pub open spec fn spec_parse(text: Seq<char>) -> Seq<PluItemV> {
    let lines = split_lines_from(text, 0);
    spec_run(lines, lines.len() as int).1
}

/// Applies [`spec_step`] to one line: mutates the path and appends records.
fn process_line(line: &Vec<char>, path: &mut Vec<String>, items: &mut Vec<PluItem>)
    ensures
        final(path).deep_view() == spec_step(old(path).deep_view(), line@).0,
        final(items).deep_view() == old(items).deep_view() + spec_step(
            old(path).deep_view(),
            line@,
        ).1,
{
    proof {
        assert(items.deep_view() =~~= items.deep_view() + Seq::<PluItemV>::empty());
    }
    let t = trim_chars(line);
    if t.len() == 0 {
        return;
    }
    if is_prefix_at(&t, 0, "no listing") || is_prefix_at(&t, 0, "all commodities") {
        return;
    }
    if is_top_shape_exec(&t) {
        path.truncate(0);
        proof {
            assert(path@ =~= Seq::<String>::empty());
        }
        path.push(crate::chars::chars_to_string(&t));
        proof {
            assert(path.deep_view() =~~= seq![t@]);
        }
        return;
    }
    let k = skip_ws_at(line, 0);
    let is_first = k < line.len() && line[k] == '\u{2022}' && k + 1 < line.len() && is_space_char(
        line[k + 1],
    );
    let is_second = !is_first && k >= 2 && k < line.len() && line[k] == 'o' && k + 1 < line.len()
        && is_space_char(line[k + 1]);
    if is_first {
        let ghost orig = path.deep_view();
        path.truncate(1);
        proof {
            assert(path.deep_view() =~~= (if orig.len() > 1 {
                orig.subrange(0, 1)
            } else {
                orig
            }));
        }
        if path.len() == 0 {
            return;
        }
        let raw = subrange_chars(line, k + 1, line.len());
        let content = trim_chars(&raw);
        proof {
            assert(content@ == bullet_content(line@));
        }
        if content.len() > 0 && content[content.len() - 1] == ':' {
            let mut e = content.len();
            while e > 0 && content[e - 1] == ':'
                invariant
                    0 <= e <= content@.len(),
                    forall|j: int| e <= j < content@.len() ==> content@[j] == ':',
                decreases e,
            {
                e = e - 1;
            }
            proof {
                lemma_strip_colons_eq(content@, e as int);
            }
            let head = subrange_chars(&content, 0, e);
            let sub = trim_chars(&head);
            let ghost before = path.deep_view();
            path.push(crate::chars::chars_to_string(&sub));
            proof {
                assert(path.deep_view() =~~= before.push(sub@));
            }
            return;
        }
        let cs = crate::chars::chars_to_string(&content);
        let _ = crate::items::process_item_line(cs.as_str(), path, items);
        return;
    }
    if is_second {
        let ghost orig = path.deep_view();
        path.truncate(2);
        proof {
            assert(path.deep_view() =~~= (if orig.len() > 2 {
                orig.subrange(0, 2)
            } else {
                orig
            }));
        }
        if path.len() != 2 {
            return;
        }
        let raw = subrange_chars(line, k + 1, line.len());
        let content = trim_chars(&raw);
        proof {
            assert(content@ == bullet_content(line@));
        }
        let cs = crate::chars::chars_to_string(&content);
        let _ = crate::items::process_item_line(cs.as_str(), path, items);
        return;
    }
}

/// Parses the whole catalog text into its record collection. The parse never
/// fails: malformed lines are skipped.
pub fn parse_plu_text(text: &str) -> (r: Result<PluCollection, String>)
    ensures
        r is Ok,
        match r {
            Ok(c) => c@ == spec_parse(text@),
            Err(_) => false,
        },
{
    let v = str_to_chars(text);
    let lines = split_lines_exec(&v);
    let ghost lv = lines.deep_view();
    let mut path: Vec<String> = Vec::new();
    let mut items: Vec<PluItem> = Vec::new();
    proof {
        assert(path.deep_view() =~~= spec_run(lv, 0).0);
        assert(items.deep_view() =~~= spec_run(lv, 0).1);
    }
    let mut i: usize = 0;
    while i < lines.len()
        invariant
            0 <= i <= lines@.len(),
            lv == lines.deep_view(),
            path.deep_view() == spec_run(lv, i as int).0,
            items.deep_view() == spec_run(lv, i as int).1,
        decreases lines@.len() - i,
    {
        let ghost pv = path.deep_view();
        let ghost iv = items.deep_view();
        process_line(&lines[i], &mut path, &mut items);
        proof {
            assert(lv[i as int] =~= lines@[i as int]@);
            assert(spec_run(lv, i + 1).0 == spec_step(pv, lv[i as int]).0);
            assert(spec_run(lv, i + 1).1 == iv + spec_step(pv, lv[i as int]).1);
        }
        i = i + 1;
    }
    proof {
        assert(lv.len() == lines@.len());
    }
    let c = PluCollection { items };
    proof {
        assert(c@ =~~= spec_parse(text@));
    }
    Ok(c)
}

} // verus!
