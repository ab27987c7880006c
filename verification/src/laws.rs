//! Library-wide laws of the parser, proved against the specification
//! functions that the executable functions' contracts are stated over.

use vstd::prelude::*;

use crate::chars::contains_seq;
use crate::chars::prefix_at;
use crate::chars::spec_trim;
use crate::driver::bullet_content;
use crate::driver::first_level;
use crate::driver::is_skipped;
use crate::driver::is_top_shape;
use crate::driver::second_level;
use crate::driver::spec_parse;
use crate::driver::spec_run;
use crate::driver::spec_step;
use crate::driver::split_lines_from;
use crate::items::dual_records;
use crate::items::first_dual_from;
use crate::items::spec_classify;
use crate::items::standard_parts;
use crate::items::standard_records;

verus! {

/// A line that the hierarchy tracker reads as a top-level category line.
pub open spec fn is_top_line(line: Seq<char>) -> bool {
    is_top_shape(spec_trim(line))
}

/// The trimmed text of the most recent top-level category line among the
/// first `n` lines.
pub open spec fn latest_top(lines: Seq<Seq<char>>, n: int) -> Option<Seq<char>>
    decreases n,
{
    if n <= 0 {
        None
    } else if is_top_line(lines[n - 1]) {
        Some(spec_trim(lines[n - 1]))
    } else {
        latest_top(lines, n - 1)
    }
}

/// Every record the classifier emits has at least one code and carries
/// exactly the path it was given.
pub proof fn lemma_classify_records(content: Seq<char>, path: Seq<Seq<char>>)
    ensures
        match spec_classify(content, path) {
            Some(recs) => forall|k: int|
                0 <= k < recs.len() ==> (#[trigger] recs[k]).plu_codes.len() > 0
                    && recs[k].category_path == path,
            None => true,
        },
{
    if contains_seq(content, "retailer assigned"@) {
    } else {
        match first_dual_from(content, 0) {
            Some(p) => {
                let recs = dual_records(content, p, path);
                assert(forall|k: int|
                    0 <= k < recs.len() ==> (#[trigger] recs[k]).plu_codes.len() > 0
                        && recs[k].category_path == path);
            },
            None => {
                match standard_parts(content) {
                    Some(pr) => {
                        let recs = standard_records(content, path);
                        assert(forall|k: int|
                            0 <= k < recs.len() ==> (#[trigger] recs[k]).plu_codes.len() > 0
                                && recs[k].category_path == path);
                    },
                    None => {},
                }
            },
        }
    }
}

/// Every record one line emits has at least one code and carries the path
/// that the line left behind.
pub proof fn lemma_step_records(path: Seq<Seq<char>>, line: Seq<char>)
    ensures
        forall|k: int|
            0 <= k < spec_step(path, line).1.len() ==> (#[trigger] spec_step(
                path,
                line,
            ).1[k]).plu_codes.len() > 0 && spec_step(path, line).1[k].category_path == spec_step(
                path,
                line,
            ).0,
{
    let t = spec_trim(line);
    if is_skipped(t) {
    } else if is_top_shape(t) {
    } else if first_level(line) {
        let content = bullet_content(line);
        let p1 = if path.len() > 1 {
            path.subrange(0, 1)
        } else {
            path
        };
        if p1.len() == 0 {
        } else if content.len() > 0 && content.last() == ':' {
        } else {
            lemma_classify_records(content, p1);
        }
    } else if second_level(line) {
        let content = bullet_content(line);
        let p2 = if path.len() > 2 {
            path.subrange(0, 2)
        } else {
            path
        };
        if p2.len() == 2 {
            lemma_classify_records(content, p2);
        }
    } else {
    }
}

/// No line that the tracker reads as blank, boilerplate, bulleted or
/// unrecognized is a top-level category line, so one step changes the
/// path's head exactly when the line is a top-level category line.
proof fn lemma_step_not_top(path: Seq<Seq<char>>, line: Seq<char>)
    requires
        !is_top_line(line),
    ensures
        spec_step(path, line).0.len() <= 2 || path.len() > 2,
        spec_step(path, line).0.len() >= 1 ==> path.len() >= 1 && spec_step(path, line).0[0]
            == path[0],
        path.len() >= 1 ==> spec_step(path, line).0.len() >= 1,
{
    let t = spec_trim(line);
    if is_skipped(t) {
    } else if is_top_shape(t) {
        assert(false);
    } else {
    }
}

/// The path invariant of the driver: after any number of lines the path has
/// at most two elements, it is non-empty exactly when a top-level category
/// line has been seen, and its head is the most recent such line.
pub proof fn lemma_run_path(lines: Seq<Seq<char>>, n: int)
    requires
        0 <= n,
    ensures
        spec_run(lines, n).0.len() <= 2,
        spec_run(lines, n).0.len() >= 1 <==> latest_top(lines, n) is Some,
        spec_run(lines, n).0.len() >= 1 ==> spec_run(lines, n).0[0] == latest_top(
            lines,
            n,
        ).unwrap(),
    decreases n,
{
    if n > 0 {
        lemma_run_path(lines, n - 1);
        let path = spec_run(lines, n - 1).0;
        let line = lines[n - 1];
        let t = spec_trim(line);
        if is_top_line(line) {
            assert(!is_skipped(t)) by {
                reveal_strlit("no listing");
                reveal_strlit("all commodities");
                if prefix_at(t, 0, "no listing"@) {
                    assert(t.subrange(0, "no listing"@.len() as int)[0] == t[0]);
                    assert(t[0] == 'n');
                }
                if prefix_at(t, 0, "all commodities"@) {
                    assert(t.subrange(0, "all commodities"@.len() as int)[0] == t[0]);
                    assert(t[0] == 'a');
                }
            }
            assert(spec_step(path, line).0 =~= seq![t]);
        } else {
            lemma_step_not_top(path, line);
        }
    }
}

/// For every input, the output record sequence contains no record with an
/// empty code list.
pub proof fn lemma_no_empty_codes(text: Seq<char>)
    ensures
        forall|k: int|
            0 <= k < spec_parse(text).len() ==> (#[trigger] spec_parse(
                text,
            )[k]).plu_codes.len() > 0,
{
    let lines = split_lines_from(text, 0);
    lemma_run_records(lines, lines.len() as int);
}

/// Every record accumulated over the first `n` lines has at least one code,
/// a category path of one or two elements, and a head equal to the most
/// recent preceding top-level category line.
pub proof fn lemma_run_records(lines: Seq<Seq<char>>, n: int)
    requires
        0 <= n,
    ensures
        forall|k: int|
            0 <= k < spec_run(lines, n).1.len() ==> (#[trigger] spec_run(
                lines,
                n,
            ).1[k]).plu_codes.len() > 0 && 1 <= spec_run(lines, n).1[k].category_path.len() <= 2,
    decreases n,
{
    if n > 0 {
        lemma_run_records(lines, n - 1);
        lemma_run_path(lines, n - 1);
        let path = spec_run(lines, n - 1).0;
        let line = lines[n - 1];
        lemma_step_records(path, line);
        lemma_step_path_len(path, line);
    }
}

/// A step never leaves more than two elements on the path, and it emits
/// records only with a non-empty path.
proof fn lemma_step_path_len(path: Seq<Seq<char>>, line: Seq<char>)
    requires
        path.len() <= 2,
    ensures
        spec_step(path, line).0.len() <= 2,
        spec_step(path, line).1.len() > 0 ==> 1 <= spec_step(path, line).0.len() <= 2,
{
}

/// For every input, every record's category path has one or two elements and
/// its first element is the most recent top-level category line preceding
/// the record: a record emitted by line `n` (the records with indices new in
/// `spec_run(lines, n + 1)`) has `latest_top(lines, n + 1)` as its head.
pub proof fn lemma_category_path_scoped(lines: Seq<Seq<char>>, n: int, k: int)
    requires
        0 <= n < lines.len(),
        spec_run(lines, n).1.len() <= k < spec_run(lines, n + 1).1.len(),
    ensures
        1 <= spec_run(lines, n + 1).1[k].category_path.len() <= 2,
        latest_top(lines, n + 1) is Some,
        spec_run(lines, n + 1).1[k].category_path[0] == latest_top(lines, n + 1).unwrap(),
{
    lemma_run_path(lines, n);
    lemma_run_path(lines, n + 1);
    lemma_run_records(lines, n + 1);
    let path = spec_run(lines, n).0;
    let line = lines[n];
    lemma_step_records(path, line);
    let st = spec_step(path, line);
    assert(spec_run(lines, n + 1).1[k] == st.1[k - spec_run(lines, n).1.len()]);
    assert(spec_run(lines, n + 1).0 == st.0);
}

/// For every input, every record's category path has one or two elements.
pub proof fn lemma_parse_path_len(text: Seq<char>)
    ensures
        forall|k: int|
            0 <= k < spec_parse(text).len() ==> 1 <= (#[trigger] spec_parse(
                text,
            )[k]).category_path.len() <= 2,
{
    let lines = split_lines_from(text, 0);
    lemma_run_records(lines, lines.len() as int);
}

} // verus!
