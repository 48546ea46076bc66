//! The multi-format log parser: turns the physical lines of one file into
//! logical records, reconstructing records that span several lines.
//!
//! Recognizers are tried in a fixed priority order per line and the first
//! match wins. A line matching no recognizer is dropped when it leads the
//! input, and is otherwise appended raw — with no separator — to the open
//! record's message. The result is a pure function of the pattern texts,
//! the lines and the source label.

use vstd::prelude::*;

use crate::pattern::Pattern;
use crate::pattern::default_pattern_texts;
use crate::pattern::default_patterns;
use crate::pattern::match_of;
use crate::pattern::regex_valid;
use crate::pattern::texts_of;
use crate::strutil::file_name_of;
use crate::strutil::file_name_spec;

verus! {

/// One reconstructed record: source name, timestamp text, level, message.
pub type LogEntry = Vec<String>;

/// The columns of a record, in the order `LogEntry` stores them.
#[derive(Clone, Copy)]
pub enum LogEntryIndices {
    FileName,
    Date,
    Level,
    Log,
}

impl LogEntryIndices {
    /// The position of this column inside a `LogEntry`.
    pub open spec fn spec_column(self) -> int {
        match self {
            LogEntryIndices::FileName => 0,
            LogEntryIndices::Date => 1,
            LogEntryIndices::Level => 2,
            LogEntryIndices::Log => 3,
        }
    }

    /// The position of this column inside a `LogEntry`.
    pub fn column(self) -> (r: usize)
        ensures
            r == self.spec_column(),
    {
        match self {
            LogEntryIndices::FileName => 0,
            LogEntryIndices::Date => 1,
            LogEntryIndices::Level => 2,
            LogEntryIndices::Log => 3,
        }
    }
}

/// Some pattern of the table matches `line`.
pub open spec fn line_matches(patterns: Seq<Seq<char>>, line: Seq<char>) -> bool {
    exists|k: int| 0 <= k < patterns.len() && #[trigger] match_of(patterns[k], line) is Some
}

/// The captures of the first pattern in table order that matches `line`,
/// or `None` when no pattern does.
pub open spec fn first_matching(patterns: Seq<Seq<char>>, line: Seq<char>) -> Option<
    (Seq<char>, Seq<char>, Seq<char>),
>
    decreases patterns.len(),
{
    if patterns.len() == 0 {
        None
    } else if match_of(patterns[0], line) is Some {
        match_of(patterns[0], line)
    } else {
        first_matching(patterns.skip(1), line)
    }
}

pub proof fn lemma_first_matching_some(patterns: Seq<Seq<char>>, line: Seq<char>)
    ensures
        first_matching(patterns, line) is Some <==> line_matches(patterns, line),
    decreases patterns.len(),
{
    if patterns.len() == 0 {
    } else if match_of(patterns[0], line) is Some {
        assert(line_matches(patterns, line));
    } else {
        lemma_first_matching_some(patterns.skip(1), line);
        if line_matches(patterns, line) {
            let k = choose|k: int|
                0 <= k < patterns.len() && #[trigger] match_of(patterns[k], line) is Some;
            assert(match_of(patterns.skip(1)[k - 1], line) is Some);
        }
        if line_matches(patterns.skip(1), line) {
            let k = choose|k: int|
                0 <= k < patterns.skip(1).len() && #[trigger] match_of(
                    patterns.skip(1)[k],
                    line,
                ) is Some;
            assert(match_of(patterns[k + 1], line) is Some);
        }
    }
}

/// The first index at or after `j` whose line matches some pattern, or the
/// number of lines when none does: where the look-ahead for continuation
/// lines stops.
pub open spec fn cont_end(patterns: Seq<Seq<char>>, lines: Seq<Seq<char>>, j: int) -> int
    decreases lines.len() - j,
{
    if !(0 <= j < lines.len()) {
        lines.len() as int
    } else if line_matches(patterns, lines[j]) {
        j
    } else {
        cont_end(patterns, lines, j + 1)
    }
}

pub proof fn lemma_cont_end_bounds(patterns: Seq<Seq<char>>, lines: Seq<Seq<char>>, j: int)
    requires
        0 <= j <= lines.len(),
    ensures
        j <= cont_end(patterns, lines, j) <= lines.len(),
        forall|k: int| j <= k < cont_end(patterns, lines, j) ==> !line_matches(patterns, lines[k]),
        cont_end(patterns, lines, j) < lines.len() ==> line_matches(
            patterns,
            lines[cont_end(patterns, lines, j)],
        ),
    decreases lines.len() - j,
{
    if 0 <= j < lines.len() && !line_matches(patterns, lines[j]) {
        lemma_cont_end_bounds(patterns, lines, j + 1);
    }
}

/// The raw text of lines `i..j`, concatenated with nothing between.
pub open spec fn concat_lines(lines: Seq<Seq<char>>, i: int, j: int) -> Seq<char>
    decreases j - i,
{
    if !(0 <= i < j && j <= lines.len()) {
        Seq::empty()
    } else {
        lines[i] + concat_lines(lines, i + 1, j)
    }
}

proof fn lemma_concat_snoc(lines: Seq<Seq<char>>, i: int, j: int)
    requires
        0 <= i <= j < lines.len(),
    ensures
        concat_lines(lines, i, j + 1) == concat_lines(lines, i, j) + lines[j],
    decreases j - i,
{
    if i == j {
        assert(concat_lines(lines, i + 1, j + 1) =~= Seq::<char>::empty());
        assert(concat_lines(lines, i, j) =~= Seq::<char>::empty());
        assert(concat_lines(lines, i, j + 1) =~= concat_lines(lines, i, j) + lines[j]);
    } else {
        lemma_concat_snoc(lines, i + 1, j);
        assert(concat_lines(lines, i, j + 1) =~= concat_lines(lines, i, j) + lines[j]);
    }
}

/// The records reconstructed from `lines[i..]`: §4.1's algorithm as one
/// function. A blank or unmatched line is skipped; a matched line opens a
/// record whose message is the `log` capture followed by every line up to
/// the next matching one, appended raw.
pub open spec fn spec_parse_from(
    patterns: Seq<Seq<char>>,
    lines: Seq<Seq<char>>,
    source: Seq<char>,
    i: int,
) -> Seq<Seq<Seq<char>>>
    decreases lines.len() - i,
    when 0 <= i <= lines.len()
    via spec_parse_from_decreases
{
    if i >= lines.len() {
        Seq::empty()
    } else if lines[i].len() == 0 {
        spec_parse_from(patterns, lines, source, i + 1)
    } else {
        match first_matching(patterns, lines[i]) {
            None => spec_parse_from(patterns, lines, source, i + 1),
            Some(caps) => {
                let j = cont_end(patterns, lines, i + 1);
                seq![seq![source, caps.0, caps.1, caps.2 + concat_lines(lines, i + 1, j)]]
                    + spec_parse_from(patterns, lines, source, j)
            },
        }
    }
}

#[via_fn]
proof fn spec_parse_from_decreases(
    patterns: Seq<Seq<char>>,
    lines: Seq<Seq<char>>,
    source: Seq<char>,
    i: int,
) {
    if 0 <= i < lines.len() {
        lemma_cont_end_bounds(patterns, lines, i + 1);
    }
}

/// The records of a whole input.
pub open spec fn spec_parse(
    patterns: Seq<Seq<char>>,
    lines: Seq<Seq<char>>,
    source: Seq<char>,
) -> Seq<Seq<Seq<char>>> {
    spec_parse_from(patterns, lines, source, 0)
}

/// Every reconstructed record has exactly the four columns.
pub proof fn lemma_parse_rows(
    patterns: Seq<Seq<char>>,
    lines: Seq<Seq<char>>,
    source: Seq<char>,
    i: int,
)
    requires
        0 <= i <= lines.len(),
    ensures
        forall|k: int|
            0 <= k < spec_parse_from(patterns, lines, source, i).len() ==> #[trigger] spec_parse_from(
                patterns,
                lines,
                source,
                i,
            )[k].len() == 4,
    decreases lines.len() - i,
{
    let res = spec_parse_from(patterns, lines, source, i);
    if i >= lines.len() {
    } else if lines[i].len() == 0 {
        lemma_parse_rows(patterns, lines, source, i + 1);
        assert forall|k: int| 0 <= k < res.len() implies #[trigger] res[k].len() == 4 by {
            assert(res[k] == spec_parse_from(patterns, lines, source, i + 1)[k]);
        }
    } else {
        match first_matching(patterns, lines[i]) {
            None => {
                lemma_parse_rows(patterns, lines, source, i + 1);
                assert forall|k: int| 0 <= k < res.len() implies #[trigger] res[k].len() == 4 by {
                    assert(res[k] == spec_parse_from(patterns, lines, source, i + 1)[k]);
                }
            },
            Some(caps) => {
                lemma_cont_end_bounds(patterns, lines, i + 1);
                let j = cont_end(patterns, lines, i + 1);
                lemma_parse_rows(patterns, lines, source, j);
                let rest = spec_parse_from(patterns, lines, source, j);
                assert forall|k: int| 0 <= k < res.len() implies #[trigger] res[k].len() == 4 by {
                    if k > 0 {
                        assert(res[k] == rest[k - 1]);
                    }
                }
            },
        }
    }
}

/// First match over the compiled table, in table order.
fn first_match_exec(patterns: &Vec<Pattern>, line: &str) -> (r: Option<(String, String, String)>)
    ensures
        r is Some <==> first_matching(texts_of(patterns@), line@) is Some,
        r matches Some(t) ==> first_matching(texts_of(patterns@), line@) == Some(
            (t.0@, t.1@, t.2@),
        ),
{
    let ghost pv = texts_of(patterns@);
    let n = patterns.len();
    let mut k: usize = 0;
    proof {
        assert(pv.skip(0) =~= pv);
    }
    while k < n
        invariant
            0 <= k <= n,
            n == patterns.len(),
            pv == texts_of(patterns@),
            first_matching(pv, line@) == first_matching(pv.skip(k as int), line@),
        decreases n - k,
    {
        proof {
            assert(pv.skip(k as int)[0] == patterns@[k as int]@);
        }
        let c = patterns[k].captures(line);
        if c.is_some() {
            return c;
        }
        proof {
            assert(pv.skip(k as int).skip(1) =~= pv.skip(k + 1));
        }
        k = k + 1;
    }
    None
}

/// Does any pattern of the table match `line`?
fn line_matches_exec(patterns: &Vec<Pattern>, line: &str) -> (r: bool)
    ensures
        r == line_matches(texts_of(patterns@), line@),
{
    let c = first_match_exec(patterns, line);
    proof {
        lemma_first_matching_some(texts_of(patterns@), line@);
    }
    c.is_some()
}

/// Parses `lines` with the given recognizer table, labelling every record
/// with `source_name`. Never fails: unrecognized lines yield no record.
pub fn parse_log_with(patterns: &Vec<Pattern>, lines: &Vec<&str>, source_name: &str) -> (r: Vec<
    Vec<String>,
>)
    ensures
        r.deep_view() == spec_parse(texts_of(patterns@), lines.deep_view(), source_name@),
        forall|k: int| 0 <= k < r.deep_view().len() ==> #[trigger] r.deep_view()[k].len() == 4,
{
    let ghost pv = texts_of(patterns@);
    let ghost lv = lines.deep_view();
    let ghost src = source_name@;
    let n = lines.len();
    let mut recs: Vec<Vec<String>> = Vec::new();
    let mut i: usize = 0;
    proof {
        assert(lv.len() == n);
        assert(recs.deep_view() + spec_parse_from(pv, lv, src, 0) =~= spec_parse_from(
            pv,
            lv,
            src,
            0,
        ));
    }
    while i < n
        invariant
            0 <= i <= n,
            n == lines.len(),
            lv.len() == n,
            pv == texts_of(patterns@),
            lv == lines.deep_view(),
            src == source_name@,
            recs.deep_view() + spec_parse_from(pv, lv, src, i as int) == spec_parse_from(
                pv,
                lv,
                src,
                0,
            ),
            forall|k: int|
                0 <= k < recs.deep_view().len() ==> #[trigger] recs.deep_view()[k].len() == 4,
        decreases n - i,
    {
        proof {
            assert(lv[i as int] == lines@[i as int]@);
        }
        let line = lines[i];
        if line.is_empty() {
            i = i + 1;
        } else {
            let m = first_match_exec(patterns, line);
            match m {
                None => {
                    i = i + 1;
                },
                Some((date, level, log_head)) => {
                    let ghost caps = first_matching(pv, lv[i as int]).unwrap();
                    let mut log = log_head;
                    let mut j = i + 1;
                    proof {
                        lemma_cont_end_bounds(pv, lv, i as int + 1);
                        assert(concat_lines(lv, i as int + 1, j as int) =~= Seq::<char>::empty());
                        assert(log@ =~= caps.2 + concat_lines(lv, i as int + 1, j as int));
                    }
                    loop
                        invariant
                            i + 1 <= j <= n,
                            n == lines.len(),
                            lv.len() == n,
                            pv == texts_of(patterns@),
                            lv == lines.deep_view(),
                            cont_end(pv, lv, i as int + 1) == cont_end(pv, lv, j as int),
                            log@ == caps.2 + concat_lines(lv, i as int + 1, j as int),
                        ensures
                            i + 1 <= j <= n,
                            log@ == caps.2 + concat_lines(lv, i as int + 1, j as int),
                            cont_end(pv, lv, i as int + 1) == j as int,
                        decreases n - j,
                    {
                        if j >= n {
                            break ;
                        }
                        proof {
                            assert(lv[j as int] == lines@[j as int]@);
                        }
                        let next_line = lines[j];
                        if line_matches_exec(patterns, next_line) {
                            break ;
                        }
                        proof {
                            lemma_concat_snoc(lv, i as int + 1, j as int);
                        }
                        log.append(next_line);
                        j = j + 1;
                    }
                    let ghost ce = cont_end(pv, lv, i as int + 1);
                    let mut rec: Vec<String> = Vec::new();
                    rec.push(source_name.to_owned());
                    rec.push(date);
                    rec.push(level);
                    rec.push(log);
                    proof {
                        assert(rec.deep_view() =~= seq![
                            src,
                            caps.0,
                            caps.1,
                            caps.2 + concat_lines(lv, i as int + 1, ce),
                        ]);
                        assert(spec_parse_from(pv, lv, src, i as int) == seq![rec.deep_view()]
                            + spec_parse_from(pv, lv, src, ce));
                        assert(recs.deep_view().push(rec.deep_view()) =~= recs.deep_view() + seq![
                            rec.deep_view(),
                        ]);
                        assert((recs.deep_view() + seq![rec.deep_view()]) + spec_parse_from(
                            pv,
                            lv,
                            src,
                            ce,
                        ) =~= recs.deep_view() + (seq![rec.deep_view()] + spec_parse_from(
                            pv,
                            lv,
                            src,
                            ce,
                        )));
                    }
                    let ghost old_recs = recs.deep_view();
                    recs.push(rec);
                    proof {
                        assert(recs.deep_view() =~= old_recs.push(rec.deep_view()));
                        assert forall|k: int|
                            0 <= k < recs.deep_view().len() implies #[trigger] recs.deep_view()[k].len()
                            == 4 by {
                            if k < old_recs.len() {
                                assert(recs.deep_view()[k] == old_recs[k]);
                            } else {
                                assert(recs.deep_view()[k] == rec.deep_view());
                            }
                        }
                    }
                    i = j;
                },
            }
        }
    }
    proof {
        assert(spec_parse_from(pv, lv, src, n as int) =~= Seq::<Seq<Seq<char>>>::empty());
        assert(recs.deep_view() + Seq::<Seq<Seq<char>>>::empty() =~= recs.deep_view());
    }
    recs
}

/// The pattern texts `parse_log_vec` recognizes: the built-in table.
pub open spec fn active_pattern_texts() -> Seq<Seq<char>> {
    default_pattern_texts().filter(|t: Seq<char>| regex_valid(t))
}

/// Parses `lines` with the built-in recognizer table, labelling records
/// with the file-name part of `log_path`.
pub fn parse_log_vec(lines: &Vec<&str>, log_path: &str) -> (r: Vec<Vec<String>>)
    ensures
        r.deep_view() == spec_parse(
            active_pattern_texts(),
            lines.deep_view(),
            file_name_spec(log_path@),
        ),
        forall|k: int| 0 <= k < r.deep_view().len() ==> #[trigger] r.deep_view()[k].len() == 4,
{
    let patterns = default_patterns();
    let name = file_name_of(log_path);
    parse_log_with(&patterns, lines, name.as_str())
}

/// Parsing holds no hidden state: the record sequence is a function of the
/// pattern texts, the lines and the source label alone, so re-parsing
/// identical input yields an identical record sequence.
pub proof fn lemma_parse_deterministic(
    patterns: Seq<Seq<char>>,
    lines: Seq<Seq<char>>,
    source: Seq<char>,
    r1: Seq<Seq<Seq<char>>>,
    r2: Seq<Seq<Seq<char>>>,
)
    requires
        r1 == spec_parse(patterns, lines, source),
        r2 == spec_parse(patterns, lines, source),
    ensures
        r1 == r2,
{
}

/// Multi-line reconstruction: when only the first and last of four lines
/// match a format, the parser yields exactly two records; the first
/// record's message is the first line's `log` capture followed by the two
/// continuation lines, concatenated with no separator, and the second
/// record's message is the last line's `log` capture.
pub proof fn lemma_multiline_reconstruction(
    patterns: Seq<Seq<char>>,
    source: Seq<char>,
    a: Seq<char>,
    c1: Seq<char>,
    c2: Seq<char>,
    b: Seq<char>,
)
    requires
        a.len() > 0,
        b.len() > 0,
        line_matches(patterns, a),
        line_matches(patterns, b),
        !line_matches(patterns, c1),
        !line_matches(patterns, c2),
    ensures
        ({
            let ca = first_matching(patterns, a).unwrap();
            let cb = first_matching(patterns, b).unwrap();
            spec_parse(patterns, seq![a, c1, c2, b], source) == seq![
                seq![source, ca.0, ca.1, ca.2 + c1 + c2],
                seq![source, cb.0, cb.1, cb.2],
            ]
        }),
{
    let lines = seq![a, c1, c2, b];
    lemma_first_matching_some(patterns, a);
    lemma_first_matching_some(patterns, b);
    let ca = first_matching(patterns, a).unwrap();
    let cb = first_matching(patterns, b).unwrap();
    assert(cont_end(patterns, lines, 3) == 3);
    assert(cont_end(patterns, lines, 2) == 3);
    assert(cont_end(patterns, lines, 1) == 3);
    assert(concat_lines(lines, 3, 3) =~= Seq::<char>::empty());
    assert(concat_lines(lines, 2, 3) =~= c2);
    assert(concat_lines(lines, 1, 3) =~= c1 + c2);
    assert(cont_end(patterns, lines, 4) == 4);
    assert(spec_parse_from(patterns, lines, source, 4) =~= Seq::<Seq<Seq<char>>>::empty());
    assert(concat_lines(lines, 4, 4) =~= Seq::<char>::empty());
    assert(cb.2 + concat_lines(lines, 4, 4) =~= cb.2);
    assert(ca.2 + (c1 + c2) =~= ca.2 + c1 + c2);
    let rec_a = seq![source, ca.0, ca.1, ca.2 + concat_lines(lines, 1, 3)];
    let rec_b = seq![source, cb.0, cb.1, cb.2 + concat_lines(lines, 4, 4)];
    assert(spec_parse_from(patterns, lines, source, 3) == seq![rec_b] + spec_parse_from(
        patterns,
        lines,
        source,
        4,
    ));
    assert(spec_parse_from(patterns, lines, source, 0) == seq![rec_a] + spec_parse_from(
        patterns,
        lines,
        source,
        3,
    ));
    assert(spec_parse(patterns, lines, source) =~~= seq![
        seq![source, ca.0, ca.1, ca.2 + c1 + c2],
        seq![source, cb.0, cb.1, cb.2],
    ]);
}

/// Dropped prefix: leading lines that are blank or match no format produce
/// no records and leave the records of the rest unchanged.
pub proof fn lemma_dropped_prefix(
    patterns: Seq<Seq<char>>,
    lines: Seq<Seq<char>>,
    source: Seq<char>,
    n: int,
)
    requires
        0 <= n <= lines.len(),
        forall|k: int|
            0 <= k < n ==> (lines[k].len() == 0 || !line_matches(patterns, #[trigger] lines[k])),
    ensures
        spec_parse(patterns, lines, source) == spec_parse_from(patterns, lines, source, n),
{
    lemma_skip_unmatched(patterns, lines, source, 0, n);
}

proof fn lemma_skip_unmatched(
    patterns: Seq<Seq<char>>,
    lines: Seq<Seq<char>>,
    source: Seq<char>,
    i: int,
    n: int,
)
    requires
        0 <= i <= n <= lines.len(),
        forall|k: int|
            i <= k < n ==> (lines[k].len() == 0 || !line_matches(patterns, #[trigger] lines[k])),
    ensures
        spec_parse_from(patterns, lines, source, i) == spec_parse_from(patterns, lines, source, n),
    decreases n - i,
{
    if i < n {
        lemma_first_matching_some(patterns, lines[i]);
        lemma_skip_unmatched(patterns, lines, source, i + 1, n);
    }
}

} // verus!
