//! The whole extraction, from the text of a report to the output records.

use crate::batch::batch;
use crate::batch::batched;
use crate::batch::cell_flags;
use crate::batch::entities;
use crate::batch::filter_records;
use crate::cell::pattern_compiles;
use crate::cell::CellPattern;
use crate::cell::COUNT_CELL_PATTERN;
use crate::error::description;
use crate::error::TableError;
use crate::error::TableErrorView;
use crate::layout::Layout;
use crate::layout::standard_layout;
use crate::layout::LayoutView;
use crate::lines::coalesce_lines;
use crate::lines::coalesced;
use crate::lines::select_window;
use crate::lines::window;
use crate::schema::map_records;
use crate::schema::mapped;
use crate::schema::country_views;
use crate::schema::output_view;
use crate::schema::CountryOutput;
use crate::schema::CountryView;
use crate::text::chars_of;
use crate::text::lemma_texts_push;
use crate::text::slice_of;
use crate::text::string_of;
use crate::text::texts;
use crate::text::trim;
use crate::text::trim_chars;
use vstd::prelude::*;
use vstd::string::StringExecFns;

verus! {

/// The first position at or after `i` that holds a line feed; the length of
/// `s` where there is none.
pub open spec fn line_end(s: Seq<char>, i: int) -> int
    decreases s.len() - i,
{
    if i < 0 || i >= s.len() {
        s.len() as int
    } else if s[i] == '\n' {
        i
    } else {
        line_end(s, i + 1)
    }
}

/// A line ends at or after its start, and within the text.
pub proof fn lemma_line_end(s: Seq<char>, i: int)
    requires
        0 <= i <= s.len(),
    ensures
        i <= line_end(s, i) <= s.len(),
    decreases s.len() - i,
{
    if i < s.len() && s[i] != '\n' {
        lemma_line_end(s, i + 1);
    }
}

/// Where the line behind the one that starts at `i` starts: behind the line
/// feed that ends it, or at the end of `s`.
pub open spec fn line_next(s: Seq<char>, i: int) -> int {
    if line_end(s, i) < s.len() {
        line_end(s, i) + 1
    } else {
        s.len() as int
    }
}

/// The lines of `s` from position `i` on: cut at line feeds, trimmed, and
/// without those that are then empty.
pub open spec fn lines_from(s: Seq<char>, i: int) -> Seq<Seq<char>>
    decreases s.len() - i,
    via lines_from_decreases
{
    if i < 0 || i >= s.len() {
        Seq::empty()
    } else {
        let line = trim(s.subrange(i, line_end(s, i)));
        if line.len() > 0 {
            seq![line] + lines_from(s, line_next(s, i))
        } else {
            lines_from(s, line_next(s, i))
        }
    }
}

#[via_fn]
proof fn lines_from_decreases(s: Seq<char>, i: int) {
    if 0 <= i < s.len() {
        lemma_line_end(s, i);
    }
}

/// The lines of a text that are not blank, each without the white space
/// around it.
pub open spec fn nonblank_lines(s: Seq<char>) -> Seq<Seq<char>> {
    lines_from(s, 0)
}

/// Cuts a text into its lines, trims them, and drops the blank ones.
pub fn split_lines(text: &str) -> (lines: Vec<String>)
    ensures
        texts(lines@) == nonblank_lines(text@),
{
    let s = chars_of(text);
    let n = s.len();
    let mut lines: Vec<String> = Vec::new();
    let mut i: usize = 0;
    assert(texts(lines@) + lines_from(s@, 0) =~= lines_from(s@, 0));
    while i < n
        invariant
            i <= n == s.len(),
            texts(lines@) + lines_from(s@, i as int) == nonblank_lines(s@),
        decreases n - i,
    {
        let mut e: usize = i;
        while e < n && s[e] != '\n'
            invariant
                i <= e <= n == s.len(),
                line_end(s@, e as int) == line_end(s@, i as int),
            decreases n - e,
        {
            e += 1;
        }
        let raw = slice_of(&s, i, e);
        let line = trim_chars(&raw);
        let ghost done = texts(lines@);
        let ghost rest = lines_from(s@, line_next(s@, i as int));
        if line.len() > 0 {
            let ghost before = lines@;
            let owned = string_of(&line);
            lines.push(owned);
            proof {
                lemma_texts_push(before, owned);
                assert(done + (seq![line@] + rest) =~= done.push(line@) + rest);
            }
        }
        if e < n {
            i = e + 1;
        } else {
            i = n;
        }
    }
    assert(texts(lines@) + lines_from(s@, n as int) =~= texts(lines@));
    lines
}

/// The output that the lines of a report stand for.
///
/// The lines are cut down to the table, wrapped count cells are mended, the
/// lines are grouped into records, the records that are no entities are
/// dropped, and the rest is mapped onto the output. The first stage that
/// fails gives the error of the whole.
pub open spec fn extracted(pattern: Seq<char>, lines: Seq<Seq<char>>, layout: LayoutView) -> Result<
    Seq<CountryView>,
    TableErrorView,
> {
    match window(lines, layout) {
        Err(e) => Err(e),
        Ok(table) => {
            let mended = coalesced(pattern, table);
            match batched(mended, cell_flags(pattern, mended), layout) {
                Err(e) => Err(e),
                Ok(records) => mapped(entities(records, layout), layout),
            }
        },
    }
}

/// Extracts the countries, with the regions of the designated country nested
/// in it, from the lines of a report.
///
/// Fails with `MissingStart` where the table does not begin, with `BadCount`
/// where a count cell holds no number of 32 bits, and with `ShapeMismatch`
/// where a row has a group that its mapping cannot read: exactly where
/// `extracted` does, with the same error. On failure nothing else is
/// returned.
pub fn extract_tables(pattern: &CellPattern, lines: &Vec<String>, layout: &Layout) -> (r: Result<
    Vec<CountryOutput>,
    TableError,
>)
    ensures
        output_view(r) == extracted(pattern.source(), texts(lines@), layout@),
{
    let table = match select_window(lines, layout) {
        Err(e) => {
            return Err(e);
        },
        Ok(table) => table,
    };
    let mended = coalesce_lines(pattern, table);
    let records = match batch(pattern, &mended, layout) {
        Err(e) => {
            return Err(e);
        },
        Ok(records) => records,
    };
    let kept = filter_records(&records, layout);
    map_records(&kept, layout)
}

/// Extracts the output from the text of a report: `extract_tables` on the
/// lines of the text that are not blank.
pub fn extract_from_text(pattern: &CellPattern, text: &str, layout: &Layout) -> (r: Result<
    Vec<CountryOutput>,
    TableError,
>)
    ensures
        output_view(r) == extracted(pattern.source(), nonblank_lines(text@), layout@),
{
    let lines = split_lines(text);
    extract_tables(pattern, &lines, layout)
}

/// Why a run over a report gave no output.
#[derive(Debug, Clone)]
pub enum ReportError {
    /// The count-cell pattern could not be compiled.
    PatternRejected,
    /// The table of the report is malformed.
    Table(TableError),
}

/// A `ReportError` with its texts as character sequences.
pub enum ReportErrorView {
    PatternRejected,
    Table(TableErrorView),
}

impl View for ReportError {
    type V = ReportErrorView;

    open spec fn view(&self) -> ReportErrorView {
        match *self {
            ReportError::PatternRejected => ReportErrorView::PatternRejected,
            ReportError::Table(e) => ReportErrorView::Table(e@),
        }
    }
}

/// What `describe` says of an error of a run.
pub open spec fn report_description(e: ReportErrorView) -> Seq<char> {
    match e {
        ReportErrorView::PatternRejected => "the count-cell pattern was rejected"@,
        ReportErrorView::Table(e) => description(e),
    }
}

impl ReportError {
    /// The error in words, for a diagnostic.
    pub fn describe(&self) -> (s: String)
        ensures
            s@ == report_description(self@),
    {
        match self {
            ReportError::PatternRejected => String::from_str("the count-cell pattern was rejected"),
            ReportError::Table(e) => e.describe(),
        }
    }
}

/// The output that the text of a situation report stands for, under the
/// count-cell pattern and the layout of these reports.
pub open spec fn report_of(text: Seq<char>) -> Result<Seq<CountryView>, TableErrorView> {
    extracted(COUNT_CELL_PATTERN@, nonblank_lines(text), standard_layout())
}

/// How a run over the text of a situation report ends: with
/// `PatternRejected`, where the count-cell pattern is not accepted by the
/// pattern compiler; otherwise as `report_of` says, with the output or with
/// the error of the table.
pub open spec fn report_outcome(text: Seq<char>) -> Result<Seq<CountryView>, ReportErrorView> {
    if !pattern_compiles(COUNT_CELL_PATTERN@) {
        Err(ReportErrorView::PatternRejected)
    } else {
        match report_of(text) {
            Ok(countries) => Ok(countries),
            Err(e) => Err(ReportErrorView::Table(e)),
        }
    }
}

/// The result of a run, seen through its views.
pub open spec fn report_view(r: Result<Vec<CountryOutput>, ReportError>) -> Result<
    Seq<CountryView>,
    ReportErrorView,
> {
    match r {
        Ok(countries) => Ok(country_views(countries@)),
        Err(e) => Err(e@),
    }
}

/// Extracts the output from the text of a situation report.
///
/// Fails with `PatternRejected` exactly where the count-cell pattern is not
/// accepted, which does not depend on the text. Otherwise it succeeds exactly
/// where `report_of` does, and fails with the error of the table where that
/// fails. A run on the same text ends the same way each time: with the same
/// countries, or with the same error.
pub fn extract_report(text: &str) -> (r: Result<Vec<CountryOutput>, ReportError>)
    ensures
        report_view(r) == report_outcome(text@),
{
    let pattern = match CellPattern::standard() {
        Some(pattern) => pattern,
        None => {
            return Err(ReportError::PatternRejected);
        },
    };
    let layout = Layout::standard();
    match extract_from_text(&pattern, text, &layout) {
        Ok(countries) => Ok(countries),
        Err(e) => Err(ReportError::Table(e)),
    }
}

} // verus!
