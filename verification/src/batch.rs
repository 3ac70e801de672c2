//! Rows: grouping the lines of the table into one record per row, and
//! dropping the rows that are no entities.

use crate::cell::count_group_of;
use crate::cell::parse_count_group;
use crate::cell::pattern_accepts;
use crate::cell::CellPattern;
use crate::cell::CountGroup;
use crate::error::TableError;
use crate::error::TableErrorView;
use crate::layout::repair_pairs;
use crate::layout::Layout;
use crate::layout::LayoutView;
use crate::layout::Repair;
use crate::text::chars_of;
use crate::text::contains;
use crate::text::contains_chars;
use crate::text::join_chars;
use crate::text::join_words;
use crate::text::replace_all;
use crate::text::replace_chars;
use crate::text::rows;
use crate::text::same_chars;
use crate::text::slice_of;
use crate::text::string_of;
use crate::text::texts;
use crate::text::trim;
use crate::text::trim_chars;
use vstd::prelude::*;

verus! {

/// One row of the table: the name of an entity and the cells of its row, from
/// left to right.
#[derive(Debug, Clone, PartialEq, Eq)]
pub struct Record {
    pub name: String,
    pub counts: Vec<CountGroup>,
}

/// A `Record` with its name as a character sequence.
pub struct RecordView {
    pub name: Seq<char>,
    pub counts: Seq<CountGroup>,
}

impl View for Record {
    type V = RecordView;

    open spec fn view(&self) -> RecordView {
        RecordView { name: self.name@, counts: self.counts@ }
    }
}

/// The views of a sequence of records.
pub open spec fn record_views(records: Seq<Record>) -> Seq<RecordView> {
    Seq::new(records.len(), |i: int| records[i]@)
}

/// A result of records, seen through their views.
pub open spec fn batch_view(r: Result<Vec<Record>, TableError>) -> Result<
    Seq<RecordView>,
    TableErrorView,
> {
    match r {
        Ok(v) => Ok(record_views(v@)),
        Err(e) => Err(e@),
    }
}

/// The views of a sequence of records grow with the sequence.
pub proof fn lemma_record_views_push(records: Seq<Record>, r: Record)
    ensures
        record_views(records.push(r)) == record_views(records).push(r@),
        record_views(records).len() == records.len(),
{
    assert(record_views(records.push(r)) =~= record_views(records).push(r@));
}

/// Whether a name fragment is noise: it holds one of the markers.
pub open spec fn is_noise(fragment: Seq<char>, markers: Seq<Seq<char>>) -> bool {
    exists|k: int| 0 <= k < markers.len() && contains(fragment, #[trigger] markers[k])
}

/// The lines that are left of a name when the noise is dropped.
pub open spec fn name_fragments(lines: Seq<Seq<char>>, markers: Seq<Seq<char>>) -> Seq<Seq<char>>
    decreases lines.len(),
{
    if lines.len() == 0 {
        Seq::empty()
    } else if is_noise(lines.last(), markers) {
        name_fragments(lines.drop_last(), markers)
    } else {
        name_fragments(lines.drop_last(), markers).push(lines.last())
    }
}

/// The name that the fragments stand for: where one of them is the header of
/// the name column, the last fragment alone; otherwise all of them, joined by
/// single spaces.
pub open spec fn resolved_name(fragments: Seq<Seq<char>>, header: Seq<char>) -> Seq<char> {
    if fragments.contains(header) {
        fragments.last()
    } else {
        join_words(fragments)
    }
}

/// `s` without a closing parenthesis at its start.
pub open spec fn strip_close(s: Seq<char>) -> Seq<char> {
    if s.len() > 0 && s[0] == ')' {
        s.drop_first()
    } else {
        s
    }
}

/// `s` without the footnote sign `mark` at its end.
pub open spec fn strip_mark(s: Seq<char>, mark: char) -> Seq<char> {
    if s.len() > 0 && s.last() == mark {
        s.drop_last()
    } else {
        s
    }
}

/// `s` after the repairs, applied one after the other in the order of the
/// table.
pub open spec fn repaired(s: Seq<char>, repairs: Seq<(Seq<char>, Seq<char>)>) -> Seq<char>
    decreases repairs.len(),
{
    if repairs.len() == 0 {
        s
    } else {
        replace_all(repaired(s, repairs.drop_last()), repairs.last().0, repairs.last().1)
    }
}

/// The name as it is recorded: without a leading closing parenthesis, without
/// a trailing footnote sign, trimmed, and repaired.
pub open spec fn cleaned_name(raw: Seq<char>, layout: LayoutView) -> Seq<char> {
    repaired(trim(strip_mark(strip_close(raw), layout.footnote_marker)), layout.repairs)
}

/// The cells read in order, or the first of them that cannot be read.
pub open spec fn counts_of(cells: Seq<Seq<char>>) -> Result<Seq<CountGroup>, TableErrorView>
    decreases cells.len(),
{
    if cells.len() == 0 {
        Ok(Seq::empty())
    } else {
        match counts_of(cells.drop_last()) {
            Err(e) => Err(e),
            Ok(groups) => match count_group_of(cells.last()) {
                Err(e) => Err(e),
                Ok(g) => Ok(groups.push(g)),
            },
        }
    }
}

/// Whether line `i` is marked as a count cell. A line without a mark is none.
pub open spec fn flag_at(flags: Seq<bool>, i: int) -> bool {
    0 <= i < flags.len() && flags[i]
}

/// Where the run of lines ends that starts at `i` and whose marks all equal
/// `cells`: the first position at or after `i` with the other mark, or `n`,
/// the number of lines.
pub open spec fn run_end(flags: Seq<bool>, n: int, i: int, cells: bool) -> int
    decreases n - i,
{
    if i < 0 || i >= n {
        n
    } else if flag_at(flags, i) != cells {
        i
    } else {
        run_end(flags, n, i + 1, cells)
    }
}

/// A run ends at or after its start, and within the lines.
pub proof fn lemma_run_end(flags: Seq<bool>, n: int, i: int, cells: bool)
    requires
        0 <= i <= n,
    ensures
        i <= run_end(flags, n, i, cells) <= n,
        i < n && flag_at(flags, i) == cells ==> i < run_end(flags, n, i, cells),
    decreases n - i,
{
    if i < n && flag_at(flags, i) == cells {
        lemma_run_end(flags, n, i + 1, cells);
    }
}

/// Where the name of the row that starts at line `i` ends and its cells begin.
pub open spec fn name_end(lines: Seq<Seq<char>>, flags: Seq<bool>, i: int) -> int {
    run_end(flags, lines.len() as int, i, false)
}

/// Where the row that starts at line `i` ends: after its name and its cells.
pub open spec fn row_end(lines: Seq<Seq<char>>, flags: Seq<bool>, i: int) -> int {
    run_end(flags, lines.len() as int, name_end(lines, flags, i), true)
}

/// A row takes at least one line.
pub proof fn lemma_row_end(lines: Seq<Seq<char>>, flags: Seq<bool>, i: int)
    requires
        0 <= i < lines.len(),
    ensures
        i <= name_end(lines, flags, i) <= row_end(lines, flags, i) <= lines.len(),
        i < row_end(lines, flags, i),
{
    let n = lines.len() as int;
    lemma_run_end(flags, n, i, false);
    lemma_run_end(flags, n, name_end(lines, flags, i), true);
}

/// The name of the row that starts at line `i`.
pub open spec fn row_name(
    lines: Seq<Seq<char>>,
    flags: Seq<bool>,
    i: int,
    layout: LayoutView,
) -> Seq<char> {
    cleaned_name(
        resolved_name(
            name_fragments(lines.subrange(i, name_end(lines, flags, i)), layout.noise_markers),
            layout.name_header,
        ),
        layout,
    )
}

/// The cells of the row that starts at line `i`.
pub open spec fn row_counts(lines: Seq<Seq<char>>, flags: Seq<bool>, i: int) -> Result<
    Seq<CountGroup>,
    TableErrorView,
> {
    counts_of(lines.subrange(name_end(lines, flags, i), row_end(lines, flags, i)))
}

/// The records of the rows from line `i` on.
///
/// A row is the run of lines that are no count cells, which make its name,
/// and the run of count cells behind it. A row whose name is empty, or that
/// has no cell, leaves no record. The first cell that cannot be read ends
/// the batching with its error.
pub open spec fn batched_from(
    lines: Seq<Seq<char>>,
    flags: Seq<bool>,
    i: int,
    layout: LayoutView,
) -> Result<Seq<RecordView>, TableErrorView>
    decreases lines.len() - i,
    via batched_from_decreases
{
    if i < 0 || i >= lines.len() {
        Ok(Seq::empty())
    } else {
        match row_counts(lines, flags, i) {
            Err(e) => Err(e),
            Ok(counts) => match batched_from(lines, flags, row_end(lines, flags, i), layout) {
                Err(e) => Err(e),
                Ok(rest) => {
                    let name = row_name(lines, flags, i, layout);
                    if name.len() > 0 && counts.len() > 0 {
                        Ok(seq![RecordView { name, counts }] + rest)
                    } else {
                        Ok(rest)
                    }
                },
            },
        }
    }
}

#[via_fn]
proof fn batched_from_decreases(
    lines: Seq<Seq<char>>,
    flags: Seq<bool>,
    i: int,
    layout: LayoutView,
) {
    if 0 <= i < lines.len() {
        lemma_row_end(lines, flags, i);
    }
}

/// The records of the table whose lines are `lines`, of which `flags` marks
/// the count cells.
pub open spec fn batched(lines: Seq<Seq<char>>, flags: Seq<bool>, layout: LayoutView) -> Result<
    Seq<RecordView>,
    TableErrorView,
> {
    batched_from(lines, flags, 0, layout)
}

/// The marks that `pattern` gives the lines.
pub open spec fn cell_flags(pattern: Seq<char>, lines: Seq<Seq<char>>) -> Seq<bool> {
    Seq::new(lines.len(), |i: int| pattern_accepts(pattern, lines[i]))
}

fn noise_chars(fragment: &Vec<char>, markers: &Vec<String>) -> (b: bool)
    ensures
        b == is_noise(fragment@, texts(markers@)),
{
    let mut k: usize = 0;
    while k < markers.len()
        invariant
            k <= markers.len(),
            forall|m: int| 0 <= m < k ==> !contains(fragment@, #[trigger] texts(markers@)[m]),
        decreases markers.len() - k,
    {
        let marker = chars_of(markers[k].as_str());
        if contains_chars(fragment, &marker) {
            assert(contains(fragment@, texts(markers@)[k as int]));
            return true;
        }
        k += 1;
    }
    false
}

/// Whether a name fragment is noise under `layout`.
pub fn is_noise_fragment(fragment: &str, layout: &Layout) -> (b: bool)
    ensures
        b == is_noise(fragment@, layout@.noise_markers),
{
    let f = chars_of(fragment);
    noise_chars(&f, &layout.noise_markers)
}

fn resolve_chars(fragments: &Vec<Vec<char>>, header: &Vec<char>) -> (out: Vec<char>)
    ensures
        out@ == resolved_name(rows(fragments@), header@),
{
    let mut k: usize = 0;
    while k < fragments.len()
        invariant
            k <= fragments.len(),
            forall|m: int| 0 <= m < k ==> rows(fragments@)[m] != header@,
        decreases fragments.len() - k,
    {
        if same_chars(&fragments[k], header) {
            assert(rows(fragments@)[k as int] == header@);
            let last = &fragments[fragments.len() - 1];
            let out = slice_of(last, 0, last.len());
            assert(out@ =~= rows(fragments@).last());
            return out;
        }
        k += 1;
    }
    join_chars(fragments)
}

/// The views of character vectors grow with the sequence.
proof fn lemma_rows_push(parts: Seq<Vec<char>>, v: Vec<char>)
    ensures
        rows(parts.push(v)) == rows(parts).push(v@),
        rows(parts).len() == parts.len(),
{
    assert(rows(parts.push(v)) =~= rows(parts).push(v@));
}

/// The name that the fragments of a row stand for.
pub fn resolve_name(fragments: &Vec<String>, layout: &Layout) -> (name: String)
    ensures
        name@ == resolved_name(texts(fragments@), layout@.name_header),
{
    let mut parts: Vec<Vec<char>> = Vec::new();
    let mut k: usize = 0;
    while k < fragments.len()
        invariant
            k <= fragments.len(),
            rows(parts@) == texts(fragments@).take(k as int),
        decreases fragments.len() - k,
    {
        let ghost before = parts@;
        let part = chars_of(fragments[k].as_str());
        parts.push(part);
        proof {
            lemma_rows_push(before, part);
            assert(texts(fragments@).take(k as int).push(texts(fragments@)[k as int])
                =~= texts(fragments@).take(k + 1));
        }
        k += 1;
    }
    assert(texts(fragments@).take(fragments@.len() as int) =~= texts(fragments@));
    let header = chars_of(layout.name_header.as_str());
    let out = resolve_chars(&parts, &header);
    string_of(&out)
}

fn repair_chars(name: Vec<char>, repairs: &Vec<Repair>) -> (out: Vec<char>)
    ensures
        out@ == repaired(name@, repair_pairs(repairs@)),
{
    let ghost start = name@;
    let mut cur = name;
    let mut k: usize = 0;
    while k < repairs.len()
        invariant
            k <= repairs.len(),
            cur@ == repaired(start, repair_pairs(repairs@).take(k as int)),
        decreases repairs.len() - k,
    {
        let find = chars_of(repairs[k].find.as_str());
        let replace = chars_of(repairs[k].replace.as_str());
        proof {
            let next = repair_pairs(repairs@).take(k + 1);
            assert(next.drop_last() =~= repair_pairs(repairs@).take(k as int));
            assert(next.last() == (find@, replace@));
        }
        cur = replace_chars(&cur, &find, &replace);
        k += 1;
    }
    assert(repair_pairs(repairs@).take(repairs@.len() as int) =~= repair_pairs(repairs@));
    cur
}

fn clean_chars(raw: &Vec<char>, layout: &Layout) -> (out: Vec<char>)
    ensures
        out@ == cleaned_name(raw@, layout@),
{
    let n = raw.len();
    let a: usize = if n > 0 && raw[0] == ')' {
        1
    } else {
        0
    };
    let b: usize = if n > a && raw[n - 1] == layout.footnote_marker {
        n - 1
    } else {
        n
    };
    let stripped = slice_of(raw, a, b);
    proof {
        let s1 = strip_close(raw@);
        assert(s1 =~= raw@.subrange(a as int, n as int));
        assert(strip_mark(s1, layout.footnote_marker) =~= raw@.subrange(a as int, b as int));
    }
    let trimmed = trim_chars(&stripped);
    repair_chars(trimmed, &layout.repairs)
}

/// Cleans a resolved name: drops a leading closing parenthesis and a trailing
/// footnote sign, trims it, and applies the repairs of `layout`.
pub fn clean_name(raw: &str, layout: &Layout) -> (name: String)
    ensures
        name@ == cleaned_name(raw@, layout@),
{
    let r = chars_of(raw);
    let out = clean_chars(&r, layout);
    string_of(&out)
}

/// The error of a prefix of the cells is the error of all of them.
proof fn lemma_counts_prefix_error(cells: Seq<Seq<char>>, m: int)
    requires
        0 <= m <= cells.len(),
        counts_of(cells.take(m)).is_err(),
    ensures
        counts_of(cells) == counts_of(cells.take(m)),
    decreases cells.len() - m,
{
    if m == cells.len() {
        assert(cells.take(m) =~= cells);
    } else {
        assert(cells.take(m + 1).drop_last() =~= cells.take(m));
        lemma_counts_prefix_error(cells, m + 1);
    }
}

fn flag(flags: &Vec<bool>, i: usize) -> (b: bool)
    ensures
        b == flag_at(flags@, i as int),
{
    i < flags.len() && flags[i]
}

spec fn with_prefix(done: Seq<RecordView>, rest: Result<Seq<RecordView>, TableErrorView>) -> Result<
    Seq<RecordView>,
    TableErrorView,
> {
    match rest {
        Ok(records) => Ok(done + records),
        Err(e) => Err(e),
    }
}

/// Groups the lines into records, given for each line whether it is a count
/// cell. A line for which `flags` holds no mark counts as none.
///
/// Fails with `BadCount` exactly where a line marked as a count cell holds a
/// part that is no number of 32 bits, and names the first such part.
pub fn batch_flagged(lines: &Vec<String>, flags: &Vec<bool>, layout: &Layout) -> (r: Result<
    Vec<Record>,
    TableError,
>)
    ensures
        batch_view(r) == batched(texts(lines@), flags@, layout@),
{
    let n = lines.len();
    let mut out: Vec<Record> = Vec::new();
    let mut i: usize = 0;
    assert(record_views(out@) + Seq::<RecordView>::empty() =~= Seq::<RecordView>::empty());
    while i < n
        invariant
            i <= n == lines.len(),
            with_prefix(record_views(out@), batched_from(texts(lines@), flags@, i as int, layout@))
                == batched(texts(lines@), flags@, layout@),
        decreases n - i,
    {
        let ghost all = texts(lines@);
        let mut fragments: Vec<Vec<char>> = Vec::new();
        let mut j: usize = i;
        while j < n && !flag(flags, j)
            invariant
                i <= j <= n == lines.len(),
                all == texts(lines@),
                run_end(flags@, n as int, j as int, false) == name_end(all, flags@, i as int),
                rows(fragments@) == name_fragments(
                    all.subrange(i as int, j as int),
                    layout@.noise_markers,
                ),
            decreases n - j,
        {
            let ghost before = fragments@;
            let fragment = chars_of(lines[j].as_str());
            proof {
                let next = all.subrange(i as int, j + 1);
                assert(next.drop_last() =~= all.subrange(i as int, j as int));
                assert(next.last() == fragment@);
            }
            if !noise_chars(&fragment, &layout.noise_markers) {
                fragments.push(fragment);
                proof {
                    lemma_rows_push(before, fragment);
                }
            }
            j += 1;
        }
        let header = chars_of(layout.name_header.as_str());
        let raw = resolve_chars(&fragments, &header);
        let name = clean_chars(&raw, layout);
        assert(j == name_end(all, flags@, i as int));
        assert(name@ == row_name(all, flags@, i as int, layout@));
        let mut counts: Vec<CountGroup> = Vec::new();
        let mut k: usize = j;
        assert(all.subrange(j as int, j as int) =~= Seq::<Seq<char>>::empty());
        while k < n && flag(flags, k)
            invariant
                i <= j <= k <= n == lines.len(),
                i < n,
                all == texts(lines@),
                with_prefix(record_views(out@), batched_from(all, flags@, i as int, layout@))
                    == batched(all, flags@, layout@),
                j == name_end(all, flags@, i as int),
                run_end(flags@, n as int, k as int, true) == row_end(all, flags@, i as int),
                counts_of(all.subrange(j as int, k as int)) == Ok::<
                    Seq<CountGroup>,
                    TableErrorView,
                >(counts@),
            decreases n - k,
        {
            let parsed = parse_count_group(lines[k].as_str());
            proof {
                let next = all.subrange(j as int, k + 1);
                assert(next.drop_last() =~= all.subrange(j as int, k as int));
                assert(next.last() == lines@[k as int]@);
                lemma_run_end(flags@, n as int, k + 1, true);
            }
            match parsed {
                Ok(g) => {
                    counts.push(g);
                },
                Err(e) => {
                    proof {
                        let end = row_end(all, flags@, i as int);
                        let cells = all.subrange(j as int, end);
                        assert(cells.take(k + 1 - j) =~= all.subrange(j as int, k + 1));
                        lemma_counts_prefix_error(cells, k + 1 - j);
                        assert(row_counts(all, flags@, i as int) == Err::<
                            Seq<CountGroup>,
                            TableErrorView,
                        >(e@));
                    }
                    return Err(e);
                },
            }
            k += 1;
        }
        proof {
            lemma_row_end(all, flags@, i as int);
            assert(k == row_end(all, flags@, i as int));
            assert(row_counts(all, flags@, i as int) == Ok::<Seq<CountGroup>, TableErrorView>(
                counts@,
            ));
        }
        let ghost done = record_views(out@);
        let ghost tail = batched_from(all, flags@, k as int, layout@);
        if name.len() > 0 && counts.len() > 0 {
            let record = Record { name: string_of(&name), counts };
            proof {
                lemma_record_views_push(out@, record);
                if let Ok(rest) = tail {
                    assert(done + (seq![record@] + rest) =~= done.push(record@) + rest);
                }
            }
            out.push(record);
        }
        i = k;
    }
    proof {
        assert(record_views(out@) + Seq::<RecordView>::empty() =~= record_views(out@));
    }
    Ok(out)
}

/// Groups the lines into records, one for each row of the table.
///
/// `pattern` decides which lines are count cells; the rest is as in
/// `batch_flagged`.
pub fn batch(pattern: &CellPattern, lines: &Vec<String>, layout: &Layout) -> (r: Result<
    Vec<Record>,
    TableError,
>)
    ensures
        batch_view(r) == batched(
            texts(lines@),
            cell_flags(pattern.source(), texts(lines@)),
            layout@,
        ),
{
    let mut flags: Vec<bool> = Vec::new();
    let mut k: usize = 0;
    while k < lines.len()
        invariant
            k <= lines.len(),
            flags@ == cell_flags(pattern.source(), texts(lines@)).take(k as int),
        decreases lines.len() - k,
    {
        let b = pattern.is_cell(lines[k].as_str());
        flags.push(b);
        assert(flags@ =~= cell_flags(pattern.source(), texts(lines@)).take(k + 1));
        k += 1;
    }
    assert(flags@ =~= cell_flags(pattern.source(), texts(lines@)));
    batch_flagged(lines, &flags, layout)
}

/// Whether a record stands for an entity: it has the groups of a full row and
/// its name is none of the summary labels.
pub open spec fn is_entity(record: RecordView, layout: LayoutView) -> bool {
    record.counts.len() >= layout.min_groups && !layout.summary_labels.contains(record.name)
}

/// The records that stand for entities, in their order.
pub open spec fn entities(records: Seq<RecordView>, layout: LayoutView) -> Seq<RecordView>
    decreases records.len(),
{
    if records.len() == 0 {
        Seq::empty()
    } else if is_entity(records.last(), layout) {
        entities(records.drop_last(), layout).push(records.last())
    } else {
        entities(records.drop_last(), layout)
    }
}

/// Every record that the filter keeps has the groups of a full row and a
/// name that is no summary label.
pub proof fn lemma_entities_kept(records: Seq<RecordView>, layout: LayoutView)
    ensures
        entities(records, layout).len() <= records.len(),
        forall|i: int|
            0 <= i < entities(records, layout).len() ==> is_entity(
                #[trigger] entities(records, layout)[i],
                layout,
            ),
    decreases records.len(),
{
    if records.len() > 0 {
        lemma_entities_kept(records.drop_last(), layout);
    }
}

/// Whether `record` stands for an entity under `layout`.
pub fn is_entity_record(record: &Record, layout: &Layout) -> (b: bool)
    ensures
        b == is_entity(record@, layout@),
{
    if record.counts.len() < layout.min_groups {
        return false;
    }
    let mut k: usize = 0;
    while k < layout.summary_labels.len()
        invariant
            k <= layout.summary_labels.len(),
            forall|m: int| 0 <= m < k ==> layout@.summary_labels[m] != record@.name,
        decreases layout.summary_labels.len() - k,
    {
        if layout.summary_labels[k] == record.name {
            assert(layout@.summary_labels[k as int] == record@.name);
            return false;
        }
        k += 1;
    }
    true
}

fn copy_record(record: &Record) -> (out: Record)
    ensures
        out@ == record@,
{
    let mut counts: Vec<CountGroup> = Vec::new();
    let mut k: usize = 0;
    while k < record.counts.len()
        invariant
            k <= record.counts.len(),
            counts@ == record.counts@.take(k as int),
        decreases record.counts.len() - k,
    {
        counts.push(record.counts[k]);
        assert(counts@ =~= record.counts@.take(k + 1));
        k += 1;
    }
    assert(record.counts@.take(record.counts@.len() as int) =~= record.counts@);
    Record { name: record.name.clone(), counts }
}

/// Drops the records that are no entities: those with fewer groups than a
/// full row, and those named by a summary label. The others keep their order.
pub fn filter_records(records: &Vec<Record>, layout: &Layout) -> (out: Vec<Record>)
    ensures
        record_views(out@) == entities(record_views(records@), layout@),
        forall|i: int|
            0 <= i < out.len() ==> (#[trigger] out[i])@.counts.len() >= layout.min_groups
                && !layout@.summary_labels.contains(out[i]@.name),
{
    let mut out: Vec<Record> = Vec::new();
    let mut k: usize = 0;
    while k < records.len()
        invariant
            k <= records.len(),
            record_views(out@) == entities(record_views(records@).take(k as int), layout@),
        decreases records.len() - k,
    {
        proof {
            let next = record_views(records@).take(k + 1);
            assert(next.drop_last() =~= record_views(records@).take(k as int));
            assert(next.last() == records@[k as int]@);
        }
        if is_entity_record(&records[k], layout) {
            let ghost before = out@;
            let record = copy_record(&records[k]);
            out.push(record);
            proof {
                lemma_record_views_push(before, record);
            }
        }
        k += 1;
    }
    proof {
        assert(record_views(records@).take(records@.len() as int) =~= record_views(records@));
        lemma_entities_kept(record_views(records@), layout@);
        assert forall|i: int| 0 <= i < out.len() implies (#[trigger] out[i])@.counts.len()
            >= layout.min_groups && !layout@.summary_labels.contains(out[i]@.name) by {
            assert(record_views(out@)[i] == out[i]@);
            assert(is_entity(entities(record_views(records@), layout@)[i], layout@));
        }
    }
    out
}

} // verus!
