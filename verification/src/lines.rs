//! The first two stages: cutting the line sequence down to the table, and
//! mending count cells that the text extraction broke over two lines.

use crate::cell::pattern_accepts;
use crate::cell::CellPattern;
use crate::error::TableError;
use crate::error::TableErrorView;
use crate::layout::Layout;
use crate::layout::LayoutView;
use crate::text::chars_of;
use crate::text::has_char;
use crate::text::lemma_texts_push;
use crate::text::texts;
use vstd::prelude::*;
use vstd::string::StringExecFns;

verus! {

/// The first position at or after `from` whose line is `target`; the number
/// of lines where there is none.
pub open spec fn first_index(lines: Seq<Seq<char>>, target: Seq<char>, from: int) -> int
    decreases lines.len() - from,
{
    if from < 0 || from >= lines.len() {
        lines.len() as int
    } else if lines[from] == target {
        from
    } else {
        first_index(lines, target, from + 1)
    }
}

/// The lines of the table: from the first start marker, which is kept, up to
/// the first end marker after it, which is left out with all that follows.
/// Without a start marker there is no table.
pub open spec fn window(lines: Seq<Seq<char>>, layout: LayoutView) -> Result<
    Seq<Seq<char>>,
    TableErrorView,
> {
    let a = first_index(lines, layout.start_marker, 0);
    if a >= lines.len() {
        Err(TableErrorView::MissingStart)
    } else {
        Ok(lines.subrange(a, first_index(lines, layout.end_marker, a)))
    }
}

/// A result of lines, seen through the views of its strings.
pub open spec fn lines_view(r: Result<Vec<String>, TableError>) -> Result<
    Seq<Seq<char>>,
    TableErrorView,
> {
    match r {
        Ok(v) => Ok(texts(v@)),
        Err(e) => Err(e@),
    }
}

fn find_line(lines: &Vec<String>, target: &String, from: usize) -> (r: usize)
    requires
        from <= lines.len(),
    ensures
        r == first_index(texts(lines@), target@, from as int),
        from <= r <= lines.len(),
{
    let mut k: usize = from;
    while k < lines.len() && !(lines[k] == *target)
        invariant
            from <= k <= lines.len(),
            first_index(texts(lines@), target@, k as int) == first_index(
                texts(lines@),
                target@,
                from as int,
            ),
        decreases lines.len() - k,
    {
        k += 1;
    }
    k
}

/// Cuts the lines down to the table.
///
/// Fails with `MissingStart` exactly where the start marker is on no line.
pub fn select_window(lines: &Vec<String>, layout: &Layout) -> (r: Result<Vec<String>, TableError>)
    ensures
        lines_view(r) == window(texts(lines@), layout@),
{
    let a = find_line(lines, &layout.start_marker, 0);
    if a >= lines.len() {
        return Err(TableError::MissingStart);
    }
    let b = find_line(lines, &layout.end_marker, a);
    let mut out: Vec<String> = Vec::new();
    let mut k: usize = a;
    while k < b
        invariant
            a <= k <= b <= lines.len(),
            texts(out@) == texts(lines@).subrange(a as int, k as int),
        decreases b - k,
    {
        let ghost before = out@;
        out.push(lines[k].clone());
        proof {
            lemma_texts_push(before, lines@[k as int]);
            assert(texts(lines@).subrange(a as int, k as int).push(texts(lines@)[k as int])
                =~= texts(lines@).subrange(a as int, k + 1));
        }
        k += 1;
    }
    Ok(out)
}

/// Whether the line `cur` continues the count cell `prev`: `cur` opens with a
/// parenthesis, and `prev` is a count cell that has no parenthesis yet.
pub open spec fn mergeable(prev_is_cell: bool, prev: Seq<char>, cur: Seq<char>) -> bool {
    cur.len() > 0 && cur[0] == '(' && prev_is_cell && !prev.contains('(')
}

/// The two lines as one, with a space between them.
pub open spec fn merged(prev: Seq<char>, cur: Seq<char>) -> Seq<char> {
    prev + seq![' '] + cur
}

/// The lines `rest` coalesced behind the line `acc` that is still open: each
/// line in turn is merged into the open line where it continues it, and
/// otherwise closes it and becomes the open line itself.
pub open spec fn coalesce_from(pattern: Seq<char>, acc: Seq<char>, rest: Seq<Seq<char>>) -> Seq<
    Seq<char>,
>
    decreases rest.len(),
{
    if rest.len() == 0 {
        seq![acc]
    } else if mergeable(pattern_accepts(pattern, acc), acc, rest[0]) {
        coalesce_from(pattern, merged(acc, rest[0]), rest.drop_first())
    } else {
        seq![acc] + coalesce_from(pattern, rest[0], rest.drop_first())
    }
}

/// The lines with every wrapped count cell mended, in one pass from left to
/// right.
pub open spec fn coalesced(pattern: Seq<char>, lines: Seq<Seq<char>>) -> Seq<Seq<char>> {
    if lines.len() == 0 {
        Seq::empty()
    } else {
        coalesce_from(pattern, lines[0], lines.drop_first())
    }
}

/// Whether `cur` continues `prev`, given whether `prev` is a count cell.
pub fn should_merge(prev_is_cell: bool, prev: &str, cur: &str) -> (b: bool)
    ensures
        b == mergeable(prev_is_cell, prev@, cur@),
{
    if !prev_is_cell {
        return false;
    }
    let c = chars_of(cur);
    if c.len() == 0 || c[0] != '(' {
        return false;
    }
    let p = chars_of(prev);
    !has_char(&p, '(')
}

/// One step of the coalescing: the two lines as one where the second
/// continues the first, and both unchanged where it does not.
pub fn merge_pair(pattern: &CellPattern, prev: String, cur: String) -> (r: Result<
    String,
    (String, String),
>)
    ensures
        match r {
            Ok(m) => mergeable(pattern.accepts(prev@), prev@, cur@) && m@ == merged(prev@, cur@),
            Err(pair) => !mergeable(pattern.accepts(prev@), prev@, cur@) && pair.0@ == prev@
                && pair.1@ == cur@,
        },
{
    if should_merge(true, prev.as_str(), cur.as_str()) && pattern.is_cell(prev.as_str()) {
        let mut m = prev;
        m.push(' ');
        m.append(cur.as_str());
        Ok(m)
    } else {
        Err((prev, cur))
    }
}

/// `itertools::Itertools::coalesce` walks the lines with one line held open.
/// Where the closure returns `Ok`, its value becomes the open line; where it
/// returns `Err`, the first of the pair is emitted and the second becomes the
/// open line. The line that is open at the end is emitted last.
#[verifier::external_body]
fn coalesce_adjacent(pattern: &CellPattern, lines: Vec<String>) -> (out: Vec<String>)
    ensures
        texts(out@) == coalesced(pattern.source(), texts(lines@)),
{
    itertools::Itertools::coalesce(lines.into_iter(), |prev, cur| merge_pair(pattern, prev, cur))
        .collect()
}

/// Mends the count cells that were broken over two lines.
pub fn coalesce_lines(pattern: &CellPattern, lines: Vec<String>) -> (out: Vec<String>)
    ensures
        texts(out@) == coalesced(pattern.source(), texts(lines@)),
{
    coalesce_adjacent(pattern, lines)
}

/// Whether no line of `lines` continues the line before it.
pub open spec fn settled(pattern: Seq<char>, lines: Seq<Seq<char>>) -> bool {
    forall|i: int|
        0 <= i < lines.len() - 1 ==> !mergeable(
            pattern_accepts(pattern, #[trigger] lines[i]),
            lines[i],
            lines[i + 1],
        )
}

proof fn lemma_coalesce_head(pattern: Seq<char>, acc: Seq<char>, rest: Seq<Seq<char>>)
    ensures
        coalesce_from(pattern, acc, rest).len() > 0,
        coalesce_from(pattern, acc, rest)[0] == acc || (coalesce_from(pattern, acc, rest)[0].len()
            > 0 && coalesce_from(pattern, acc, rest)[0][0] != '('),
    decreases rest.len(),
{
    if rest.len() == 0 {
    } else if mergeable(pattern_accepts(pattern, acc), acc, rest[0]) {
        let next = merged(acc, rest[0]);
        lemma_coalesce_head(pattern, next, rest.drop_first());
        if acc.len() > 0 {
            assert(acc.contains(acc[0]));
            assert(next[0] == acc[0]);
        } else {
            assert(next[0] == ' ');
        }
    } else {
    }
}

/// After one pass no line continues the line before it.
pub proof fn lemma_coalesce_settled(pattern: Seq<char>, acc: Seq<char>, rest: Seq<Seq<char>>)
    ensures
        settled(pattern, coalesce_from(pattern, acc, rest)),
    decreases rest.len(),
{
    if rest.len() == 0 {
    } else if mergeable(pattern_accepts(pattern, acc), acc, rest[0]) {
        lemma_coalesce_settled(pattern, merged(acc, rest[0]), rest.drop_first());
    } else {
        let tail = coalesce_from(pattern, rest[0], rest.drop_first());
        let out = seq![acc] + tail;
        lemma_coalesce_settled(pattern, rest[0], rest.drop_first());
        lemma_coalesce_head(pattern, rest[0], rest.drop_first());
        assert forall|i: int| 0 <= i < out.len() - 1 implies !mergeable(
            pattern_accepts(pattern, #[trigger] out[i]),
            out[i],
            out[i + 1],
        ) by {
            if i == 0 {
                assert(out[0] == acc);
                assert(out[1] == tail[0]);
            } else {
                assert(out[i] == tail[i - 1]);
                assert(out[i + 1] == tail[i]);
            }
        }
    }
}

/// A pass over lines of which none continues the line before it changes
/// nothing.
pub proof fn lemma_settled_fixed(pattern: Seq<char>, acc: Seq<char>, rest: Seq<Seq<char>>)
    requires
        settled(pattern, seq![acc] + rest),
    ensures
        coalesce_from(pattern, acc, rest) == seq![acc] + rest,
    decreases rest.len(),
{
    let all = seq![acc] + rest;
    if rest.len() > 0 {
        assert(all[0] == acc);
        assert(all[1] == rest[0]);
        let tail = rest.drop_first();
        assert forall|i: int| 0 <= i < rest.len() - 1 implies !mergeable(
            pattern_accepts(pattern, #[trigger] rest[i]),
            rest[i],
            rest[i + 1],
        ) by {
            assert(all[i + 1] == rest[i]);
            assert(all[i + 2] == rest[i + 1]);
        }
        assert(seq![rest[0]] + tail =~= rest);
        lemma_settled_fixed(pattern, rest[0], tail);
    }
}

/// Coalescing is idempotent: a second pass over the lines that a first pass
/// gives back changes nothing.
pub proof fn lemma_coalesce_idempotent(pattern: Seq<char>, lines: Seq<Seq<char>>)
    ensures
        coalesced(pattern, coalesced(pattern, lines)) == coalesced(pattern, lines),
{
    if lines.len() > 0 {
        let out = coalesce_from(pattern, lines[0], lines.drop_first());
        lemma_coalesce_head(pattern, lines[0], lines.drop_first());
        lemma_coalesce_settled(pattern, lines[0], lines.drop_first());
        assert(seq![out[0]] + out.drop_first() =~= out);
        lemma_settled_fixed(pattern, out[0], out.drop_first());
    }
}

} // verus!
