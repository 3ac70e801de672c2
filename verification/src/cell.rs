//! Count cells: the pattern that tells a data cell from a name fragment, and
//! the numbers that a cell holds.

use crate::error::TableError;
use crate::error::TableErrorView;
use crate::text::all_space;
use crate::text::chars_of;
use crate::text::decimal_value;
use crate::text::is_digit;
use crate::text::is_numeral;
use crate::text::is_space;
use crate::text::lemma_trim_padded;
use crate::text::has_char;
use crate::text::numeral_u32;
use crate::text::parse_numeral;
use crate::text::slice_of;
use crate::text::string_of;
use crate::text::trim;
use crate::text::trim_chars;
use vstd::prelude::*;
use vstd::string::StringExecFns;

verus! {

/// `regex::Regex`, a compiled regular expression. Nothing inside it is read.
#[verifier::external_type_specification]
#[verifier::external_body]
pub struct ExRegex(regex::Regex);

/// `regex::Error`, the reason for which a pattern was rejected. It is not read.
#[verifier::external_type_specification]
#[verifier::external_body]
pub struct ExRegexError(regex::Error);

/// Whether the compiled expression `re` finds a match somewhere in `text`.
pub uninterp spec fn regex_accepts(re: regex::Regex, text: Seq<char>) -> bool;

/// Whether the expression written as `pattern` finds a match somewhere in
/// `text`.
pub uninterp spec fn pattern_accepts(pattern: Seq<char>, text: Seq<char>) -> bool;

/// Whether `regex::Regex::new` accepts the expression written as `pattern`.
pub uninterp spec fn pattern_compiles(pattern: Seq<char>) -> bool;

/// `regex::Regex::new` compiles a pattern with the default options and
/// limits, or rejects it with an error. Whether it accepts a pattern, and what
/// the compiled expression then matches, depends on the text of the pattern
/// alone. Nothing is claimed of which patterns are accepted.
pub assume_specification[ regex::Regex::new ](re: &str) -> (r: Result<regex::Regex, regex::Error>)
    ensures
        r is Ok <==> pattern_compiles(re@),
        r matches Ok(compiled) ==> forall|text: Seq<char>| #[trigger]
            regex_accepts(compiled, text) == pattern_accepts(re@, text),
;

/// `regex::Regex::is_match` tells whether the expression matches anywhere in
/// the haystack. Its verdict depends on the expression and the haystack alone.
pub assume_specification[ regex::Regex::is_match ](re: &regex::Regex, haystack: &str) -> (b: bool)
    ensures
        b == regex_accepts(*re, haystack@),
;

/// The pattern of a count cell: a whole line made of a number, or of a number
/// followed by a second number in parentheses, white space allowed around each.
pub const COUNT_CELL_PATTERN: &'static str = r"^\s*\d+(\s+\(\s*\d+\s*\))?\s*$";

/// A compiled pattern that decides which lines are count cells.
pub struct CellPattern {
    source: String,
    re: regex::Regex,
}

impl CellPattern {
    #[verifier::type_invariant]
    spec fn matches_as_written(&self) -> bool {
        forall|text: Seq<char>| #[trigger]
            regex_accepts(self.re, text) == pattern_accepts(self.source@, text)
    }

    /// The text of the pattern.
    pub closed spec fn source(&self) -> Seq<char> {
        self.source@
    }

    /// Whether the pattern takes `line` for a count cell.
    pub open spec fn accepts(&self, line: Seq<char>) -> bool {
        pattern_accepts(self.source(), line)
    }

    /// Compiles `pattern`: the pattern with that text, where the expression
    /// is accepted; `None`, where it is rejected.
    pub fn compile(pattern: &str) -> (r: Option<CellPattern>)
        ensures
            r is Some <==> pattern_compiles(pattern@),
            r matches Some(p) ==> p.source() == pattern@,
    {
        CellPattern::from_compiled(
            pattern,
            regex::Regex::new(pattern),
        )
    }

    /// Compiles the count-cell pattern of the report: the pattern with the
    /// text `COUNT_CELL_PATTERN`, where that expression is accepted.
    pub fn standard() -> (r: Option<CellPattern>)
        ensures
            r is Some <==> pattern_compiles(COUNT_CELL_PATTERN@),
            r matches Some(p) ==> p.source() == COUNT_CELL_PATTERN@,
    {
        CellPattern::compile(COUNT_CELL_PATTERN)
    }

    /// The text of the pattern.
    pub fn source_text(&self) -> (s: &str)
        ensures
            s@ == self.source(),
    {
        self.source.as_str()
    }

    /// Whether `line` is a count cell.
    pub fn is_cell(&self, line: &str) -> (b: bool)
        ensures
            b == self.accepts(line@),
    {
        proof {
            use_type_invariant(self);
        }
        self.re.is_match(line)
    }

    /// What becomes of the outcome of compiling `pattern`: the pattern with
    /// its text, where the expression was accepted; `None`, where it was
    /// rejected.
    pub fn from_compiled(pattern: &str, compiled: Result<regex::Regex, regex::Error>) -> (r: Option<
        CellPattern,
    >)
        requires
            compiled matches Ok(re) ==> forall|text: Seq<char>| #[trigger]
                regex_accepts(re, text) == pattern_accepts(pattern@, text),
        ensures
            r is Some <==> compiled is Ok,
            r matches Some(p) ==> p.source() == pattern@,
    {
        match compiled {
            Ok(re) => Some(CellPattern { source: String::from_str(pattern), re }),
            Err(_) => None,
        }
    }
}

/// One cell of a table row: a single total, or the pair written as
/// `today (total)`, the number outside the parentheses first.
#[derive(Debug, Clone, Copy, PartialEq, Eq, Structural)]
pub enum CountGroup {
    Single(u32),
    Pair(u32, u32),
}

impl View for CountGroup {
    type V = Seq<u32>;

    /// The numbers of the cell, in the order in which they were written.
    open spec fn view(&self) -> Seq<u32> {
        match *self {
            CountGroup::Single(a) => seq![a],
            CountGroup::Pair(a, b) => seq![a, b],
        }
    }
}

impl CountGroup {
    /// How many numbers the cell holds: one or two.
    pub fn len(&self) -> (n: usize)
        ensures
            n == self@.len(),
            n == 1 || n == 2,
    {
        match self {
            CountGroup::Single(_) => 1,
            CountGroup::Pair(_, _) => 2,
        }
    }

    /// The number at position `i`, if the cell has one there.
    pub fn get(&self, i: usize) -> (r: Option<u32>)
        ensures
            r == if i < self@.len() {
                Some(self@[i as int])
            } else {
                None
            },
    {
        match self {
            CountGroup::Single(a) => if i == 0 {
                Some(*a)
            } else {
                None
            },
            CountGroup::Pair(a, b) => if i == 0 {
                Some(*a)
            } else if i == 1 {
                Some(*b)
            } else {
                None
            },
        }
    }

    /// The first number of the cell.
    pub fn first(&self) -> (n: u32)
        ensures
            n == self@[0],
    {
        match self {
            CountGroup::Single(a) => *a,
            CountGroup::Pair(a, _) => *a,
        }
    }

    /// The numbers of the cell as a vector.
    pub fn to_vec(&self) -> (v: Vec<u32>)
        ensures
            v@ == self@,
    {
        let mut v: Vec<u32> = Vec::new();
        match self {
            CountGroup::Single(a) => {
                v.push(*a);
            },
            CountGroup::Pair(a, b) => {
                v.push(*a);
                v.push(*b);
            },
        }
        assert(v@ =~= self@);
        v
    }
}

/// Whether `c` is one of the two parentheses.
pub open spec fn is_paren(c: char) -> bool {
    c == '(' || c == ')'
}

/// The first position at or after `i` that holds a parenthesis; the length of
/// `s` where there is none.
pub open spec fn field_end(s: Seq<char>, i: int) -> int
    decreases s.len() - i,
{
    if i < 0 || i >= s.len() {
        s.len() as int
    } else if is_paren(s[i]) {
        i
    } else {
        field_end(s, i + 1)
    }
}

/// What stands before the first parenthesis of `s`.
pub open spec fn first_field(s: Seq<char>) -> Seq<char> {
    s.subrange(0, field_end(s, 0))
}

/// What stands between the first parenthesis of `s` and the next one.
pub open spec fn second_field(s: Seq<char>) -> Seq<char> {
    let a = field_end(s, 0);
    if a < s.len() {
        s.subrange(a + 1, field_end(s, a + 1))
    } else {
        Seq::empty()
    }
}

/// The numbers that `line` holds, or the part of it that is no number.
///
/// A line with an opening parenthesis is cut at its parentheses, and its first
/// two parts are read as `Pair`; any other line is read whole, as `Single`.
/// White space around a number is ignored.
pub open spec fn count_group_of(line: Seq<char>) -> Result<CountGroup, TableErrorView> {
    if line.contains('(') {
        match numeral_u32(trim(first_field(line))) {
            None => Err(TableErrorView::BadCount { text: first_field(line) }),
            Some(a) => match numeral_u32(trim(second_field(line))) {
                None => Err(TableErrorView::BadCount { text: second_field(line) }),
                Some(b) => Ok(CountGroup::Pair(a, b)),
            },
        }
    } else {
        match numeral_u32(trim(line)) {
            None => Err(TableErrorView::BadCount { text: line }),
            Some(a) => Ok(CountGroup::Single(a)),
        }
    }
}

/// A parsed cell, with the error seen through its view.
pub open spec fn cell_view(r: Result<CountGroup, TableError>) -> Result<
    CountGroup,
    TableErrorView,
> {
    match r {
        Ok(g) => Ok(g),
        Err(e) => Err(e@),
    }
}

/// `field_end` finds the first parenthesis at or after `i`.
pub proof fn lemma_field_end(s: Seq<char>, i: int)
    requires
        0 <= i <= s.len(),
    ensures
        i <= field_end(s, i) <= s.len(),
        field_end(s, i) < s.len() ==> is_paren(s[field_end(s, i)]),
        forall|j: int| i <= j < field_end(s, i) ==> !is_paren(#[trigger] s[j]),
    decreases s.len() - i,
{
    if i < s.len() && !is_paren(s[i]) {
        lemma_field_end(s, i + 1);
    }
}

fn find_paren(s: &Vec<char>, i: usize) -> (r: usize)
    requires
        i <= s.len(),
    ensures
        r == field_end(s@, i as int),
        i <= r <= s.len(),
{
    let mut k: usize = i;
    while k < s.len() && s[k] != '(' && s[k] != ')'
        invariant
            i <= k <= s.len(),
            field_end(s@, k as int) == field_end(s@, i as int),
        decreases s.len() - k,
    {
        k += 1;
    }
    k
}

fn read_field(field: &Vec<char>) -> (r: Result<u32, TableError>)
    ensures
        match r {
            Ok(n) => numeral_u32(trim(field@)) == Some(n),
            Err(e) => numeral_u32(trim(field@)).is_none() && e@ == (TableErrorView::BadCount {
                text: field@,
            }),
        },
{
    let t = trim_chars(field);
    match parse_numeral(&t) {
        Some(n) => Ok(n),
        None => Err(TableError::BadCount { text: string_of(field) }),
    }
}

/// Reads the numbers of a count cell.
///
/// Fails with `BadCount`, naming the part that is no number, exactly where
/// `count_group_of` does.
pub fn parse_count_group(line: &str) -> (r: Result<CountGroup, TableError>)
    ensures
        cell_view(r) == count_group_of(line@),
{
    let s = chars_of(line);
    if has_char(&s, '(') {
        let a = find_paren(&s, 0);
        proof {
            lemma_field_end(s@, 0);
        }
        let b = find_paren(&s, a + 1);
        let f1 = slice_of(&s, 0, a);
        let f2 = slice_of(&s, a + 1, b);
        match read_field(&f1) {
            Err(e) => Err(e),
            Ok(n) => match read_field(&f2) {
                Err(e) => Err(e),
                Ok(m) => Ok(CountGroup::Pair(n, m)),
            },
        }
    } else {
        match read_field(&s) {
            Err(e) => Err(e),
            Ok(n) => Ok(CountGroup::Single(n)),
        }
    }
}

/// `field_end` is the position of the first parenthesis.
pub proof fn lemma_field_end_at(s: Seq<char>, i: int, j: int)
    requires
        0 <= i <= j <= s.len(),
        forall|k: int| i <= k < j ==> !is_paren(#[trigger] s[k]),
        j == s.len() || is_paren(s[j]),
    ensures
        field_end(s, i) == j,
    decreases j - i,
{
    if i < j {
        lemma_field_end_at(s, i + 1, j);
    }
}

/// A line made of a numeral of 32 bits, with white space around it at most,
/// is read as a single count: the number that the numeral writes.
pub proof fn lemma_bare_integer(lead: Seq<char>, digits: Seq<char>, trail: Seq<char>)
    requires
        all_space(lead),
        all_space(trail),
        is_numeral(digits),
        decimal_value(digits) <= u32::MAX,
    ensures
        count_group_of(lead + digits + trail) == Ok::<CountGroup, TableErrorView>(
            CountGroup::Single(decimal_value(digits) as u32),
        ),
{
    let line = lead + digits + trail;
    assert forall|i: int| 0 <= i < line.len() implies line[i] != '(' by {
        if i < lead.len() {
            assert(line[i] == lead[i]);
        } else if i < lead.len() + digits.len() {
            assert(line[i] == digits[i - lead.len()]);
        } else {
            assert(line[i] == trail[i - lead.len() - digits.len()]);
        }
    }
    assert(is_digit(digits[0]) && is_digit(digits[digits.len() - 1]));
    lemma_trim_padded(lead, digits, trail);
}

/// The line that writes a pair: a numeral, and a second numeral in
/// parentheses, with the given white space around each.
pub open spec fn pair_line(
    lead: Seq<char>,
    first: Seq<char>,
    gap: Seq<char>,
    inner_lead: Seq<char>,
    second: Seq<char>,
    inner_trail: Seq<char>,
    trail: Seq<char>,
) -> Seq<char> {
    lead + first + gap + seq!['('] + inner_lead + second + inner_trail + seq![')'] + trail
}

/// A line of the form `N (M)`, both numerals of 32 bits, is read as the
/// pair of `N` and `M`, in that order.
pub proof fn lemma_pair_integers(
    lead: Seq<char>,
    first: Seq<char>,
    gap: Seq<char>,
    inner_lead: Seq<char>,
    second: Seq<char>,
    inner_trail: Seq<char>,
    trail: Seq<char>,
)
    requires
        all_space(lead),
        all_space(gap),
        all_space(inner_lead),
        all_space(inner_trail),
        all_space(trail),
        is_numeral(first),
        is_numeral(second),
        decimal_value(first) <= u32::MAX,
        decimal_value(second) <= u32::MAX,
    ensures
        count_group_of(pair_line(lead, first, gap, inner_lead, second, inner_trail, trail)) == Ok::<
            CountGroup,
            TableErrorView,
        >(CountGroup::Pair(decimal_value(first) as u32, decimal_value(second) as u32)),
{
    let line = pair_line(lead, first, gap, inner_lead, second, inner_trail, trail);
    let outer = lead + first + gap;
    let inner = inner_lead + second + inner_trail;
    let a = outer.len() as int;
    let b = a + 1 + inner.len();
    assert(line =~= outer + seq!['('] + inner + seq![')'] + trail);
    assert forall|k: int| 0 <= k < outer.len() implies is_space(#[trigger] outer[k]) || is_digit(
        outer[k],
    ) by {
        if k < lead.len() {
            assert(outer[k] == lead[k]);
        } else if k < lead.len() + first.len() {
            assert(outer[k] == first[k - lead.len()]);
        } else {
            assert(outer[k] == gap[k - lead.len() - first.len()]);
        }
    }
    assert forall|k: int| 0 <= k < inner.len() implies is_space(#[trigger] inner[k]) || is_digit(
        inner[k],
    ) by {
        if k < inner_lead.len() {
            assert(inner[k] == inner_lead[k]);
        } else if k < inner_lead.len() + second.len() {
            assert(inner[k] == second[k - inner_lead.len()]);
        } else {
            assert(inner[k] == inner_trail[k - inner_lead.len() - second.len()]);
        }
    }
    assert(line[a] == '(');
    assert(line[b] == ')');
    assert(line.contains('('));
    assert forall|k: int| 0 <= k < a implies !is_paren(#[trigger] line[k]) by {
        assert(line[k] == outer[k]);
    }
    lemma_field_end_at(line, 0, a);
    assert forall|k: int| a + 1 <= k < b implies !is_paren(#[trigger] line[k]) by {
        assert(line[k] == inner[k - a - 1]);
    }
    lemma_field_end_at(line, a + 1, b);
    assert(first_field(line) =~= outer);
    assert(second_field(line) =~= inner);
    assert(is_digit(first[0]) && is_digit(first[first.len() - 1]));
    assert(is_digit(second[0]) && is_digit(second[second.len() - 1]));
    lemma_trim_padded(lead, first, gap);
    lemma_trim_padded(inner_lead, second, inner_trail);
}

} // verus!
