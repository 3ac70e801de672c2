//! The fixed texts of the report's layout, as named configuration data.
//!
//! A change of the report's format is a change of a `Layout` value: the
//! markers that bound the table, the labels that are no entities, and the
//! table of repairs for names that the text extraction breaks.

use crate::text::texts;
use vstd::prelude::*;
use vstd::string::StringExecFns;

verus! {

/// One repair of a name: every occurrence of `find` becomes `replace`.
#[derive(Debug, Clone)]
pub struct Repair {
    pub find: String,
    pub replace: String,
}

/// The texts that the extraction goes by.
#[derive(Debug, Clone)]
pub struct Layout {
    /// The line that opens the table; it is the first row's name.
    pub start_marker: String,
    /// The line at which the table is over.
    pub end_marker: String,
    /// The header of the name column.
    pub name_header: String,
    /// A name fragment that holds one of these is dropped.
    pub noise_markers: Vec<String>,
    /// The footnote sign that may end a name: one character, in the reports
    /// the section sign.
    pub footnote_marker: char,
    /// The repairs, applied to a name in this order.
    pub repairs: Vec<Repair>,
    /// Names of rows that sum up other rows.
    pub summary_labels: Vec<String>,
    /// The country whose row ends the regions and opens the countries.
    pub designated_country: String,
    /// A row with fewer count groups than this is no entity.
    pub min_groups: usize,
}

/// A `Layout` with its texts as character sequences.
pub struct LayoutView {
    pub start_marker: Seq<char>,
    pub end_marker: Seq<char>,
    pub name_header: Seq<char>,
    pub noise_markers: Seq<Seq<char>>,
    pub footnote_marker: char,
    pub repairs: Seq<(Seq<char>, Seq<char>)>,
    pub summary_labels: Seq<Seq<char>>,
    pub designated_country: Seq<char>,
    pub min_groups: nat,
}

/// The repairs as pairs of character sequences.
pub open spec fn repair_pairs(repairs: Seq<Repair>) -> Seq<(Seq<char>, Seq<char>)> {
    Seq::new(repairs.len(), |i: int| (repairs[i].find@, repairs[i].replace@))
}

impl View for Layout {
    type V = LayoutView;

    open spec fn view(&self) -> LayoutView {
        LayoutView {
            start_marker: self.start_marker@,
            end_marker: self.end_marker@,
            name_header: self.name_header@,
            noise_markers: texts(self.noise_markers@),
            footnote_marker: self.footnote_marker,
            repairs: repair_pairs(self.repairs@),
            summary_labels: texts(self.summary_labels@),
            designated_country: self.designated_country@,
            min_groups: self.min_groups as nat,
        }
    }
}

/// The layout of the situation reports.
pub open spec fn standard_layout() -> LayoutView {
    LayoutView {
        start_marker: "Hubei"@,
        end_marker: "Case classifications are"@,
        name_header: "Country/Territory/Area"@,
        noise_markers: seq!["Region"@, " - "@, "Unimplemented?"@],
        footnote_marker: '\u{a7}',
        repairs: seq![
            ("Total"@, "China"@),
            ("Uni ted"@, "United"@),
            ("Finlan d"@, "Finland"@),
            ("Jian gsu"@, "Jiangsu"@),
            ("South - "@, ""@),
        ],
        summary_labels: seq!["Subtotal for all regions"@, "Grand total"@],
        designated_country: "China"@,
        min_groups: 6,
    }
}

fn repair(find: &str, replace: &str) -> (r: Repair)
    ensures
        r.find@ == find@,
        r.replace@ == replace@,
{
    Repair { find: String::from_str(find), replace: String::from_str(replace) }
}

impl Layout {
    /// The layout of the situation reports.
    pub fn standard() -> (l: Layout)
        ensures
            l@ == standard_layout(),
    {
        let mut noise_markers: Vec<String> = Vec::new();
        noise_markers.push(String::from_str("Region"));
        noise_markers.push(String::from_str(" - "));
        noise_markers.push(String::from_str("Unimplemented?"));
        let mut repairs: Vec<Repair> = Vec::new();
        repairs.push(repair("Total", "China"));
        repairs.push(repair("Uni ted", "United"));
        repairs.push(repair("Finlan d", "Finland"));
        repairs.push(repair("Jian gsu", "Jiangsu"));
        repairs.push(repair("South - ", ""));
        let mut summary_labels: Vec<String> = Vec::new();
        summary_labels.push(String::from_str("Subtotal for all regions"));
        summary_labels.push(String::from_str("Grand total"));
        let l = Layout {
            start_marker: String::from_str("Hubei"),
            end_marker: String::from_str("Case classifications are"),
            name_header: String::from_str("Country/Territory/Area"),
            noise_markers,
            footnote_marker: '\u{a7}',
            repairs,
            summary_labels,
            designated_country: String::from_str("China"),
            min_groups: 6,
        };
        proof {
            assert(l@.noise_markers =~= standard_layout().noise_markers);
            assert(l@.repairs =~= standard_layout().repairs);
            assert(l@.summary_labels =~= standard_layout().summary_labels);
        }
        l
    }
}

} // verus!
