//! The two output schemas, and the mapping of records onto them.

use crate::batch::record_views;
use crate::batch::Record;
use crate::batch::RecordView;
use crate::cell::CountGroup;
use crate::error::TableError;
use crate::error::TableErrorView;
use crate::layout::Layout;
use crate::layout::LayoutView;
use vstd::prelude::*;

verus! {

/// The number of count groups that a row is mapped from.
pub const ROW_GROUPS: usize = 6;

/// A region of the designated country.
#[derive(Debug, Clone, PartialEq, Eq)]
pub struct RegionOutput {
    pub name: String,
    pub population: u32,
    pub today_confirmed: u32,
    pub today_suspected: u32,
    pub today_deaths: u32,
    pub total_confirmed: u32,
    pub total_deaths: u32,
}

/// A country, territory or area. The designated country has `today_suspected`
/// and `regions`, and no exposure; every other one has the exposures, and
/// neither `today_suspected` nor `regions`.
#[derive(Debug, Clone, PartialEq, Eq)]
pub struct CountryOutput {
    pub name: String,
    pub today_confirmed: u32,
    pub today_suspected: Option<u32>,
    pub total_confirmed: u32,
    pub today_likely_exposure_china: Option<u32>,
    pub total_likely_exposure_china: Option<u32>,
    pub today_likely_exposure_in_country: Option<u32>,
    pub total_likely_exposure_in_country: Option<u32>,
    pub today_likely_exposure_other: Option<u32>,
    pub total_likely_exposure_other: Option<u32>,
    pub today_likely_exposure_unknown: Option<u32>,
    pub total_likely_exposure_unknown: Option<u32>,
    pub today_deaths: u32,
    pub total_deaths: u32,
    pub regions: Option<Vec<RegionOutput>>,
}

/// A `RegionOutput` with its name as a character sequence.
pub struct RegionView {
    pub name: Seq<char>,
    pub population: u32,
    pub today_confirmed: u32,
    pub today_suspected: u32,
    pub today_deaths: u32,
    pub total_confirmed: u32,
    pub total_deaths: u32,
}

/// A `CountryOutput` with its texts as character sequences.
pub struct CountryView {
    pub name: Seq<char>,
    pub today_confirmed: u32,
    pub today_suspected: Option<u32>,
    pub total_confirmed: u32,
    pub today_likely_exposure_china: Option<u32>,
    pub total_likely_exposure_china: Option<u32>,
    pub today_likely_exposure_in_country: Option<u32>,
    pub total_likely_exposure_in_country: Option<u32>,
    pub today_likely_exposure_other: Option<u32>,
    pub total_likely_exposure_other: Option<u32>,
    pub today_likely_exposure_unknown: Option<u32>,
    pub total_likely_exposure_unknown: Option<u32>,
    pub today_deaths: u32,
    pub total_deaths: u32,
    pub regions: Option<Seq<RegionView>>,
}

impl View for RegionOutput {
    type V = RegionView;

    open spec fn view(&self) -> RegionView {
        RegionView {
            name: self.name@,
            population: self.population,
            today_confirmed: self.today_confirmed,
            today_suspected: self.today_suspected,
            today_deaths: self.today_deaths,
            total_confirmed: self.total_confirmed,
            total_deaths: self.total_deaths,
        }
    }
}

/// The views of a sequence of regions.
pub open spec fn region_views(regions: Seq<RegionOutput>) -> Seq<RegionView> {
    Seq::new(regions.len(), |i: int| regions[i]@)
}

impl View for CountryOutput {
    type V = CountryView;

    open spec fn view(&self) -> CountryView {
        CountryView {
            name: self.name@,
            today_confirmed: self.today_confirmed,
            today_suspected: self.today_suspected,
            total_confirmed: self.total_confirmed,
            today_likely_exposure_china: self.today_likely_exposure_china,
            total_likely_exposure_china: self.total_likely_exposure_china,
            today_likely_exposure_in_country: self.today_likely_exposure_in_country,
            total_likely_exposure_in_country: self.total_likely_exposure_in_country,
            today_likely_exposure_other: self.today_likely_exposure_other,
            total_likely_exposure_other: self.total_likely_exposure_other,
            today_likely_exposure_unknown: self.today_likely_exposure_unknown,
            total_likely_exposure_unknown: self.total_likely_exposure_unknown,
            today_deaths: self.today_deaths,
            total_deaths: self.total_deaths,
            regions: match self.regions {
                Some(v) => Some(region_views(v@)),
                None => None,
            },
        }
    }
}

/// The views of a sequence of countries.
pub open spec fn country_views(countries: Seq<CountryOutput>) -> Seq<CountryView> {
    Seq::new(countries.len(), |i: int| countries[i]@)
}

/// The views of a sequence of regions grow with the sequence.
pub proof fn lemma_region_views_push(regions: Seq<RegionOutput>, r: RegionOutput)
    ensures
        region_views(regions.push(r)) == region_views(regions).push(r@),
        region_views(regions).len() == regions.len(),
{
    assert(region_views(regions.push(r)) =~= region_views(regions).push(r@));
}

/// The views of a sequence of countries grow with the sequence.
pub proof fn lemma_country_views_push(countries: Seq<CountryOutput>, c: CountryOutput)
    ensures
        country_views(countries.push(c)) == country_views(countries).push(c@),
        country_views(countries).len() == countries.len(),
{
    assert(country_views(countries.push(c)) =~= country_views(countries).push(c@));
}

/// Whether a group has the shape that a mapping asks for: two numbers where
/// `pairs` holds, one where it does not.
pub open spec fn shape_ok(group: CountGroup, pairs: bool) -> bool {
    if pairs {
        group is Pair
    } else {
        group is Single
    }
}

/// The first of the six groups, from `k` on, that is missing or has the
/// wrong shape; 6 where there is none.
pub open spec fn first_misfit(counts: Seq<CountGroup>, pairs: bool, k: int) -> int
    decreases ROW_GROUPS - k,
{
    if k < 0 || k >= ROW_GROUPS {
        ROW_GROUPS as int
    } else if k >= counts.len() || !shape_ok(counts[k], pairs) {
        k
    } else {
        first_misfit(counts, pairs, k + 1)
    }
}

/// `first_misfit` names a group that does not fit, and every group before it fits.
pub proof fn lemma_first_misfit(counts: Seq<CountGroup>, pairs: bool, k: int)
    requires
        0 <= k <= ROW_GROUPS,
    ensures
        k <= first_misfit(counts, pairs, k) <= ROW_GROUPS,
        first_misfit(counts, pairs, k) == k || first_misfit(counts, pairs, k) <= counts.len(),
        forall|j: int|
            k <= j < first_misfit(counts, pairs, k) ==> shape_ok(#[trigger] counts[j], pairs),
        first_misfit(counts, pairs, k) < ROW_GROUPS ==> first_misfit(counts, pairs, k)
            >= counts.len() || !shape_ok(counts[first_misfit(counts, pairs, k)], pairs),
    decreases ROW_GROUPS - k,
{
    if k < ROW_GROUPS && k < counts.len() && shape_ok(counts[k], pairs) {
        lemma_first_misfit(counts, pairs, k + 1);
    }
}

/// The region that a record stands for: its six groups, one number each, in
/// the order population, confirmed today, suspected today, deaths today,
/// confirmed in total, deaths in total.
pub open spec fn region_of(record: RecordView) -> Result<RegionView, TableErrorView> {
    let m = first_misfit(record.counts, false, 0);
    if m < ROW_GROUPS {
        Err(TableErrorView::ShapeMismatch { record: record.name, group: m as nat })
    } else {
        Ok(
            RegionView {
                name: record.name,
                population: record.counts[0]@[0],
                today_confirmed: record.counts[1]@[0],
                today_suspected: record.counts[2]@[0],
                today_deaths: record.counts[3]@[0],
                total_confirmed: record.counts[4]@[0],
                total_deaths: record.counts[5]@[0],
            },
        )
    }
}

/// The country that a record stands for, where it is not the designated one:
/// its six groups, two numbers each, the total first and today's number
/// second, in the order confirmed, exposure in China, exposure elsewhere,
/// exposure in the country, exposure unknown, deaths.
pub open spec fn country_of(record: RecordView) -> Result<CountryView, TableErrorView> {
    let m = first_misfit(record.counts, true, 0);
    if m < ROW_GROUPS {
        Err(TableErrorView::ShapeMismatch { record: record.name, group: m as nat })
    } else {
        Ok(
            CountryView {
                name: record.name,
                today_confirmed: record.counts[0]@[1],
                today_suspected: None,
                total_confirmed: record.counts[0]@[0],
                today_likely_exposure_china: Some(record.counts[1]@[1]),
                total_likely_exposure_china: Some(record.counts[1]@[0]),
                today_likely_exposure_in_country: Some(record.counts[3]@[1]),
                total_likely_exposure_in_country: Some(record.counts[3]@[0]),
                today_likely_exposure_other: Some(record.counts[2]@[1]),
                total_likely_exposure_other: Some(record.counts[2]@[0]),
                today_likely_exposure_unknown: Some(record.counts[4]@[1]),
                total_likely_exposure_unknown: Some(record.counts[4]@[0]),
                today_deaths: record.counts[5]@[1],
                total_deaths: record.counts[5]@[0],
                regions: None,
            },
        )
    }
}

/// The designated country: the first number of each of its groups 1 to 5, in
/// the order of a region's row, with the regions nested in it and no exposure.
/// Its group 0 is not read.
pub open spec fn designated_of(record: RecordView, regions: Seq<RegionView>) -> Result<
    CountryView,
    TableErrorView,
> {
    if record.counts.len() < ROW_GROUPS {
        Err(TableErrorView::ShapeMismatch { record: record.name, group: record.counts.len() })
    } else {
        Ok(
            CountryView {
                name: record.name,
                today_confirmed: record.counts[1]@[0],
                today_suspected: Some(record.counts[2]@[0]),
                total_confirmed: record.counts[4]@[0],
                today_likely_exposure_china: None,
                total_likely_exposure_china: None,
                today_likely_exposure_in_country: None,
                total_likely_exposure_in_country: None,
                today_likely_exposure_other: None,
                total_likely_exposure_other: None,
                today_likely_exposure_unknown: None,
                total_likely_exposure_unknown: None,
                today_deaths: record.counts[3]@[0],
                total_deaths: record.counts[5]@[0],
                regions: Some(regions),
            },
        )
    }
}

/// The position of the first record named `country`; the number of records
/// where there is none.
pub open spec fn partition_point(records: Seq<RecordView>, country: Seq<char>) -> int
    decreases records.len(),
{
    if records.len() == 0 {
        0
    } else if records[0].name == country {
        0
    } else {
        1 + partition_point(records.drop_first(), country)
    }
}

/// The regions that the records stand for, or the first error among them.
pub open spec fn regions_of(records: Seq<RecordView>) -> Result<Seq<RegionView>, TableErrorView>
    decreases records.len(),
{
    if records.len() == 0 {
        Ok(Seq::empty())
    } else {
        match regions_of(records.drop_last()) {
            Err(e) => Err(e),
            Ok(regions) => match region_of(records.last()) {
                Err(e) => Err(e),
                Ok(region) => Ok(regions.push(region)),
            },
        }
    }
}

/// The country that one record of the country table stands for.
pub open spec fn entry_of(
    record: RecordView,
    country: Seq<char>,
    regions: Seq<RegionView>,
) -> Result<CountryView, TableErrorView> {
    if record.name == country {
        designated_of(record, regions)
    } else {
        country_of(record)
    }
}

/// The countries that the records stand for, or the first error among them.
pub open spec fn countries_of(
    records: Seq<RecordView>,
    country: Seq<char>,
    regions: Seq<RegionView>,
) -> Result<Seq<CountryView>, TableErrorView>
    decreases records.len(),
{
    if records.len() == 0 {
        Ok(Seq::empty())
    } else {
        match countries_of(records.drop_last(), country, regions) {
            Err(e) => Err(e),
            Ok(countries) => match entry_of(records.last(), country, regions) {
                Err(e) => Err(e),
                Ok(c) => Ok(countries.push(c)),
            },
        }
    }
}

/// The output of the table: the records before the first one named as the
/// designated country are its regions; that record and all behind it are the
/// countries.
pub open spec fn mapped(records: Seq<RecordView>, layout: LayoutView) -> Result<
    Seq<CountryView>,
    TableErrorView,
> {
    let p = partition_point(records, layout.designated_country);
    match regions_of(records.take(p)) {
        Err(e) => Err(e),
        Ok(regions) => countries_of(records.skip(p), layout.designated_country, regions),
    }
}

/// A result of countries, seen through their views.
pub open spec fn output_view(r: Result<Vec<CountryOutput>, TableError>) -> Result<
    Seq<CountryView>,
    TableErrorView,
> {
    match r {
        Ok(v) => Ok(country_views(v@)),
        Err(e) => Err(e@),
    }
}

/// A mapped region, with the error seen through its view.
pub open spec fn region_result(r: Result<RegionOutput, TableError>) -> Result<
    RegionView,
    TableErrorView,
> {
    match r {
        Ok(region) => Ok(region@),
        Err(e) => Err(e@),
    }
}

/// A mapped country, with the error seen through its view.
pub open spec fn country_result(r: Result<CountryOutput, TableError>) -> Result<
    CountryView,
    TableErrorView,
> {
    match r {
        Ok(country) => Ok(country@),
        Err(e) => Err(e@),
    }
}

fn misfit(counts: &Vec<CountGroup>, pairs: bool) -> (m: usize)
    ensures
        m == first_misfit(counts@, pairs, 0),
        m <= ROW_GROUPS,
{
    let mut k: usize = 0;
    while k < ROW_GROUPS
        invariant
            k <= ROW_GROUPS,
            first_misfit(counts@, pairs, k as int) == first_misfit(counts@, pairs, 0),
        decreases ROW_GROUPS - k,
    {
        if k >= counts.len() {
            return k;
        }
        let fits = match counts[k] {
            CountGroup::Single(_) => !pairs,
            CountGroup::Pair(_, _) => pairs,
        };
        if !fits {
            return k;
        }
        k += 1;
    }
    k
}

fn second(group: &CountGroup) -> (n: u32)
    requires
        group is Pair,
    ensures
        n == group@[1],
{
    match group {
        CountGroup::Pair(_, b) => *b,
        CountGroup::Single(a) => *a,
    }
}

/// Maps a record to a region.
///
/// Fails with `ShapeMismatch` exactly where one of the six groups is missing
/// or holds two numbers, and names the first such group.
pub fn map_region(record: &Record) -> (r: Result<RegionOutput, TableError>)
    ensures
        region_result(r) == region_of(record@),
{
    let m = misfit(&record.counts, false);
    proof {
        lemma_first_misfit(record.counts@, false, 0);
    }
    if m < ROW_GROUPS {
        return Err(TableError::ShapeMismatch { record: record.name.clone(), group: m });
    }
    Ok(
        RegionOutput {
            name: record.name.clone(),
            population: record.counts[0].first(),
            today_confirmed: record.counts[1].first(),
            today_suspected: record.counts[2].first(),
            today_deaths: record.counts[3].first(),
            total_confirmed: record.counts[4].first(),
            total_deaths: record.counts[5].first(),
        },
    )
}

/// Maps a record to a country that is not the designated one.
///
/// Fails with `ShapeMismatch` exactly where one of the six groups is missing
/// or holds one number only, and names the first such group.
pub fn map_country(record: &Record) -> (r: Result<CountryOutput, TableError>)
    ensures
        country_result(r) == country_of(record@),
{
    let m = misfit(&record.counts, true);
    proof {
        lemma_first_misfit(record.counts@, true, 0);
    }
    if m < ROW_GROUPS {
        return Err(TableError::ShapeMismatch { record: record.name.clone(), group: m });
    }
    assert(shape_ok(record.counts@[0], true));
    assert(shape_ok(record.counts@[1], true));
    assert(shape_ok(record.counts@[2], true));
    assert(shape_ok(record.counts@[3], true));
    assert(shape_ok(record.counts@[4], true));
    assert(shape_ok(record.counts@[5], true));
    Ok(
        CountryOutput {
            name: record.name.clone(),
            today_confirmed: second(&record.counts[0]),
            today_suspected: None,
            total_confirmed: record.counts[0].first(),
            today_likely_exposure_china: Some(second(&record.counts[1])),
            total_likely_exposure_china: Some(record.counts[1].first()),
            today_likely_exposure_in_country: Some(second(&record.counts[3])),
            total_likely_exposure_in_country: Some(record.counts[3].first()),
            today_likely_exposure_other: Some(second(&record.counts[2])),
            total_likely_exposure_other: Some(record.counts[2].first()),
            today_likely_exposure_unknown: Some(second(&record.counts[4])),
            total_likely_exposure_unknown: Some(record.counts[4].first()),
            today_deaths: second(&record.counts[5]),
            total_deaths: record.counts[5].first(),
            regions: None,
        },
    )
}

fn copy_regions(regions: &Vec<RegionOutput>) -> (out: Vec<RegionOutput>)
    ensures
        region_views(out@) == region_views(regions@),
{
    let mut out: Vec<RegionOutput> = Vec::new();
    let mut k: usize = 0;
    while k < regions.len()
        invariant
            k <= regions.len(),
            region_views(out@) == region_views(regions@).take(k as int),
        decreases regions.len() - k,
    {
        let r = &regions[k];
        let copy = RegionOutput {
            name: r.name.clone(),
            population: r.population,
            today_confirmed: r.today_confirmed,
            today_suspected: r.today_suspected,
            today_deaths: r.today_deaths,
            total_confirmed: r.total_confirmed,
            total_deaths: r.total_deaths,
        };
        proof {
            lemma_region_views_push(out@, copy);
            assert(region_views(regions@).take(k as int).push(copy@) =~= region_views(
                regions@,
            ).take(k + 1));
        }
        out.push(copy);
        k += 1;
    }
    assert(region_views(regions@).take(regions@.len() as int) =~= region_views(regions@));
    out
}

/// Maps the record of the designated country, and nests `regions` in it.
///
/// Fails with `ShapeMismatch` exactly where the record has fewer than six
/// groups, and names the first that is missing.
pub fn map_designated(record: &Record, regions: &Vec<RegionOutput>) -> (r: Result<
    CountryOutput,
    TableError,
>)
    ensures
        country_result(r) == designated_of(record@, region_views(regions@)),
{
    if record.counts.len() < ROW_GROUPS {
        return Err(
            TableError::ShapeMismatch { record: record.name.clone(), group: record.counts.len() },
        );
    }
    Ok(
        CountryOutput {
            name: record.name.clone(),
            today_confirmed: record.counts[1].first(),
            today_suspected: Some(record.counts[2].first()),
            total_confirmed: record.counts[4].first(),
            today_likely_exposure_china: None,
            total_likely_exposure_china: None,
            today_likely_exposure_in_country: None,
            total_likely_exposure_in_country: None,
            today_likely_exposure_other: None,
            total_likely_exposure_other: None,
            today_likely_exposure_unknown: None,
            total_likely_exposure_unknown: None,
            today_deaths: record.counts[3].first(),
            total_deaths: record.counts[5].first(),
            regions: Some(copy_regions(regions)),
        },
    )
}

/// The partition point lies within the records; no record before it bears
/// the name, and the record at it does.
pub proof fn lemma_partition_point(records: Seq<RecordView>, country: Seq<char>)
    ensures
        0 <= partition_point(records, country) <= records.len(),
        forall|i: int|
            0 <= i < partition_point(records, country) ==> (#[trigger] records[i]).name != country,
        partition_point(records, country) < records.len() ==> records[partition_point(
            records,
            country,
        )].name == country,
    decreases records.len(),
{
    if records.len() > 0 && records[0].name != country {
        let tail = records.drop_first();
        lemma_partition_point(tail, country);
        assert forall|i: int| 0 <= i < partition_point(records, country) implies (
        #[trigger] records[i]).name != country by {
            if i > 0 {
                assert(tail[i - 1] == records[i]);
            }
        }
    }
}

/// Where the records part into regions and countries: the position of the
/// first record that bears the name of the designated country.
pub fn partition_index(records: &Vec<Record>, layout: &Layout) -> (p: usize)
    ensures
        p == partition_point(record_views(records@), layout@.designated_country),
        p <= records.len(),
{
    let ghost all = record_views(records@);
    let mut k: usize = 0;
    assert(all.skip(0) =~= all);
    while k < records.len() && !(records[k].name == layout.designated_country)
        invariant
            k <= records.len(),
            all == record_views(records@),
            partition_point(all, layout@.designated_country) == k + partition_point(
                all.skip(k as int),
                layout@.designated_country,
            ),
        decreases records.len() - k,
    {
        proof {
            let here = all.skip(k as int);
            assert(here[0] == records@[k as int]@);
            assert(here.drop_first() =~= all.skip(k + 1));
        }
        k += 1;
    }
    proof {
        if k < records.len() {
            assert(all.skip(k as int)[0] == records@[k as int]@);
        }
    }
    k
}

proof fn lemma_regions_prefix_error(records: Seq<RecordView>, m: int)
    requires
        0 <= m <= records.len(),
        regions_of(records.take(m)).is_err(),
    ensures
        regions_of(records) == regions_of(records.take(m)),
    decreases records.len() - m,
{
    if m == records.len() {
        assert(records.take(m) =~= records);
    } else {
        assert(records.take(m + 1).drop_last() =~= records.take(m));
        lemma_regions_prefix_error(records, m + 1);
    }
}

proof fn lemma_countries_prefix_error(
    records: Seq<RecordView>,
    country: Seq<char>,
    regions: Seq<RegionView>,
    m: int,
)
    requires
        0 <= m <= records.len(),
        countries_of(records.take(m), country, regions).is_err(),
    ensures
        countries_of(records, country, regions) == countries_of(records.take(m), country, regions),
    decreases records.len() - m,
{
    if m == records.len() {
        assert(records.take(m) =~= records);
    } else {
        assert(records.take(m + 1).drop_last() =~= records.take(m));
        lemma_countries_prefix_error(records, country, regions, m + 1);
    }
}

/// Maps the records onto the output: the regions nested in the designated
/// country, and the countries.
///
/// Fails with `ShapeMismatch` exactly where a record has a group that its
/// mapping cannot read, and names the first such record and group, the
/// regions before the countries.
pub fn map_records(records: &Vec<Record>, layout: &Layout) -> (r: Result<
    Vec<CountryOutput>,
    TableError,
>)
    ensures
        output_view(r) == mapped(record_views(records@), layout@),
{
    let ghost all = record_views(records@);
    let n = records.len();
    let p = partition_index(records, layout);
    let mut regions: Vec<RegionOutput> = Vec::new();
    let mut k: usize = 0;
    proof {
        assert(all.take(0) =~= Seq::<RecordView>::empty());
        assert(region_views(regions@) =~= Seq::<RegionView>::empty());
    }
    while k < p
        invariant
            k <= p <= n == records.len(),
            all == record_views(records@),
            p == partition_point(all, layout@.designated_country),
            regions_of(all.take(k as int)) == Ok::<Seq<RegionView>, TableErrorView>(
                region_views(regions@),
            ),
        decreases p - k,
    {
        proof {
            let next = all.take(k + 1);
            assert(next.drop_last() =~= all.take(k as int));
            assert(next.last() == records@[k as int]@);
        }
        match map_region(&records[k]) {
            Err(e) => {
                proof {
                    let head = all.take(p as int);
                    assert(head.take(k + 1) =~= all.take(k + 1));
                    lemma_regions_prefix_error(head, k + 1);
                }
                return Err(e);
            },
            Ok(region) => {
                proof {
                    lemma_region_views_push(regions@, region);
                }
                regions.push(region);
            },
        }
        k += 1;
    }
    let ghost tail = all.skip(p as int);
    let ghost country = layout@.designated_country;
    let mut out: Vec<CountryOutput> = Vec::new();
    let mut k: usize = p;
    proof {
        assert(tail.take(0) =~= Seq::<RecordView>::empty());
        assert(country_views(out@) =~= Seq::<CountryView>::empty());
    }
    while k < n
        invariant
            p <= k <= n == records.len(),
            all == record_views(records@),
            tail == all.skip(p as int),
            country == layout@.designated_country,
            p == partition_point(all, country),
            regions_of(all.take(p as int)) == Ok::<Seq<RegionView>, TableErrorView>(
                region_views(regions@),
            ),
            countries_of(tail.take(k - p), country, region_views(regions@)) == Ok::<
                Seq<CountryView>,
                TableErrorView,
            >(country_views(out@)),
        decreases n - k,
    {
        proof {
            let next = tail.take(k + 1 - p);
            assert(next.drop_last() =~= tail.take(k - p));
            assert(next.last() == records@[k as int]@);
        }
        let entry = if records[k].name == layout.designated_country {
            map_designated(&records[k], &regions)
        } else {
            map_country(&records[k])
        };
        match entry {
            Err(e) => {
                proof {
                    lemma_countries_prefix_error(
                        tail,
                        country,
                        region_views(regions@),
                        k + 1 - p,
                    );
                }
                return Err(e);
            },
            Ok(c) => {
                proof {
                    lemma_country_views_push(out@, c);
                }
                out.push(c);
            },
        }
        k += 1;
    }
    assert(tail.take(n - p) =~= tail);
    Ok(out)
}

/// Regions come one for each record, under the record's name.
pub proof fn lemma_regions_follow(records: Seq<RecordView>, regions: Seq<RegionView>)
    requires
        regions_of(records) == Ok::<Seq<RegionView>, TableErrorView>(regions),
    ensures
        regions.len() == records.len(),
        forall|i: int| 0 <= i < records.len() ==> (#[trigger] regions[i]).name == records[i].name,
    decreases records.len(),
{
    if records.len() > 0 {
        let head = regions_of(records.drop_last())->Ok_0;
        lemma_regions_follow(records.drop_last(), head);
        assert forall|i: int| 0 <= i < records.len() implies (#[trigger] regions[i]).name
            == records[i].name by {
            if i < records.len() - 1 {
                assert(regions[i] == head[i]);
                assert(records.drop_last()[i] == records[i]);
            }
        }
    }
}

/// Countries come one for each record, under the record's name; the regions
/// are nested in those that bear the name of the designated country, and in
/// no other.
pub proof fn lemma_countries_follow(
    records: Seq<RecordView>,
    country: Seq<char>,
    regions: Seq<RegionView>,
    out: Seq<CountryView>,
)
    requires
        countries_of(records, country, regions) == Ok::<Seq<CountryView>, TableErrorView>(out),
    ensures
        out.len() == records.len(),
        forall|j: int|
            0 <= j < records.len() ==> (#[trigger] out[j]).name == records[j].name && out[j].regions
                == (if records[j].name == country {
                Some(regions)
            } else {
                None
            }),
    decreases records.len(),
{
    if records.len() > 0 {
        let head = countries_of(records.drop_last(), country, regions)->Ok_0;
        lemma_countries_follow(records.drop_last(), country, regions, head);
        assert forall|j: int| 0 <= j < records.len() implies (#[trigger] out[j]).name
            == records[j].name && out[j].regions == (if records[j].name == country {
            Some(regions)
        } else {
            None
        }) by {
            if j < records.len() - 1 {
                assert(out[j] == head[j]);
                assert(records.drop_last()[j] == records[j]);
            }
        }
    }
}

/// The records part at the first one that bears the name of the designated
/// country: each record before it is mapped to a region, each record from it
/// on to a country, in their order, and the regions are nested in exactly
/// the countries that bear that name.
pub proof fn lemma_mapped_partition(
    records: Seq<RecordView>,
    layout: LayoutView,
    out: Seq<CountryView>,
)
    requires
        mapped(records, layout) == Ok::<Seq<CountryView>, TableErrorView>(out),
    ensures
        ({
            let p = partition_point(records, layout.designated_country);
            &&& 0 <= p <= records.len()
            &&& forall|i: int| 0 <= i < p ==> (#[trigger] records[i]).name != layout.designated_country
            &&& p < records.len() ==> records[p].name == layout.designated_country
            &&& out.len() == records.len() - p
            &&& regions_of(records.take(p)) matches Ok(regions) && {
                &&& regions.len() == p
                &&& forall|i: int| 0 <= i < p ==> (#[trigger] regions[i]).name == records[i].name
                &&& forall|j: int|
                    0 <= j < out.len() ==> (#[trigger] out[j]).name == records[p + j].name
                        && out[j].regions == (if records[p + j].name == layout.designated_country {
                        Some(regions)
                    } else {
                        None
                    })
            }
        }),
{
    let country = layout.designated_country;
    let p = partition_point(records, country);
    lemma_partition_point(records, country);
    let regions = regions_of(records.take(p))->Ok_0;
    lemma_regions_follow(records.take(p), regions);
    lemma_countries_follow(records.skip(p), country, regions, out);
    assert forall|i: int| 0 <= i < p implies (#[trigger] regions[i]).name == records[i].name by {
        assert(records.take(p)[i] == records[i]);
    }
    assert forall|j: int| 0 <= j < out.len() implies (#[trigger] out[j]).name == records[p
        + j].name && out[j].regions == (if records[p + j].name == country {
        Some(regions)
    } else {
        None
    }) by {
        assert(records.skip(p)[j] == records[p + j]);
    }
}

} // verus!
