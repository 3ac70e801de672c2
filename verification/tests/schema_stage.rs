use sitrep::batch::Record;
use sitrep::cell::CountGroup;
use sitrep::error::TableError;
use sitrep::layout::Layout;
use sitrep::schema::map_country;
use sitrep::schema::map_designated;
use sitrep::schema::map_records;
use sitrep::schema::map_region;
use sitrep::schema::partition_index;
use sitrep::schema::CountryOutput;
use sitrep::schema::RegionOutput;
use sitrep::schema::ROW_GROUPS;

fn singles(name: &str, values: &[u32]) -> Record {
    Record { name: name.to_string(), counts: values.iter().map(|v| CountGroup::Single(*v)).collect() }
}

fn pairs(name: &str, values: &[(u32, u32)]) -> Record {
    Record { name: name.to_string(), counts: values.iter().map(|v| CountGroup::Pair(v.0, v.1)).collect() }
}

fn region(name: &str, v: [u32; 6]) -> RegionOutput {
    RegionOutput {
        name: name.to_string(),
        population: v[0],
        today_confirmed: v[1],
        today_suspected: v[2],
        today_deaths: v[3],
        total_confirmed: v[4],
        total_deaths: v[5],
    }
}

fn shape_mismatch(r: Result<Vec<CountryOutput>, TableError>) -> (String, usize) {
    match r {
        Err(TableError::ShapeMismatch { record, group }) => (record, group),
        other => panic!("expected ShapeMismatch, got {:?}", other),
    }
}

#[test]
fn row_groups_is_six() {
    assert_eq!(ROW_GROUPS, 6);
}

#[test]
fn region_takes_six_singles_in_fixed_order() {
    let r = map_region(&singles("Hubei", &[58500000, 100, 5, 2, 67800, 3000])).unwrap();
    assert_eq!(r, region("Hubei", [58500000, 100, 5, 2, 67800, 3000]));
    assert_eq!(r.population, 58500000);
    assert_eq!(r.today_confirmed, 100);
    assert_eq!(r.today_suspected, 5);
    assert_eq!(r.today_deaths, 2);
    assert_eq!(r.total_confirmed, 67800);
    assert_eq!(r.total_deaths, 3000);
}

#[test]
fn region_ignores_groups_behind_the_sixth() {
    let mut record = singles("Hubei", &[1, 2, 3, 4, 5, 6]);
    record.counts.push(CountGroup::Pair(7, 8));
    assert_eq!(map_region(&record).unwrap(), region("Hubei", [1, 2, 3, 4, 5, 6]));
}

#[test]
fn region_with_a_pair_is_a_shape_mismatch() {
    let mut record = singles("Hubei", &[1, 2, 3, 4, 5, 6]);
    record.counts[3] = CountGroup::Pair(4, 40);
    match map_region(&record) {
        Err(TableError::ShapeMismatch { record, group }) => {
            assert_eq!(record, "Hubei");
            assert_eq!(group, 3);
        }
        other => panic!("expected ShapeMismatch, got {:?}", other),
    }
}

#[test]
fn region_with_too_few_groups_is_a_shape_mismatch() {
    match map_region(&singles("Hubei", &[1, 2])) {
        Err(TableError::ShapeMismatch { record, group }) => {
            assert_eq!(record, "Hubei");
            assert_eq!(group, 2);
        }
        other => panic!("expected ShapeMismatch, got {:?}", other),
    }
}

#[test]
fn country_takes_six_pairs_total_first() {
    let c = map_country(&pairs("Japan", &[(20, 2), (10, 1), (3, 0), (5, 4), (2, 9), (1, 8)])).unwrap();
    assert_eq!(c.name, "Japan");
    assert_eq!(c.total_confirmed, 20);
    assert_eq!(c.today_confirmed, 2);
    assert_eq!(c.today_suspected, None);
    assert_eq!(c.total_likely_exposure_china, Some(10));
    assert_eq!(c.today_likely_exposure_china, Some(1));
    assert_eq!(c.total_likely_exposure_other, Some(3));
    assert_eq!(c.today_likely_exposure_other, Some(0));
    assert_eq!(c.total_likely_exposure_in_country, Some(5));
    assert_eq!(c.today_likely_exposure_in_country, Some(4));
    assert_eq!(c.total_likely_exposure_unknown, Some(2));
    assert_eq!(c.today_likely_exposure_unknown, Some(9));
    assert_eq!(c.total_deaths, 1);
    assert_eq!(c.today_deaths, 8);
    assert_eq!(c.regions, None);
}

#[test]
fn country_with_a_single_is_a_shape_mismatch() {
    let mut record = pairs("Japan", &[(1, 1), (2, 2), (3, 3), (4, 4), (5, 5), (6, 6)]);
    record.counts[0] = CountGroup::Single(1);
    record.counts[4] = CountGroup::Single(5);
    match map_country(&record) {
        Err(TableError::ShapeMismatch { record, group }) => {
            assert_eq!(record, "Japan");
            assert_eq!(group, 0);
        }
        other => panic!("expected ShapeMismatch, got {:?}", other),
    }
}

#[test]
fn country_with_too_few_groups_is_a_shape_mismatch() {
    match map_country(&pairs("Japan", &[(1, 1), (2, 2), (3, 3), (4, 4), (5, 5)])) {
        Err(TableError::ShapeMismatch { record, group }) => {
            assert_eq!(record, "Japan");
            assert_eq!(group, 5);
        }
        other => panic!("expected ShapeMismatch, got {:?}", other),
    }
}

#[test]
fn designated_country_takes_region_positions_and_nests_regions() {
    let regions = vec![region("Hubei", [1, 2, 3, 4, 5, 6])];
    let c = map_designated(&singles("China", &[1400000000, 150, 6, 2, 69200, 3007]), &regions).unwrap();
    assert_eq!(c.name, "China");
    assert_eq!(c.today_confirmed, 150);
    assert_eq!(c.today_suspected, Some(6));
    assert_eq!(c.today_deaths, 2);
    assert_eq!(c.total_confirmed, 69200);
    assert_eq!(c.total_deaths, 3007);
    assert_eq!(c.today_likely_exposure_china, None);
    assert_eq!(c.total_likely_exposure_china, None);
    assert_eq!(c.today_likely_exposure_in_country, None);
    assert_eq!(c.total_likely_exposure_in_country, None);
    assert_eq!(c.today_likely_exposure_other, None);
    assert_eq!(c.total_likely_exposure_other, None);
    assert_eq!(c.today_likely_exposure_unknown, None);
    assert_eq!(c.total_likely_exposure_unknown, None);
    assert_eq!(c.regions, Some(regions));
}

#[test]
fn designated_country_reads_the_first_number_of_a_pair() {
    let c = map_designated(&pairs("China", &[(67800, 100), (10, 1), (20, 2), (30, 3), (40, 4), (50, 5)]), &Vec::new())
        .unwrap();
    assert_eq!(c.today_confirmed, 10);
    assert_eq!(c.today_suspected, Some(20));
    assert_eq!(c.today_deaths, 30);
    assert_eq!(c.total_confirmed, 40);
    assert_eq!(c.total_deaths, 50);
    assert_eq!(c.regions, Some(Vec::new()));
}

#[test]
fn designated_country_with_too_few_groups_is_a_shape_mismatch() {
    match map_designated(&singles("China", &[1, 2, 3]), &Vec::new()) {
        Err(TableError::ShapeMismatch { record, group }) => {
            assert_eq!(record, "China");
            assert_eq!(group, 3);
        }
        other => panic!("expected ShapeMismatch, got {:?}", other),
    }
}

#[test]
fn partition_point_is_the_first_designated_record() {
    let layout = Layout::standard();
    let records = vec![singles("Hubei", &[1]), singles("Guangdong", &[1]), singles("China", &[1]), singles("Japan", &[1])];
    assert_eq!(partition_index(&records, &layout), 2);
    let records = vec![singles("China", &[1]), singles("China", &[1])];
    assert_eq!(partition_index(&records, &layout), 0);
    let records = vec![singles("Hubei", &[1]), singles("china", &[1])];
    assert_eq!(partition_index(&records, &layout), 2);
    assert_eq!(partition_index(&Vec::new(), &layout), 0);
}

#[test]
fn records_before_designated_become_regions_and_the_rest_countries() {
    let layout = Layout::standard();
    let records = vec![
        singles("Hubei", &[58500000, 100, 5, 2, 67800, 3000]),
        singles("Guangdong", &[113000000, 50, 1, 0, 1400, 7]),
        singles("China", &[1400000000, 150, 6, 2, 69200, 3007]),
        pairs("Japan", &[(20, 2), (10, 1), (3, 0), (5, 1), (2, 0), (1, 0)]),
        pairs("France", &[(12, 0), (5, 0), (0, 0), (7, 0), (0, 0), (1, 1)]),
    ];
    let out = map_records(&records, &layout).unwrap();
    assert_eq!(out.len(), 3);
    assert_eq!(out[0].name, "China");
    assert_eq!(
        out[0].regions,
        Some(vec![
            region("Hubei", [58500000, 100, 5, 2, 67800, 3000]),
            region("Guangdong", [113000000, 50, 1, 0, 1400, 7]),
        ])
    );
    assert_eq!(out[0].today_suspected, Some(6));
    assert_eq!(out[1].name, "Japan");
    assert_eq!(out[1].regions, None);
    assert_eq!(out[1].total_confirmed, 20);
    assert_eq!(out[1].today_confirmed, 2);
    assert_eq!(out[2].name, "France");
    assert_eq!(out[2].regions, None);
    assert_eq!(out[2].total_deaths, 1);
    assert_eq!(out[2].today_deaths, 1);
}

#[test]
fn without_designated_record_there_is_no_country() {
    let layout = Layout::standard();
    let records = vec![singles("Hubei", &[1, 2, 3, 4, 5, 6]), singles("Guangdong", &[1, 2, 3, 4, 5, 6])];
    assert_eq!(map_records(&records, &layout).unwrap(), Vec::<CountryOutput>::new());
    assert_eq!(map_records(&Vec::new(), &layout).unwrap(), Vec::<CountryOutput>::new());
}

#[test]
fn a_later_designated_record_gets_the_regions_too() {
    let layout = Layout::standard();
    let records = vec![
        singles("Hubei", &[1, 2, 3, 4, 5, 6]),
        singles("China", &[1, 2, 3, 4, 5, 6]),
        pairs("China", &[(67800, 100), (10, 1), (20, 2), (30, 3), (40, 4), (50, 5)]),
    ];
    let out = map_records(&records, &layout).unwrap();
    assert_eq!(out.len(), 2);
    assert_eq!(out[0].regions, Some(vec![region("Hubei", [1, 2, 3, 4, 5, 6])]));
    assert_eq!(out[1].regions, Some(vec![region("Hubei", [1, 2, 3, 4, 5, 6])]));
    assert_eq!(out[1].today_confirmed, 10);
}

#[test]
fn mapping_names_the_first_misfit_regions_first() {
    let layout = Layout::standard();
    let records = vec![
        singles("Hubei", &[1, 2, 3, 4, 5, 6]),
        pairs("Guangdong", &[(1, 1), (2, 2), (3, 3), (4, 4), (5, 5), (6, 6)]),
        singles("China", &[1, 2, 3, 4, 5, 6]),
        singles("Japan", &[1, 2, 3, 4, 5, 6]),
    ];
    assert_eq!(shape_mismatch(map_records(&records, &layout)), ("Guangdong".to_string(), 0));
    let records = vec![
        singles("Hubei", &[1, 2, 3, 4, 5, 6]),
        singles("China", &[1, 2, 3, 4, 5, 6]),
        Record {
            name: "Japan".to_string(),
            counts: vec![
                CountGroup::Pair(1, 1),
                CountGroup::Pair(2, 2),
                CountGroup::Single(3),
                CountGroup::Pair(4, 4),
                CountGroup::Pair(5, 5),
                CountGroup::Pair(6, 6),
            ],
        },
        singles("France", &[1]),
    ];
    assert_eq!(shape_mismatch(map_records(&records, &layout)), ("Japan".to_string(), 2));
}

#[test]
fn mapping_goes_by_the_designated_country_of_the_layout() {
    let mut layout = Layout::standard();
    layout.designated_country = "Japan".to_string();
    let records = vec![singles("China", &[1, 2, 3, 4, 5, 6]), singles("Japan", &[7, 8, 9, 10, 11, 12])];
    let out = map_records(&records, &layout).unwrap();
    assert_eq!(out.len(), 1);
    assert_eq!(out[0].name, "Japan");
    assert_eq!(out[0].regions, Some(vec![region("China", [1, 2, 3, 4, 5, 6])]));
    assert_eq!(out[0].total_confirmed, 11);
}
