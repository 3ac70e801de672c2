use sitrep::batch::batch;
use sitrep::batch::batch_flagged;
use sitrep::batch::clean_name;
use sitrep::batch::filter_records;
use sitrep::batch::is_entity_record;
use sitrep::batch::is_noise_fragment;
use sitrep::batch::resolve_name;
use sitrep::batch::Record;
use sitrep::cell::CellPattern;
use sitrep::cell::CountGroup;
use sitrep::error::TableError;
use sitrep::layout::Layout;
use sitrep::layout::Repair;

fn owned(lines: &[&str]) -> Vec<String> {
    lines.iter().map(|s| s.to_string()).collect()
}

fn pattern() -> CellPattern {
    CellPattern::standard().unwrap()
}

fn singles(name: &str, values: &[u32]) -> Record {
    Record { name: name.to_string(), counts: values.iter().map(|v| CountGroup::Single(*v)).collect() }
}

#[test]
fn batcher_groups_name_and_counts_into_records() {
    let lines = owned(&["Hubei", "58500000", "100", "5", "2", "67800", "3000", "Guangdong", "113000000", "50", "1", "0", "1400", "7"]);
    let records = batch(&pattern(), &lines, &Layout::standard()).unwrap();
    assert_eq!(
        records,
        vec![
            singles("Hubei", &[58500000, 100, 5, 2, 67800, 3000]),
            singles("Guangdong", &[113000000, 50, 1, 0, 1400, 7]),
        ]
    );
}

#[test]
fn batcher_resolves_name_after_header_label() {
    let lines = owned(&[
        "Hubei", "58500000", "100", "5", "2", "67800", "3000", "Guangdong", "113000000", "50", "1", "0",
        "1400", "7", "Country/Territory/Area", "China", "67800 (100)",
    ]);
    let records = batch(&pattern(), &lines, &Layout::standard()).unwrap();
    assert_eq!(records.len(), 3);
    assert_eq!(records[2].name, "China");
    assert_eq!(records[2].counts, vec![CountGroup::Pair(67800, 100)]);
}

#[test]
fn batcher_joins_name_fragments_with_spaces() {
    let lines = owned(&["Republic", "of Korea", "1", "2"]);
    let records = batch(&pattern(), &lines, &Layout::standard()).unwrap();
    assert_eq!(records, vec![singles("Republic of Korea", &[1, 2])]);
}

#[test]
fn batcher_drops_noise_fragments() {
    let lines = owned(&["Western Pacific Region", "Japan", "1", "European Region", "x - y", "Unimplemented? no", "France", "2"]);
    let records = batch(&pattern(), &lines, &Layout::standard()).unwrap();
    assert_eq!(records, vec![singles("Japan", &[1]), singles("France", &[2])]);
}

#[test]
fn batcher_skips_rows_without_name_and_goes_on() {
    let lines = owned(&["Western Pacific Region", "5", "6", "Japan", "1", "2"]);
    let records = batch(&pattern(), &lines, &Layout::standard()).unwrap();
    assert_eq!(records, vec![singles("Japan", &[1, 2])]);
    let lines = owned(&["1", "2", "Japan", "3"]);
    let records = batch(&pattern(), &lines, &Layout::standard()).unwrap();
    assert_eq!(records, vec![singles("Japan", &[3])]);
}

#[test]
fn batcher_skips_trailing_name_without_counts() {
    let lines = owned(&["Japan", "1", "stray label"]);
    let records = batch(&pattern(), &lines, &Layout::standard()).unwrap();
    assert_eq!(records, vec![singles("Japan", &[1])]);
}

#[test]
fn batcher_skips_a_name_that_cleans_to_nothing() {
    let lines = owned(&[")", "1", "Japan", "2"]);
    let records = batch(&pattern(), &lines, &Layout::standard()).unwrap();
    assert_eq!(records, vec![singles("Japan", &[2])]);
}

#[test]
fn batcher_of_no_lines_gives_no_records() {
    let records = batch(&pattern(), &Vec::new(), &Layout::standard()).unwrap();
    assert_eq!(records, Vec::<Record>::new());
}

#[test]
fn batcher_renames_total_row_to_designated_country() {
    let lines = owned(&["Total", "1", "2", "3", "4", "5", "6"]);
    let records = batch(&pattern(), &lines, &Layout::standard()).unwrap();
    assert_eq!(records, vec![singles("China", &[1, 2, 3, 4, 5, 6])]);
}

#[test]
fn batcher_reads_pairs_and_singles() {
    let lines = owned(&["Japan", "20 (2)", "7"]);
    let records = batch(&pattern(), &lines, &Layout::standard()).unwrap();
    assert_eq!(
        records,
        vec![Record { name: "Japan".to_string(), counts: vec![CountGroup::Pair(20, 2), CountGroup::Single(7)] }]
    );
}

#[test]
fn batcher_fails_on_a_count_that_does_not_fit() {
    let lines = owned(&["Japan", "1", "4294967296", "abc", "99999999999"]);
    match batch(&pattern(), &lines, &Layout::standard()) {
        Err(TableError::BadCount { text }) => assert_eq!(text, "4294967296"),
        other => panic!("expected BadCount, got {:?}", other),
    }
}

#[test]
fn batcher_fails_even_where_the_row_has_no_name() {
    let lines = owned(&["99999999999", "Japan", "1"]);
    match batch(&pattern(), &lines, &Layout::standard()) {
        Err(TableError::BadCount { text }) => assert_eq!(text, "99999999999"),
        other => panic!("expected BadCount, got {:?}", other),
    }
}

#[test]
fn flagged_batcher_goes_by_the_flags_it_is_given() {
    let lines = owned(&["A", "1", "B", "2"]);
    let flags = vec![false, true, false, true];
    let records = batch_flagged(&lines, &flags, &Layout::standard()).unwrap();
    assert_eq!(records, vec![singles("A", &[1]), singles("B", &[2])]);
    let flags = vec![false, false, false, true];
    let records = batch_flagged(&lines, &flags, &Layout::standard()).unwrap();
    assert_eq!(records, vec![singles("A 1 B", &[2])]);
}

#[test]
fn flagged_batcher_takes_missing_flags_for_names() {
    let lines = owned(&["A", "1", "B", "2"]);
    let records = batch_flagged(&lines, &vec![false, true], &Layout::standard()).unwrap();
    assert_eq!(records, vec![singles("A", &[1])]);
    let records = batch_flagged(&lines, &Vec::new(), &Layout::standard()).unwrap();
    assert_eq!(records, Vec::<Record>::new());
}

#[test]
fn flagged_batcher_fails_where_a_flagged_line_is_no_count() {
    let lines = owned(&["A", "B"]);
    match batch_flagged(&lines, &vec![false, true], &Layout::standard()) {
        Err(TableError::BadCount { text }) => assert_eq!(text, "B"),
        other => panic!("expected BadCount, got {:?}", other),
    }
}

#[test]
fn noise_fragments_by_marker() {
    let layout = Layout::standard();
    assert!(is_noise_fragment("Western Pacific Region", &layout));
    assert!(is_noise_fragment("Region of the Americas", &layout));
    assert!(is_noise_fragment("South - East", &layout));
    assert!(is_noise_fragment("Unimplemented?", &layout));
    assert!(!is_noise_fragment("region", &layout));
    assert!(!is_noise_fragment("South-East", &layout));
    assert!(!is_noise_fragment("Japan", &layout));
    assert!(!is_noise_fragment("", &layout));
}

#[test]
fn resolve_name_takes_last_fragment_after_header() {
    let layout = Layout::standard();
    assert_eq!(resolve_name(&owned(&["Country/Territory/Area", "China"]), &layout), "China");
    assert_eq!(resolve_name(&owned(&["x", "Country/Territory/Area", "y", "China"]), &layout), "China");
    assert_eq!(resolve_name(&owned(&["Country/Territory/Area"]), &layout), "Country/Territory/Area");
    assert_eq!(resolve_name(&owned(&["Republic of", "Korea"]), &layout), "Republic of Korea");
    assert_eq!(resolve_name(&owned(&["Country/Territory/Area China"]), &layout), "Country/Territory/Area China");
    assert_eq!(resolve_name(&Vec::new(), &layout), "");
}

#[test]
fn clean_name_strips_artifacts() {
    let layout = Layout::standard();
    assert_eq!(clean_name(") Japan", &layout), "Japan");
    assert_eq!(clean_name("Japan\u{a7}", &layout), "Japan");
    assert_eq!(clean_name(")Japan\u{a7}", &layout), "Japan");
    assert_eq!(clean_name("  Japan  ", &layout), "Japan");
    assert_eq!(clean_name("))Japan", &layout), ")Japan");
    assert_eq!(clean_name("Japan\u{a7} ", &layout), "Japan\u{a7}");
    assert_eq!(clean_name(")", &layout), "");
    assert_eq!(clean_name("", &layout), "");
}

#[test]
fn clean_name_applies_the_repairs_in_order() {
    let layout = Layout::standard();
    assert_eq!(clean_name("Total", &layout), "China");
    assert_eq!(clean_name("Grand Total", &layout), "Grand China");
    assert_eq!(clean_name("Uni ted Kingdom", &layout), "United Kingdom");
    assert_eq!(clean_name("Uni ted States of America", &layout), "United States of America");
    assert_eq!(clean_name("Finlan d", &layout), "Finland");
    assert_eq!(clean_name("Jian gsu", &layout), "Jiangsu");
    assert_eq!(clean_name("South - East Asia", &layout), "East Asia");
    assert_eq!(clean_name("Grand total", &layout), "Grand total");
}

#[test]
fn clean_name_goes_by_the_layout_it_is_given() {
    let mut layout = Layout::standard();
    layout.footnote_marker = '*';
    layout.repairs = vec![
        Repair { find: "a".to_string(), replace: "b".to_string() },
        Repair { find: "bb".to_string(), replace: "c".to_string() },
    ];
    assert_eq!(clean_name("ab*", &layout), "c");
    assert_eq!(clean_name("Total\u{a7}", &layout), "Totbl\u{a7}");
}

#[test]
fn filter_drops_subtotal_row() {
    let layout = Layout::standard();
    let records = vec![
        singles("Hubei", &[1, 2, 3, 4, 5, 6]),
        singles("Subtotal for all regions", &[1, 2, 3, 4, 5, 6]),
        singles("Japan", &[1, 2, 3, 4, 5, 6]),
    ];
    let kept = filter_records(&records, &layout);
    assert_eq!(kept, vec![singles("Hubei", &[1, 2, 3, 4, 5, 6]), singles("Japan", &[1, 2, 3, 4, 5, 6])]);
}

#[test]
fn filter_drops_grand_total_and_short_rows() {
    let layout = Layout::standard();
    let records = vec![
        singles("Grand total", &[1, 2, 3, 4, 5, 6]),
        singles("Short", &[1, 2, 3, 4, 5]),
        singles("Long", &[1, 2, 3, 4, 5, 6, 7]),
        singles("subtotal for all regions", &[1, 2, 3, 4, 5, 6]),
    ];
    let kept = filter_records(&records, &layout);
    assert_eq!(
        kept,
        vec![singles("Long", &[1, 2, 3, 4, 5, 6, 7]), singles("subtotal for all regions", &[1, 2, 3, 4, 5, 6])]
    );
}

#[test]
fn filter_keeps_only_full_rows_that_are_no_summary() {
    let layout = Layout::standard();
    let records = vec![
        singles("A", &[1]),
        singles("B", &[1, 2, 3, 4, 5, 6]),
        singles("Subtotal for all regions", &[1, 2, 3, 4, 5, 6, 7]),
        singles("C", &[]),
        singles("D", &[9, 9, 9, 9, 9, 9, 9, 9]),
    ];
    let kept = filter_records(&records, &layout);
    assert_eq!(kept.len(), 2);
    for record in &kept {
        assert!(record.counts.len() >= 6);
        assert!(record.name != "Subtotal for all regions");
        assert!(record.name != "Grand total");
        assert!(is_entity_record(record, &layout));
    }
    assert_eq!(kept[0].name, "B");
    assert_eq!(kept[1].name, "D");
}
