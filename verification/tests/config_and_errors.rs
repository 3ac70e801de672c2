use sitrep::error::TableError;
use sitrep::layout::Layout;

#[test]
fn standard_layout_values() {
    let layout = Layout::standard();
    assert_eq!(layout.start_marker, "Hubei");
    assert_eq!(layout.end_marker, "Case classifications are");
    assert_eq!(layout.name_header, "Country/Territory/Area");
    assert_eq!(layout.noise_markers, vec!["Region", " - ", "Unimplemented?"]);
    assert_eq!(layout.footnote_marker, '\u{a7}');
    let repairs: Vec<(String, String)> = layout.repairs.iter().map(|r| (r.find.clone(), r.replace.clone())).collect();
    assert_eq!(
        repairs,
        vec![
            ("Total".to_string(), "China".to_string()),
            ("Uni ted".to_string(), "United".to_string()),
            ("Finlan d".to_string(), "Finland".to_string()),
            ("Jian gsu".to_string(), "Jiangsu".to_string()),
            ("South - ".to_string(), "".to_string()),
        ]
    );
    assert_eq!(layout.summary_labels, vec!["Subtotal for all regions", "Grand total"]);
    assert_eq!(layout.designated_country, "China");
    assert_eq!(layout.min_groups, 6);
}

#[test]
fn error_descriptions() {
    assert_eq!(TableError::MissingStart.describe(), "table start marker not found");
    assert_eq!(TableError::BadCount { text: "12x".to_string() }.describe(), "failed to parse: \"12x\"");
    assert_eq!(
        TableError::ShapeMismatch { record: "Japan".to_string(), group: 2 }.describe(),
        "row \"Japan\": count group 2 has the wrong shape"
    );
    assert_eq!(
        TableError::ShapeMismatch { record: "".to_string(), group: 10 }.describe(),
        "row \"\": count group 10 has the wrong shape"
    );
}
