use sitrep::discover::find_latest_report_url;
use sitrep::discover::Attribute;
use sitrep::discover::LatestSituationReportFinder;
use sitrep::discover::SinkStep;
use sitrep::discover::Site;
use sitrep::discover::Tag;
use sitrep::discover::TagKind;
use sitrep::discover::Token;

fn tag(kind: TagKind, name: &str, attrs: &[(&str, &str)]) -> Token {
    Token::Tag(Tag {
        kind,
        name: name.to_string(),
        attrs: attrs.iter().map(|a| Attribute { name: a.0.to_string(), value: a.1.to_string() }).collect(),
    })
}

const REPORT: &str = "/docs/default-source/coronaviruse/situation-reports/20200301-sitrep-41.pdf";

#[test]
fn standard_site_addresses() {
    let site = Site::standard();
    assert_eq!(site.base_url, "https://www.who.int");
    assert_eq!(site.index_path, "/emergencies/diseases/novel-coronavirus-2019/situation-reports/");
    assert_eq!(site.report_prefix, "/docs/default-source/coronaviruse/situation-reports/");
    assert_eq!(
        site.index_url(),
        "https://www.who.int/emergencies/diseases/novel-coronavirus-2019/situation-reports/"
    );
}

#[test]
fn anchor_with_report_link_is_taken() {
    let site = Site::standard();
    let mut finder = LatestSituationReportFinder::new();
    assert_eq!(finder.url, None);
    let step = finder.process_token(&tag(TagKind::Start, "a", &[("class", "x"), ("href", REPORT)]), &site);
    assert_eq!(step, SinkStep::Plaintext);
    assert_eq!(finder.url, Some(format!("https://www.who.int{}", REPORT)));
}

#[test]
fn other_tokens_change_nothing() {
    let site = Site::standard();
    let mut finder = LatestSituationReportFinder::new();
    let tokens = [
        Token::Other,
        tag(TagKind::End, "a", &[("href", REPORT)]),
        tag(TagKind::Start, "link", &[("href", REPORT)]),
        tag(TagKind::Start, "A", &[("href", REPORT)]),
        tag(TagKind::Start, "a", &[]),
        tag(TagKind::Start, "a", &[("HREF", REPORT)]),
        tag(TagKind::Start, "a", &[("href", "/docs/other.pdf")]),
        tag(TagKind::Start, "a", &[("href", "https://www.who.int/docs/default-source/coronaviruse/situation-reports/x.pdf")]),
        tag(TagKind::Start, "a", &[("href", "/elsewhere"), ("href", REPORT)]),
    ];
    for token in &tokens {
        assert_eq!(finder.process_token(token, &site), SinkStep::Continue);
        assert_eq!(finder.url, None);
    }
}

#[test]
fn a_token_without_link_keeps_an_address_already_found() {
    let site = Site::standard();
    let mut finder = LatestSituationReportFinder { url: Some("kept".to_string()) };
    assert_eq!(finder.process_token(&Token::Other, &site), SinkStep::Continue);
    assert_eq!(finder.url, Some("kept".to_string()));
}

#[test]
fn first_report_link_is_the_latest() {
    let site = Site::standard();
    let tokens = vec![
        tag(TagKind::Start, "html", &[]),
        tag(TagKind::Start, "a", &[("href", "/about")]),
        Token::Other,
        tag(TagKind::Start, "a", &[("href", REPORT)]),
        tag(TagKind::End, "a", &[]),
        tag(TagKind::Start, "a", &[("href", "/docs/default-source/coronaviruse/situation-reports/older.pdf")]),
    ];
    assert_eq!(find_latest_report_url(&tokens, &site), Some(format!("https://www.who.int{}", REPORT)));
}

#[test]
fn no_report_link_is_not_found() {
    let site = Site::standard();
    let tokens = vec![tag(TagKind::Start, "a", &[("href", "/about")]), Token::Other];
    assert_eq!(find_latest_report_url(&tokens, &site), None);
    assert_eq!(find_latest_report_url(&Vec::new(), &site), None);
}

#[test]
fn link_is_qualified_against_the_site_it_is_given() {
    let site = Site {
        base_url: "http://example.org".to_string(),
        index_path: "/list".to_string(),
        report_prefix: "/r/".to_string(),
    };
    assert_eq!(site.index_url(), "http://example.org/list");
    let tokens = vec![tag(TagKind::Start, "a", &[("href", REPORT)]), tag(TagKind::Start, "a", &[("href", "/r/1.pdf")])];
    assert_eq!(find_latest_report_url(&tokens, &site), Some("http://example.org/r/1.pdf".to_string()));
}
