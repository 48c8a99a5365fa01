use weather::result::SimpleError;
use weather::server::DataPoint;
use weather::server::Metric;
use weather::server::Selector;
use weather::server::TreeNode;
use weather::server::align;
use weather::server::fill_in;
use weather::server::parse_document;
use weather::server::parse_region;
use weather::server::parse_timestamps;

fn leaf(text: Option<&str>) -> TreeNode {
    TreeNode {
        name: String::from("value"),
        attributes: vec![],
        children: vec![],
        text: text.map(String::from),
    }
}

fn metric_node(name: &str, attrs: &[(&str, &str)], values: &[Option<&str>]) -> TreeNode {
    TreeNode {
        name: String::from(name),
        attributes: attrs.iter().map(|(k, v)| (String::from(*k), String::from(*v))).collect(),
        children: values.iter().map(|t| leaf(*t)).collect(),
        text: None,
    }
}

fn time_node(text: &str) -> TreeNode {
    TreeNode {
        name: String::from("start-valid-time"),
        attributes: vec![],
        children: vec![],
        text: Some(String::from(text)),
    }
}

fn section(name: &str, children: Vec<TreeNode>) -> TreeNode {
    TreeNode { name: String::from(name), attributes: vec![], children, text: None }
}

#[test]
fn attribute_returns_first_matching_value() {
    let node = metric_node("temperature", &[("type", "hourly"), ("units", "F")], &[]);
    assert_eq!(node.attribute("type"), Some(&String::from("hourly")));
    assert_eq!(node.attribute("units"), Some(&String::from("F")));
    assert_eq!(node.attribute("missing"), None);
}

#[test]
fn get_child_finds_first_child_by_name() {
    let root = section("root", vec![section("a", vec![]), section("b", vec![])]);
    assert!(root.get_child("a").is_some());
    assert!(root.get_child("b").is_some());
    assert!(root.get_child("c").is_none());
}

#[test]
fn matches_requires_present_equal_value() {
    let hourly = String::from("hourly");
    assert!(weather::server::matches(Some(&hourly), "hourly"));
    assert!(!weather::server::matches(Some(&hourly), "dew point"));
    assert!(!weather::server::matches(None, "hourly"));
}

#[test]
fn parse_region_reads_values_and_gaps() {
    let parent = section(
        "parameters",
        vec![metric_node("cloud-amount", &[], &[Some("10"), None, Some("-3")])],
    );
    let slots = parse_region(&parent, &Selector::for_tag("cloud-amount")).unwrap();
    assert_eq!(slots, vec![Some(10), None, Some(-3)]);
}

#[test]
fn parse_region_concatenates_matching_children() {
    let parent = section(
        "parameters",
        vec![
            metric_node("cloud-amount", &[], &[Some("1")]),
            metric_node("wind-speed", &[("type", "sustained")], &[Some("99")]),
            metric_node("cloud-amount", &[], &[Some("2"), Some("3")]),
        ],
    );
    let slots = parse_region(&parent, &Selector::for_tag("cloud-amount")).unwrap();
    assert_eq!(slots, vec![Some(1), Some(2), Some(3)]);
}

#[test]
fn selector_with_attribute_skips_differing_sibling() {
    // A document holding both an hourly temperature node and a dew point
    // temperature node: the hourly selector must not pick up the sibling.
    let parent = section(
        "parameters",
        vec![
            metric_node("temperature", &[("type", "hourly")], &[Some("70"), Some("71")]),
            metric_node("temperature", &[("type", "dew point")], &[Some("40"), Some("41")]),
        ],
    );
    let hourly =
        parse_region(&parent, &Selector::for_tag_attr("temperature", "type", "hourly")).unwrap();
    assert_eq!(hourly, vec![Some(70), Some(71)]);
    let dew = parse_region(&parent, &Selector::for_tag_attr("temperature", "type", "dew point"))
        .unwrap();
    assert_eq!(dew, vec![Some(40), Some(41)]);
}

#[test]
fn selector_treats_missing_attribute_as_no_match() {
    let parent = section(
        "parameters",
        vec![metric_node("temperature", &[], &[Some("70")])],
    );
    let hourly =
        parse_region(&parent, &Selector::for_tag_attr("temperature", "type", "hourly")).unwrap();
    assert_eq!(hourly, Vec::<Option<i32>>::new());
}

#[test]
fn parse_region_rejects_malformed_literal() {
    let parent = section(
        "parameters",
        vec![metric_node("cloud-amount", &[], &[Some("ten")])],
    );
    let r = parse_region(&parent, &Selector::for_tag("cloud-amount"));
    assert!(matches!(r, Err(SimpleError::Parse(_))));
}

#[test]
fn parse_timestamps_reads_rfc3339_instants() {
    let layout = section(
        "time-layout",
        vec![
            time_node("2016-05-04T07:00:00-04:00"),
            section("layout-key", vec![]),
            time_node("2016-05-04T08:00:00-04:00"),
        ],
    );
    let ts = parse_timestamps(&layout).unwrap();
    assert_eq!(ts, vec![1462359600, 1462363200]);
}

#[test]
fn parse_timestamps_rejects_malformed_instant() {
    let layout = section("time-layout", vec![time_node("2016-05-04 07:00")]);
    let r = parse_timestamps(&layout);
    assert!(matches!(r, Err(SimpleError::Parse(_))));
}

#[test]
fn parse_timestamps_rejects_entry_without_text() {
    let layout = section(
        "time-layout",
        vec![TreeNode {
            name: String::from("start-valid-time"),
            attributes: vec![],
            children: vec![],
            text: None,
        }],
    );
    let r = parse_timestamps(&layout);
    assert!(matches!(r, Err(SimpleError::Parse(_))));
}

#[test]
fn fill_in_copies_present_slots_and_counts_them() {
    let vals = vec![Some(5), None, Some(7)];
    let mut out = vec![DataPoint::new(), DataPoint::new(), DataPoint::new()];
    let valid = fill_in(&vals, &mut out, Metric::Temperature);
    assert_eq!(valid, 2);
    assert_eq!(out[0].temperature, 5);
    assert_eq!(out[1].temperature, 0);
    assert_eq!(out[2].temperature, 7);
}

#[test]
fn aligner_truncates_to_fully_populated_prefix() {
    // Temperature stops being reported at the third position, so only the
    // first two records survive even though precipitation is fully valid.
    let ts: Vec<i64> = vec![100, 200, 300];
    let temps = vec![Some(10), Some(11), None];
    let precips = vec![Some(1), Some(2), Some(3)];
    let full = vec![Some(0), Some(0), Some(0)];
    let points = align(&ts, &temps, &precips, &full, &full, &full, &full).unwrap();
    assert_eq!(points.len(), 2);
    assert_eq!(points[0].unix_seconds, 100);
    assert_eq!(points[0].temperature, 10);
    assert_eq!(points[0].precipitation_chance, 1);
    assert_eq!(points[1].unix_seconds, 200);
    assert_eq!(points[1].temperature, 11);
    assert_eq!(points[1].precipitation_chance, 2);
}

#[test]
fn aligner_empty_timestamps_yield_empty_output() {
    let ts: Vec<i64> = vec![];
    let empty: Vec<Option<i32>> = vec![];
    let points = align(&ts, &empty, &empty, &empty, &empty, &empty, &empty).unwrap();
    assert!(points.is_empty());
}

#[test]
fn aligner_rejects_length_mismatch() {
    let ts: Vec<i64> = vec![];
    let empty: Vec<Option<i32>> = vec![];
    let one = vec![Some(1)];
    let r = align(&ts, &one, &empty, &empty, &empty, &empty, &empty);
    assert!(matches!(r, Err(SimpleError::Alignment(_))));
}

fn full_document() -> TreeNode {
    let layout = section(
        "time-layout",
        vec![
            time_node("2016-05-04T07:00:00-04:00"),
            time_node("2016-05-04T08:00:00-04:00"),
            time_node("2016-05-04T09:00:00-04:00"),
        ],
    );
    let parameters = section(
        "parameters",
        vec![
            metric_node("temperature", &[("type", "hourly")], &[Some("70"), Some("71"), None]),
            metric_node(
                "probability-of-precipitation",
                &[],
                &[Some("10"), Some("20"), Some("30")],
            ),
            metric_node("temperature", &[("type", "dew point")], &[Some("40"), Some("41"), Some("42")]),
            metric_node("humidity", &[("type", "relative")], &[Some("50"), Some("51"), Some("52")]),
            metric_node("cloud-amount", &[], &[Some("60"), Some("61"), Some("62")]),
            metric_node("wind-speed", &[("type", "sustained")], &[Some("5"), Some("6"), Some("7")]),
        ],
    );
    section("dwml", vec![section("data", vec![layout, parameters])])
}

#[test]
fn parse_document_serves_aligned_points() {
    let points = parse_document(&full_document()).unwrap();
    assert_eq!(points.len(), 2);
    assert_eq!(
        points[0],
        DataPoint {
            unix_seconds: 1462359600,
            temperature: 70,
            precipitation_chance: 10,
            dew_point: 40,
            relative_humidity: 50,
            clouds: 60,
            wind: 5,
        }
    );
    assert_eq!(
        points[1],
        DataPoint {
            unix_seconds: 1462363200,
            temperature: 71,
            precipitation_chance: 20,
            dew_point: 41,
            relative_humidity: 51,
            clouds: 61,
            wind: 6,
        }
    );
}

#[test]
fn parse_document_rejects_missing_sections() {
    let no_data = section("dwml", vec![]);
    assert!(matches!(parse_document(&no_data), Err(SimpleError::Parse(_))));

    let no_layout = section("dwml", vec![section("data", vec![section("parameters", vec![])])]);
    assert!(matches!(parse_document(&no_layout), Err(SimpleError::Parse(_))));

    let no_params = section(
        "dwml",
        vec![section("data", vec![section("time-layout", vec![])])],
    );
    assert!(matches!(parse_document(&no_params), Err(SimpleError::Parse(_))));
}

#[test]
fn parse_document_rejects_slot_count_mismatch() {
    let layout = section(
        "time-layout",
        vec![time_node("2016-05-04T07:00:00-04:00"), time_node("2016-05-04T08:00:00-04:00")],
    );
    let parameters = section(
        "parameters",
        vec![
            metric_node("temperature", &[("type", "hourly")], &[Some("70")]),
            metric_node("probability-of-precipitation", &[], &[Some("10"), Some("20")]),
            metric_node("temperature", &[("type", "dew point")], &[Some("40"), Some("41")]),
            metric_node("humidity", &[("type", "relative")], &[Some("50"), Some("51")]),
            metric_node("cloud-amount", &[], &[Some("60"), Some("61")]),
            metric_node("wind-speed", &[("type", "sustained")], &[Some("5"), Some("6")]),
        ],
    );
    let doc = section("dwml", vec![section("data", vec![layout, parameters])]);
    assert!(matches!(parse_document(&doc), Err(SimpleError::Alignment(_))));
}

#[test]
fn parse_error_message_is_preserved() {
    let e = SimpleError::Parse(String::from("bad literal"));
    assert_eq!(e.message(), "bad literal");
    let a = SimpleError::Alignment(String::from("mismatch"));
    assert_eq!(a.message(), "mismatch");
}
