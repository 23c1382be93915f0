use mextract::calendar::Timestamp;
use mextract::coords::{dms2decimal, parse_lat_lon_combined};
use mextract::dates::{month_to_int, parse_datetime};
use mextract::depth::{parse_depth, Meters};
use mextract::record::{
    build_record, get_attributes, get_dates, get_depth, get_lat_lon, get_primary_id, get_runs,
    parse_xml, Attr, DocNode, ExtractError,
};
use mextract::tags::{classify, TagClass};

fn node(name: &str, text: Option<&str>, children: Vec<DocNode>) -> DocNode {
    DocNode { name: name.to_string(), text: text.map(|t| t.to_string()), children }
}

fn attr(tag: &str, value: &str) -> Attr {
    Attr { tag: tag.to_string(), value: value.to_string(), units: None }
}

fn ts(year: i32, month: u32, day: u32, hour: u32, minute: u32, second: u32) -> Timestamp {
    Timestamp { year, month, day, hour, minute, second }
}

fn midnight(year: i32, month: u32, day: u32) -> Option<Timestamp> {
    Some(ts(year, month, day, 0, 0, 0))
}

#[test]
fn dates_follow_each_grammar() {
    assert_eq!(parse_datetime("34210"), midnight(1997, 8, 30));
    assert_eq!(parse_datetime("00000"), midnight(1904, 1, 1));
    assert_eq!(parse_datetime("2012-03-09T08:59"), Some(ts(2012, 3, 9, 8, 59, 0)));
    assert_eq!(parse_datetime("2012-03-09T08:59:03"), Some(ts(2012, 3, 9, 8, 59, 3)));
    assert_eq!(parse_datetime("2017-06-16Z"), midnight(2017, 6, 16));
    assert_eq!(parse_datetime("2015-01-03/2015-02-14"), midnight(2015, 1, 3));
    assert_eq!(parse_datetime("2015-01"), midnight(2015, 1, 1));
    assert_eq!(parse_datetime("2015-01/2015-02"), midnight(2015, 1, 1));
    assert_eq!(parse_datetime("20100910"), midnight(2010, 9, 10));
    assert_eq!(parse_datetime("12/06"), midnight(2006, 12, 1));
    assert_eq!(parse_datetime("2/14-12/15"), midnight(2014, 2, 1));
    assert_eq!(parse_datetime("Dec-2015"), midnight(2015, 12, 1));
    assert_eq!(parse_datetime("May, 2017"), midnight(2017, 5, 1));
    assert_eq!(parse_datetime("March-2017"), midnight(2017, 3, 1));
    assert_eq!(parse_datetime("March-April 2017"), midnight(2017, 3, 1));
    assert_eq!(parse_datetime("July of 2011"), midnight(2011, 7, 1));
    assert_eq!(parse_datetime("2008 August"), midnight(2008, 8, 1));
    assert_eq!(parse_datetime("2008 AUGUST"), midnight(2008, 8, 1));
}

#[test]
fn dates_reject_what_no_grammar_takes() {
    assert_eq!(parse_datetime(""), None);
    assert_eq!(parse_datetime("yesterday"), None);
    assert_eq!(parse_datetime("2012-03-09T08:59junk"), None);
    assert_eq!(parse_datetime("2015-02-30"), None);
    assert_eq!(parse_datetime("2015-13"), None);
    assert_eq!(parse_datetime("2012-03-09T25:00"), None);
    assert_eq!(parse_datetime("2012-03-09T23:60"), None);
    assert_eq!(parse_datetime("1234"), None);
}

#[test]
fn leap_days_follow_the_calendar() {
    assert_eq!(parse_datetime("20000229"), midnight(2000, 2, 29));
    assert_eq!(parse_datetime("19000229"), None);
    assert_eq!(parse_datetime("20240229"), midnight(2024, 2, 29));
}

#[test]
fn iso_text_reads_back_to_the_same_instant() {
    for t in [ts(2012, 3, 9, 8, 59, 3), ts(7, 1, 1, 0, 0, 0), ts(9999, 12, 31, 23, 59, 59)] {
        let text = t.to_iso();
        assert_eq!(parse_datetime(&text), Some(t));
    }
    assert_eq!(ts(2012, 3, 9, 8, 5, 3).to_iso(), "2012-03-09T08:05:03");
    let t = parse_datetime("34210").unwrap();
    assert_eq!(parse_datetime(&t.to_iso()), Some(t));
}

#[test]
fn month_names_resolve_by_stem() {
    assert_eq!(month_to_int("mai"), Some(5));
    assert_eq!(month_to_int("May"), Some(5));
    assert_eq!(month_to_int("ma"), None);
    assert_eq!(month_to_int("Septembre"), Some(9));
    assert_eq!(month_to_int("december"), Some(12));
    assert_eq!(month_to_int(""), None);
}

#[test]
fn depth_units_scale_exactly() {
    assert_eq!(parse_depth("5cm"), Some(Meters { mantissa: 5, scale: 2 }));
    assert_eq!(parse_depth("5mm"), Some(Meters { mantissa: 5, scale: 3 }));
    assert_eq!(parse_depth("5m"), Some(Meters { mantissa: 5, scale: 0 }));
    assert_eq!(parse_depth("5"), Some(Meters { mantissa: 5, scale: 0 }));
    assert_eq!(parse_depth("5 CM"), Some(Meters { mantissa: 5, scale: 2 }));
    assert_eq!(parse_depth("12.25 feet"), Some(Meters { mantissa: 1225, scale: 2 }));
    assert_eq!(parse_depth("abc"), None);
    assert_eq!(parse_depth(""), None);
    assert_eq!(parse_depth("."), None);
    assert_eq!(parse_depth("5 m m"), None);
    assert_eq!(parse_depth("99999999999999999999"), None);
}

#[test]
fn dms_rounds_and_negates() {
    assert_eq!(dms2decimal("41", "40", "13.5", &true), Some("-41.67042".to_string()));
    assert_eq!(dms2decimal("0", "0", "0", &false), Some("0.00000".to_string()));
    assert_eq!(dms2decimal("10", "0", "0.018", &false), Some("10.00001".to_string()));
    assert_eq!(dms2decimal("x", "0", "0", &false), None);
    assert_eq!(dms2decimal("1", "", "0", &false), None);
    assert_eq!(dms2decimal("1", "2", "3.", &false), None);
}

#[test]
fn combined_coordinates_take_direction_and_separators() {
    assert_eq!(
        parse_lat_lon_combined("41º40,13.5''S, 2º48'00.6''w"),
        Some(("-41.67042".to_string(), "-2.80017".to_string()))
    );
    assert_eq!(
        parse_lat_lon_combined("  4140,13.5'' 248'00.6''"),
        Some(("414.00375".to_string(), "24.13350".to_string()))
    );
    assert_eq!(parse_lat_lon_combined("41º40,13.5''N"), None);
    assert_eq!(parse_lat_lon_combined("41º40,13.5'N 2º48'00.6''E"), None);
    assert_eq!(parse_lat_lon_combined(""), None);
}

#[test]
fn tags_classify_by_text_alone() {
    assert_eq!(classify("Collection Date"), TagClass::Date);
    assert_eq!(classify("collection_timestamp"), TagClass::Date);
    assert_eq!(classify("Event Date/Time"), TagClass::Date);
    assert_eq!(classify("event date time start"), TagClass::Date);
    assert_eq!(classify("Date"), TagClass::Date);
    assert_eq!(classify("Taxon ID"), TagClass::Unclassified);
    assert_eq!(classify("Comment"), TagClass::Unclassified);
    assert_eq!(classify("Collection Date of sampling"), TagClass::Unclassified);
    assert_eq!(classify("geographic location (depth)"), TagClass::Depth);
    assert_eq!(classify("Depth"), TagClass::Depth);
    assert_eq!(classify("depth of water"), TagClass::Unclassified);
    assert_eq!(classify("lat lon"), TagClass::LatLonCombined);
    assert_eq!(classify("geographic location (latitude and longitude)"), TagClass::LatLonCombined);
    assert_eq!(classify("Latitude"), TagClass::Latitude);
    assert_eq!(classify("geographical location (lat) start"), TagClass::Latitude);
    assert_eq!(classify("Longitude"), TagClass::Longitude);
    assert_eq!(classify("longitude_deg"), TagClass::Longitude);
    assert_eq!(classify("longitude start"), TagClass::Longitude);
    assert_eq!(classify(""), TagClass::Unclassified);
}

#[test]
fn every_date_candidate_is_kept() {
    let attrs = vec![attr("Date", "2015-01"), attr("Comment", "Dec-2015"), attr("Depth", "5 m")];
    let dates = get_dates(&attrs);
    assert_eq!(dates.len(), 2);
    assert_eq!(dates[0].tag, "Date");
    assert!(dates[0].tag_ok);
    assert_eq!(dates[0].value, ts(2015, 1, 1, 0, 0, 0));
    assert_eq!(dates[1].tag, "Comment");
    assert!(!dates[1].tag_ok);
    assert_eq!(dates[1].value, ts(2015, 12, 1, 0, 0, 0));
}

#[test]
fn first_depth_attribute_wins() {
    let attrs = vec![attr("depth", "5 cm"), attr("geographic location (depth)", "100 m")];
    assert_eq!(get_depth(&attrs), Some(Meters { mantissa: 5, scale: 2 }));
    let attrs = vec![attr("depth", "unknown"), attr("depth", "100 m")];
    assert_eq!(get_depth(&attrs), None);
    assert_eq!(get_depth(&vec![attr("Comment", "5 m")]), None);
}

#[test]
fn first_coordinate_attributes_win() {
    let attrs = vec![
        attr("lat lon", "41º40,13.5''N 2º48'00.6''E"),
        attr("lat_lon", "1º1,1''N 1º1,1''E"),
        attr("Latitude", "41.5 N"),
        attr("latitude", "12"),
        attr("Longitude", "2.8 E"),
    ];
    let ll = get_lat_lon(&attrs);
    assert_eq!(ll.combined, Some(("41.67042".to_string(), "2.80017".to_string())));
    assert_eq!(ll.latitude, Some("41.5 N".to_string()));
    assert_eq!(ll.longitude, Some("2.8 E".to_string()));
    let none = get_lat_lon(&vec![attr("lat lon", "nowhere")]);
    assert_eq!(none.combined, None);
    assert_eq!(none.latitude, None);
}

#[test]
fn empty_values_resolve_to_nothing() {
    let attrs = vec![attr("Date", ""), attr("depth", ""), attr("lat lon", "")];
    let rec = build_record("S1".to_string(), vec![], &attrs);
    assert!(rec.dates.is_empty());
    assert_eq!(rec.depth, None);
    assert_eq!(rec.lat_lon.combined, None);
    assert_eq!(rec.id, "S1");
}

fn sample(ids: Vec<DocNode>, rest: Vec<DocNode>) -> DocNode {
    let mut children = vec![node("IDENTIFIERS", None, ids)];
    children.extend(rest);
    node("SAMPLE", None, children)
}

fn attribute(tag: &str, value: &str) -> DocNode {
    node(
        "SAMPLE_ATTRIBUTE",
        None,
        vec![node("TAG", Some(tag), vec![]), node("VALUE", Some(value), vec![]), node("UNITS", Some("m"), vec![])],
    )
}

#[test]
fn missing_parts_are_named() {
    let no_ids = node("SAMPLE", None, vec![]);
    assert_eq!(get_primary_id(&no_ids).unwrap_err(), ExtractError::MissingIdentifiers);
    let no_pid = sample(vec![], vec![]);
    assert_eq!(get_primary_id(&no_pid).unwrap_err(), ExtractError::MissingPrimaryId);
    let no_value = sample(vec![node("PRIMARY_ID", None, vec![])], vec![]);
    assert_eq!(get_primary_id(&no_value).unwrap_err(), ExtractError::MissingPrimaryIdValue);
    let no_attrs = sample(vec![node("PRIMARY_ID", Some("ERS1"), vec![])], vec![]);
    assert_eq!(parse_xml(&no_attrs).unwrap_err(), ExtractError::MissingAttributes);
    assert_eq!(get_attributes(&no_attrs, None).unwrap_err(), ExtractError::MissingAttributes);
    assert_eq!(ExtractError::MissingAttributes.message(), "Missing SAMPLE_ATTRIBUTES");
}

#[test]
fn a_whole_document_resolves() {
    let link = |db: &str, id: &str| {
        node(
            "SAMPLE_LINK",
            None,
            vec![node("XREF_LINK", None, vec![node("DB", Some(db), vec![]), node("ID", Some(id), vec![])])],
        )
    };
    let root = sample(
        vec![node("PRIMARY_ID", Some("ERS494529"), vec![])],
        vec![
            node("SAMPLE_LINKS", None, vec![link("ENA-RUN", "ERR1,ERR2"), link("ENA-STUDY", "PRJ1"), link("ENA-RUN", "ERR3")]),
            node(
                "SAMPLE_ATTRIBUTES",
                None,
                vec![
                    attribute("ENA-FIRST-PUBLIC", "2015-01-01"),
                    attribute("Event Date/Time", "2012-03-09T08:59"),
                    attribute("geographic location (depth)", "5"),
                    attribute("geographic location (latitude and longitude)", "41º40,13.5''N 2º48'00.6''E"),
                ],
            ),
        ],
    );
    assert_eq!(get_runs(&root), vec!["ERR1", "ERR2", "ERR3"]);
    let attrs = get_attributes(&root, Some("ENA-")).unwrap();
    assert_eq!(attrs.len(), 3);
    assert_eq!(attrs[0].units, Some("m".to_string()));
    let rec = parse_xml(&root).unwrap();
    assert_eq!(rec.id, "ERS494529");
    assert_eq!(rec.runs, vec!["ERR1", "ERR2", "ERR3"]);
    assert_eq!(rec.dates.len(), 1);
    assert!(rec.dates[0].tag_ok);
    assert_eq!(rec.dates[0].value, ts(2012, 3, 9, 8, 59, 0));
    assert_eq!(rec.depth, Some(Meters { mantissa: 5, scale: 0 }));
    assert_eq!(rec.lat_lon.combined, Some(("41.67042".to_string(), "2.80017".to_string())));
}

#[test]
fn run_ids_split_on_every_comma() {
    let root = node(
        "SAMPLE",
        None,
        vec![node(
            "SAMPLE_LINKS",
            None,
            vec![node(
                "SAMPLE_LINK",
                None,
                vec![node("XREF_LINK", None, vec![node("DB", Some("ENA-RUN"), vec![]), node("ID", Some("A,,B"), vec![])])],
            )],
        )],
    );
    assert_eq!(get_runs(&root), vec!["A", "", "B"]);
    assert!(get_runs(&node("SAMPLE", None, vec![])).is_empty());
}
