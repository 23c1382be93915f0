use mextract::coords::{dms2decimal, parse_lat_lon_combined};
use mextract::dates::{month_to_int, parse_datetime};
use mextract::depth::{parse_depth, Meters};
use mextract::record::{parse_xml, DocNode};

fn node(name: &str, text: Option<&str>, children: Vec<DocNode>) -> DocNode {
    DocNode { name: name.to_string(), text: text.map(|t| t.to_string()), children }
}

fn meters(m: Option<Meters>) -> Option<f64> {
    m.map(|m| m.mantissa as f64 / 10f64.powi(m.scale as i32))
}

#[test]
fn fails_no_id() {
    let root = node(
        "SAMPLE",
        None,
        vec![node(
            "IDENTIFIERS",
            None,
            vec![
                node("EXTERNAL_ID", Some("SAMEA2623861"), vec![]),
                node("SUBMITTER_ID", Some("TARA_N000002741"), vec![]),
            ],
        )],
    );
    println!("{:?}", root);

    let res = parse_xml(&root);
    assert!(res.is_err());
}

#[test]
fn fails_no_attributres() {
    let root = node(
        "SAMPLE",
        None,
        vec![
            node(
                "IDENTIFIERS",
                None,
                vec![
                    node("PRIMARY_ID", Some("ERS494529"), vec![]),
                    node("EXTERNAL_ID", Some("SAMEA2623861"), vec![]),
                    node("SUBMITTER_ID", Some("TARA_N000002741"), vec![]),
                ],
            ),
            node(
                "TITLE",
                Some("TARA_20120309T0859Z_151_EVENT_PUMP_P_S_(5 m)_PROT_NUC-RNA(100L)_W0.8-5_TARA_N000002741"),
                vec![],
            ),
            node(
                "SAMPLE_NAME",
                None,
                vec![
                    node("TAXON_ID", Some("408172"), vec![]),
                    node("SCIENTIFIC_NAME", Some("marine metagenome"), vec![]),
                ],
            ),
        ],
    );
    println!("{:?}", root);

    let res = parse_xml(&root);
    assert!(res.is_err());
}

#[test]
fn test_parse_datetime() {
    let vs = vec![
        "2012-03-09T08:59",
        "2012-03-09T08:59:03",
        "2017-06-16Z",
        "2015-01",
        "2015-01/2015-02",
        "2015-01-03/2015-02-14",
        "20100910",
        "12/06",
        "2/14",
        "2/14-12/15",
        "2017-06-16Z",
        "34210",
        "Dec-2015",
        "March-2017",
        "May, 2017",
        "March-April 2017",
        "July of 2011",
        "2008 August",
    ];

    for v in vs {
        let d = parse_datetime(v);
        println!("v = {} : {:?}", v, d);
        assert!(d.is_some());
    }
}

#[test]
fn test_month_to_int() {
    assert_eq!(month_to_int("nov"), Some(11));
    assert_eq!(month_to_int("JANUARY"), Some(1));
    assert_eq!(month_to_int("Jun"), Some(6));
    assert_eq!(month_to_int("foo"), None);
}

#[test]
fn test_parse_depth() {
    assert_eq!(meters(parse_depth("abc")), None);
    assert_eq!(meters(parse_depth("5")), Some(5.));
    assert_eq!(meters(parse_depth("5.0")), Some(5.));
    assert_eq!(meters(parse_depth("5 m")), Some(5.));
    assert_eq!(meters(parse_depth(".5 meter")), Some(0.5));
    assert_eq!(meters(parse_depth("0.5 meters")), Some(0.5));
    assert_eq!(meters(parse_depth("5meters")), Some(5.));
    assert_eq!(meters(parse_depth("5m")), Some(5.));
    assert_eq!(meters(parse_depth("5 cm")), Some(0.05));
    assert_eq!(meters(parse_depth("5cm")), Some(0.05));
    assert_eq!(meters(parse_depth("5. centimeters")), Some(0.05));
    assert_eq!(meters(parse_depth("5centimeters")), Some(0.05));
    assert_eq!(meters(parse_depth("5 mm")), Some(0.005));
    assert_eq!(meters(parse_depth("5mm")), Some(0.005));
    assert_eq!(meters(parse_depth("5 millimeter")), Some(0.005));
    assert_eq!(meters(parse_depth("0.005m")), Some(0.005));
    assert_eq!(meters(parse_depth("5millimeters")), Some(0.005));
}

#[test]
fn test_dms2decimal() {
    assert_eq!(dms2decimal("41", "40", "13.5", &false), Some("41.67042".to_string()));
    assert_eq!(dms2decimal("2", "48", "0.6", &false), Some("2.80017".to_string()));
}

#[test]
fn test_parse_lat_lon_combined() {
    assert_eq!(
        parse_lat_lon_combined("41º40,13.5''N 2º48'00.6''E"),
        Some(("41.67042".to_string(), "2.80017".to_string()))
    );
}
