use tesseract::error::TokenKind;
use tesseract::names::{Cut, Drilldown, LevelName, Mask, Measure, Property};
use tesseract::text::{parse_i64, parse_u64, split_str};

#[test]
fn cut_with_members_parses() {
    let cut = Cut::parse("Geo.State:01,02,03").unwrap();
    assert_eq!(cut.level_name, LevelName::new("Geo", "Geo", "State"));
    assert_eq!(cut.members, vec!["01".to_string(), "02".to_string(), "03".to_string()]);
    assert_eq!(cut.mask, Mask::Include);
    assert!(!cut.for_match);
}

#[test]
fn cut_with_tilde_excludes() {
    let cut = Cut::parse("Geo.Geo.State:~04").unwrap();
    assert_eq!(cut.mask, Mask::Exclude);
    assert_eq!(cut.members, vec!["04".to_string()]);
    assert_eq!(cut.to_string(), "Geo.Geo.State:~04");
}

#[test]
fn cut_round_trip() {
    let text = "Time.Time.Year:2016,2017";
    assert_eq!(Cut::parse(text).unwrap().to_string(), text);
}

#[test]
fn cut_without_colon_is_refused() {
    let err = Cut::parse("Geo.State").unwrap_err();
    assert_eq!(err.kind, TokenKind::Cut);
    assert_eq!(err.token, "Geo.State");
    assert!(Cut::parse("Geo.State:1:2").is_err());
}

#[test]
fn level_name_two_and_three_segments() {
    let two = LevelName::parse("Geo.State").unwrap();
    assert_eq!(two, LevelName::new("Geo", "Geo", "State"));
    let three = LevelName::parse("Date.Fiscal.Year").unwrap();
    assert_eq!(three.hierarchy, "Fiscal");
    assert_eq!(three.to_string(), "Date.Fiscal.Year");
}

#[test]
fn level_name_refuses_other_shapes() {
    assert_eq!(LevelName::parse("Geo").unwrap_err().kind, TokenKind::LevelName);
    assert!(LevelName::parse("a.b.c.d").is_err());
    assert!(LevelName::parse("Geo..State").is_err());
    assert!(LevelName::parse("").is_err());
}

#[test]
fn drilldown_parses_as_level() {
    let d = Drilldown::parse("Geo.State").unwrap();
    assert_eq!(d, Drilldown::new("Geo", "Geo", "State"));
    assert_eq!(d.to_string(), "Geo.Geo.State");
}

#[test]
fn measure_refuses_dots_and_empty() {
    assert_eq!(Measure::parse("Sales").unwrap(), Measure::new("Sales"));
    assert_eq!(Measure::parse("Sales.Total").unwrap_err().kind, TokenKind::Measure);
    assert!(Measure::parse("").is_err());
}

#[test]
fn property_parses_after_level() {
    let p = Property::parse("Geo.State.Population").unwrap();
    assert_eq!(p.level_name, LevelName::new("Geo", "Geo", "State"));
    assert_eq!(p.property, "Population");
    assert_eq!(p.to_string(), "Geo.Geo.State.Population");
    let q = Property::parse("Geo.Geo.State.Population").unwrap();
    assert_eq!(p, q);
    assert!(Property::parse("Geo.State").is_err());
}

#[test]
fn split_keeps_empty_pieces() {
    assert_eq!(split_str("a,,b", ','), vec!["a".to_string(), String::new(), "b".to_string()]);
    assert_eq!(split_str("", ','), vec![String::new()]);
}

#[test]
fn numbers_parse_as_std_does() {
    assert_eq!(parse_u64("18446744073709551615"), Some(u64::MAX));
    assert_eq!(parse_u64("18446744073709551616"), None);
    assert_eq!(parse_u64("+7"), Some(7));
    assert_eq!(parse_u64("-7"), None);
    assert_eq!(parse_u64("+"), None);
    assert_eq!(parse_i64("-9223372036854775808"), Some(i64::MIN));
    assert_eq!(parse_i64("9223372036854775808"), None);
    assert_eq!(parse_i64("-12"), Some(-12));
    assert_eq!(parse_i64("1x"), None);
}
