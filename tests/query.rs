use tesseract::error::{TokenKind, ValidationError};
use tesseract::names::{Drilldown, LevelName, Measure};
use tesseract::query::{
    Calculation, Comparison, Constraint, FilterQuery, GrowthQuery, LimitQuery, MeaOrCalc, Operator,
    Query, RateQuery, RcaQuery, SortDirection, SortQuery, TopQuery, TopWhereQuery,
};
use tesseract::request::AggregateQueryOpt;

#[test]
fn test_validate() {
    let mut q = Query::new();
    assert!(q.validate().is_ok());

    let drilldown = Drilldown::new("1", "2", "3");
    let rca = RcaQuery::new("1", "2", "3", "4", "5", "6", "7");

    q.drilldowns = vec![drilldown];
    q.rca = Some(rca);

    assert!(q.validate().is_err());
}

#[test]
fn validate_names_the_duplicate() {
    let mut q = Query::new();
    q.drilldowns = vec![Drilldown::new("Year", "Year", "Year"), Drilldown::new("Geo", "Geo", "State")];
    q.rca = Some(RcaQuery::new("Geo", "Geo", "State", "Product", "Product", "Product", "Sales"));
    let err = q.validate().unwrap_err();
    let ValidationError::DuplicateRcaDrilldown(d) = &err;
    assert_eq!(*d, Drilldown::new("Geo", "Geo", "State"));
    assert!(err.message().contains("Duplicated drilldown in RCA"));
}

#[test]
fn validate_accepts_disjoint_rca() {
    let mut q = Query::new();
    q.drilldowns = vec![Drilldown::new("Year", "Year", "Year")];
    q.rca = Some(RcaQuery::new("Geo", "Geo", "State", "Product", "Product", "Product", "Sales"));
    assert!(q.validate().is_ok());
}

#[test]
fn top_query_parses() {
    let t = TopQuery::parse("5,Geo.State,Sales,desc").unwrap();
    assert_eq!(t.n, 5);
    assert_eq!(t.by_dimension, LevelName::new("Geo", "Geo", "State"));
    assert_eq!(t.sort_mea_or_calc.len(), 1);
    match &t.sort_mea_or_calc[0] {
        MeaOrCalc::Mea(m) => assert_eq!(*m, Measure::new("Sales")),
        MeaOrCalc::Calc(_) => panic!("expected a measure"),
    }
    assert_eq!(t.sort_direction, SortDirection::Desc);
}

#[test]
fn top_query_needs_four_fields() {
    let err = TopQuery::parse("5,Geo.State,Sales").unwrap_err();
    assert_eq!(err.kind, TokenKind::TopQuery);
    assert!(TopQuery::parse("x,Geo.State,Sales,desc").is_err());
    assert!(TopQuery::parse("5,Geo.State,Sales,down").is_err());
}

#[test]
fn top_query_new_keeps_fields() {
    let t = TopQuery::new(3, LevelName::new("a", "b", "c"), vec![MeaOrCalc::Calc(Calculation::Rca)], SortDirection::Asc);
    assert_eq!(t.n, 3);
    assert_eq!(t.sort_direction, SortDirection::Asc);
}

#[test]
fn constraint_parses() {
    let c = Constraint::parse("gt.100").unwrap();
    assert_eq!(c, Constraint { comparison: Comparison::GreaterThan, n: 100 });
    assert_eq!(c.sql_string(), "> 100");
    let neg = Constraint::parse("lte.-5").unwrap();
    assert_eq!(neg.sql_string(), "<= -5");
    assert_eq!(Constraint::parse("gt.1.5").unwrap_err().kind, TokenKind::Constraint);
    assert!(Constraint::parse("big.5").is_err());
}

#[test]
fn comparison_tokens() {
    let cases = [
        ("eq", "="),
        ("neq", "<>"),
        ("lt", "<"),
        ("lte", "<="),
        ("gt", ">"),
        ("gte", ">="),
    ];
    for (token, sql) in cases {
        assert_eq!(Comparison::parse(token).unwrap().sql_string(), sql);
    }
    assert_eq!(Comparison::parse("GT").unwrap_err().kind, TokenKind::Comparison);
}

#[test]
fn sort_direction_is_case_sensitive() {
    assert_eq!(SortDirection::parse("asc").unwrap(), SortDirection::Asc);
    assert_eq!(SortDirection::Desc.sql_string(), "desc");
    assert!(SortDirection::parse("ASC").is_err());
}

#[test]
fn calculation_parses_in_any_case() {
    assert_eq!(Calculation::parse("RCA").unwrap(), Calculation::Rca);
    assert_eq!(Calculation::parse("Growth").unwrap(), Calculation::Growth);
    assert_eq!(Calculation::Growth.sql_string(), "growth");
    assert_eq!(Calculation::from_folded("rca"), Some(Calculation::Rca));
    assert_eq!(Calculation::from_folded("RCA"), None);
    assert!(Calculation::parse("share").is_err());
}

#[test]
fn mea_or_calc_prefers_calculations() {
    match MeaOrCalc::parse("rca").unwrap() {
        MeaOrCalc::Calc(c) => assert_eq!(c, Calculation::Rca),
        MeaOrCalc::Mea(_) => panic!("rca is reserved"),
    }
    match MeaOrCalc::parse("Sales").unwrap() {
        MeaOrCalc::Mea(m) => assert_eq!(m.0, "Sales"),
        MeaOrCalc::Calc(_) => panic!("expected a measure"),
    }
    assert_eq!(MeaOrCalc::parse("a.b").unwrap_err().kind, TokenKind::MeaOrCalc);
}

#[test]
fn limit_query_forms() {
    assert_eq!(LimitQuery::parse("10").unwrap(), LimitQuery { offset: None, n: 10 });
    assert_eq!(LimitQuery::parse("5,10").unwrap(), LimitQuery { offset: Some(5), n: 10 });
    assert!(LimitQuery::parse("1,2,3").is_err());
    assert!(LimitQuery::parse("-1").is_err());
}

#[test]
fn sort_query_parses() {
    let s = SortQuery::parse("Sales.desc").unwrap();
    assert_eq!(s.measure, Measure::new("Sales"));
    assert_eq!(s.direction, SortDirection::Desc);
    assert!(SortQuery::parse("Sales").is_err());
}

#[test]
fn top_where_and_filter_parse() {
    let tw = TopWhereQuery::parse("Sales,gte.10").unwrap();
    assert_eq!(tw.constraint, Constraint { comparison: Comparison::GreaterThanOrEqual, n: 10 });
    let f = FilterQuery::parse("growth,lt.0").unwrap();
    match f.by_mea_or_calc {
        MeaOrCalc::Calc(c) => assert_eq!(c, Calculation::Growth),
        MeaOrCalc::Mea(_) => panic!("growth is reserved"),
    }
    assert_eq!(FilterQuery::parse("Sales").unwrap_err().kind, TokenKind::FilterQuery);
    assert_eq!(TopWhereQuery::parse("Sales,gt").unwrap_err().kind, TokenKind::TopWhereQuery);
}

#[test]
fn rca_and_growth_parse() {
    let r = RcaQuery::parse("Geo.State,Product.Product,Sales").unwrap();
    assert_eq!(r.drill_1, Drilldown::new("Geo", "Geo", "State"));
    assert_eq!(r.drill_2, Drilldown::new("Product", "Product", "Product"));
    assert_eq!(r.mea, Measure::new("Sales"));
    assert!(RcaQuery::parse("Geo.State,Sales").is_err());
    let g = GrowthQuery::parse("Time.Year,Sales").unwrap();
    assert_eq!(g.time_drill, Drilldown::new("Time", "Time", "Year"));
    let g2 = GrowthQuery::new("Time", "Time", "Year", "Sales");
    assert_eq!(g2.mea, Measure::new("Sales"));
}

#[test]
fn rate_query_parses() {
    let r = RateQuery::parse("Geo.State.01,02").unwrap();
    assert_eq!(r.level_name, LevelName::new("Geo", "Geo", "State"));
    assert_eq!(r.values, vec!["01".to_string(), "02".to_string()]);
    let r4 = RateQuery::parse("Geo.Geo.State.01").unwrap();
    assert_eq!(r4.values, vec!["01".to_string()]);
    assert_eq!(RateQuery::parse("Geo.01").unwrap_err().kind, TokenKind::RateQuery);
    assert!(RateQuery::parse("a.b.c.d.e").is_err());
    let built = RateQuery::new(LevelName::new("a", "b", "c"), vec!["x".to_string()]);
    assert_eq!(built.values.len(), 1);
}

#[test]
fn operator_sql() {
    assert_eq!(Operator::And.sql_string(), "and");
    assert_eq!(Operator::Or.sql_string(), "or");
}

fn empty_opts() -> AggregateQueryOpt {
    AggregateQueryOpt {
        drilldowns: None,
        cuts: None,
        measures: None,
        properties: None,
        parents: None,
        top: None,
        top_where: None,
        sort: None,
        limit: None,
        growth: None,
        rca: None,
        rate: None,
        filter: None,
        debug: None,
        sparse: None,
        exclude_default_members: None,
    }
}

#[test]
fn options_read_into_query() {
    let mut o = empty_opts();
    o.drilldowns = Some(vec!["Geo.State".to_string()]);
    o.cuts = Some(vec!["Year.Year:2017".to_string()]);
    o.measures = Some(vec!["Sales".to_string()]);
    o.parents = Some(true);
    o.limit = Some("3".to_string());
    o.filter = Some("Sales,gt.5".to_string());
    let q = o.to_query().unwrap();
    assert_eq!(q.drilldowns, vec![Drilldown::new("Geo", "Geo", "State")]);
    assert_eq!(q.cuts.len(), 1);
    assert_eq!(q.measures, vec![Measure::new("Sales")]);
    assert!(q.parents);
    assert!(!q.debug);
    assert_eq!(q.limit, Some(LimitQuery { offset: None, n: 3 }));
    assert_eq!(q.filters.len(), 1);
}

#[test]
fn options_with_bad_token_fail() {
    let mut o = empty_opts();
    o.measures = Some(vec!["Sales".to_string(), "a.b".to_string()]);
    let err = o.to_query().unwrap_err();
    assert_eq!(err.kind, TokenKind::Measure);
    assert_eq!(err.token, "a.b");
    let mut o2 = empty_opts();
    o2.top = Some("nope".to_string());
    assert_eq!(o2.to_query().unwrap_err().kind, TokenKind::TopQuery);
}

#[test]
fn constraint_token_reads_back() {
    for (token, comparison, n) in [("eq.0", Comparison::Equal, 0), ("neq.-3", Comparison::NotEqual, -3), ("gte.9223372036854775807", Comparison::GreaterThanOrEqual, i64::MAX)] {
        assert_eq!(Constraint::parse(token).unwrap(), Constraint { comparison, n });
    }
}

#[test]
fn mea_or_calc_from_folded_token() {
    match MeaOrCalc::from_folded("Sales", "sales").unwrap() {
        MeaOrCalc::Mea(m) => assert_eq!(m, Measure::new("Sales")),
        MeaOrCalc::Calc(_) => panic!("expected a measure"),
    }
    match MeaOrCalc::from_folded("GROWTH", "growth").unwrap() {
        MeaOrCalc::Calc(c) => assert_eq!(c, Calculation::Growth),
        MeaOrCalc::Mea(_) => panic!("growth is reserved"),
    }
    assert_eq!(MeaOrCalc::from_folded("a.b", "a.b").unwrap_err().kind, TokenKind::MeaOrCalc);
}
