use tesseract::names::Mask;
use tesseract::query::LimitQuery;
use tesseract::query_ir::{dim_subquery, CutSql, DrilldownSql, LevelColumn, LimitSql};
use tesseract::schema::{MemberType, Table};

fn geo_table() -> Table {
    Table { name: "geo".to_string(), schema: Some("public".to_string()), primary_key: None }
}

fn drill() -> DrilldownSql {
    DrilldownSql {
        alias_postfix: "3".to_string(),
        table: geo_table(),
        primary_key: "id".to_string(),
        foreign_key: "geo_id".to_string(),
        level_columns: vec![
            LevelColumn { key_column: "region_id".to_string(), name_column: None },
            LevelColumn { key_column: "state_id".to_string(), name_column: Some("state".to_string()) },
        ],
        property_columns: vec!["pop".to_string(), "area".to_string()],
        inline_table: None,
    }
}

fn cut(member_type: MemberType, mask: Mask) -> CutSql {
    CutSql {
        table: geo_table(),
        primary_key: "id".to_string(),
        foreign_key: "geo_id".to_string(),
        column: "state_id".to_string(),
        members: vec!["a".to_string(), "b".to_string()],
        member_type,
        mask,
        for_match: false,
        inline_table: None,
    }
}

#[test]
fn drilldown_column_lists() {
    let d = drill();
    assert_eq!(
        d.col_alias_string(),
        "region_id as region_id_3, state_id as state_id_3, state as state_3, pop, area"
    );
    assert_eq!(
        d.col_alias_string2(),
        "geo.region_id as region_id_3, geo.state_id as state_id_3, state as state_3, pop, area"
    );
    assert_eq!(d.col_alias_only_string(), "region_id_3, state_id_3, state_3, pop, area");
    assert_eq!(
        d.col_alias_only_vec(),
        vec!["region_id_3", "state_id_3", "state_3", "pop, area"]
    );
    assert_eq!(
        d.col_qual_string(),
        "geo.region_id, geo.state_id, geo.state, geo.pop, geo.area"
    );
}

#[test]
fn cut_member_lists() {
    assert_eq!(cut(MemberType::Text, Mask::Include).members_string(), "'a', 'b'");
    assert_eq!(cut(MemberType::NonText, Mask::Include).members_string(), "a, b");
    assert_eq!(
        cut(MemberType::Text, Mask::Include).members_like_string(),
        "(state_id like '%a%' or state_id like '%b%')"
    );
    assert_eq!(
        cut(MemberType::Text, Mask::Exclude).members_like_string(),
        "state_id not like '%a%' and state_id not like '%b%'"
    );
    assert_eq!(
        cut(MemberType::NonText, Mask::Include).members_like_string(),
        "(state_id like a or state_id like b)"
    );
}

#[test]
fn cut_masks_and_columns() {
    let inc = cut(MemberType::Text, Mask::Include);
    let exc = cut(MemberType::Text, Mask::Exclude);
    assert_eq!(inc.mask_sql_in_string(), "in");
    assert_eq!(exc.mask_sql_in_string(), "not in");
    assert_eq!(inc.mask_sql_like_string(), "like");
    assert_eq!(exc.mask_sql_like_string(), "not like");
    assert_eq!(inc.col_qual_string(), "geo.state_id");
}

#[test]
fn dim_subquery_for_a_drilldown() {
    let d = drill();
    let sub = dim_subquery(Some(&d), None);
    assert_eq!(
        sub.sql,
        "select region_id as region_id_3, state_id as state_id_3, state as state_3, pop, area, id as geo_id from public.geo"
    );
    assert_eq!(sub.foreign_key, "geo_id");
    assert_eq!(sub.dim_cols, Some("region_id_3, state_id_3, state_3, pop, area".to_string()));
}

#[test]
fn dim_subquery_for_a_cut_alone() {
    let c = cut(MemberType::Text, Mask::Include);
    let sub = dim_subquery(None, Some(&c));
    assert_eq!(sub.sql, "select id as geo_id from public.geo where state_id in ('a', 'b')");
    assert_eq!(sub.dim_cols, None);
    let empty = dim_subquery(None, None);
    assert_eq!(empty.sql, "");
    assert_eq!(empty.foreign_key, "");
}

#[test]
fn limit_sql_from_query() {
    let l = LimitSql::from(LimitQuery { offset: Some(2), n: 9 });
    assert_eq!(l, LimitSql { offset: Some(2), n: 9 });
}

#[test]
fn dim_subquery_for_an_excluding_cut() {
    let c = cut(MemberType::NonText, Mask::Exclude);
    let sub = dim_subquery(None, Some(&c));
    assert_eq!(sub.sql, "select id as geo_id from public.geo where state_id not in (a, b)");
    assert_eq!(sub.foreign_key, "geo_id");
}
