use tesseract::compiler::SchemaError;
use tesseract::names::{Cut, Drilldown, LevelName, Mask, Measure, Property};
use tesseract::query::{
    Calculation, Comparison, Constraint, FilterQuery, GrowthQuery, MeaOrCalc, Query, RateQuery,
    RcaQuery, SortDirection, SortQuery, TopQuery,
};
use tesseract::schema::{
    Aggregator, Cube, Dimension, Hierarchy, InlineColumn, InlineTable, Level, MeasureDef,
    MemberType, PropertyDef, Schema, Table,
};
use tesseract::sql::standard_sql;

fn table(name: &str) -> Table {
    Table { name: name.to_string(), schema: None, primary_key: None }
}

fn level(name: &str, key: &str, label: Option<&str>, key_type: MemberType) -> Level {
    Level {
        name: name.to_string(),
        key_column: key.to_string(),
        name_column: label.map(|l| l.to_string()),
        key_type,
        properties: vec![],
    }
}

fn dimension(name: &str, fk: &str, table_name: &str, pk: &str, levels: Vec<Level>) -> Dimension {
    Dimension {
        name: name.to_string(),
        foreign_key: fk.to_string(),
        hierarchies: vec![Hierarchy {
            name: name.to_string(),
            table: table(table_name),
            primary_key: pk.to_string(),
            inline_table: None,
            levels,
        }],
    }
}

/// A fact table `sales(year_id, geo_id, product_id, val)` with a `geo(id, name)`
/// dimension, a year level on the fact table and a product dimension.
fn schema() -> Schema {
    let mut state = level("State", "id", Some("name"), MemberType::Text);
    state.properties.push(PropertyDef { name: "Population".to_string(), column: "pop".to_string() });
    let geo = dimension("Geo", "geo_id", "geo", "id", vec![state]);
    let year = dimension("Year", "year_id", "sales", "year_id", vec![level("Year", "year_id", None, MemberType::NonText)]);
    let product = dimension(
        "Product",
        "product_id",
        "product",
        "product_id",
        vec![
            level("Category", "category_id", Some("category"), MemberType::NonText),
            level("Product", "product_id", Some("product"), MemberType::NonText),
        ],
    );
    Schema {
        name: "test".to_string(),
        cubes: vec![Cube {
            name: "sales".to_string(),
            table: table("sales"),
            dimensions: vec![geo, year, product],
            measures: vec![
                MeasureDef { name: "Sales".to_string(), column: "val".to_string(), aggregator: Aggregator::Sum },
                MeasureDef {
                    name: "Buyers".to_string(),
                    column: "buyer".to_string(),
                    aggregator: Aggregator::DistinctCount,
                },
            ],
        }],
    }
}

fn drilldown_query() -> Query {
    let mut q = Query::new();
    q.drilldowns = vec![Drilldown::new("Geo", "Geo", "State")];
    q.measures = vec![Measure::new("Sales")];
    q
}

#[test]
fn compiles_one_drilldown_one_measure() {
    let (ir, headers) = schema().sql_query("sales", &drilldown_query()).unwrap();
    assert_eq!(headers, vec!["State ID", "State", "Sales"]);
    let sql = standard_sql(&ir);
    assert_eq!(
        sql,
        "select id_0 as \"State ID\", name_0 as State, Sales as Sales from (\
         select id_0, name_0, sum(val) as Sales from (select * from sales) as fact \
         inner join (select id as id_0, name as name_0, id as geo_id from geo) as dim_0 using (geo_id) \
         group by id_0, name_0) as result order by id_0 asc"
    );
    assert!(sql.contains("group by id_0, name_0"));
    assert!(sql.contains("sum(val) as Sales"));
}

#[test]
fn headers_match_select_columns() {
    let mut q = drilldown_query();
    q.drilldowns.push(Drilldown::new("Product", "Product", "Product"));
    q.parents = true;
    q.measures.push(Measure::new("Buyers"));
    let (ir, headers) = schema().sql_query("sales", &q).unwrap();
    assert_eq!(
        headers,
        vec!["State ID", "State", "Category ID", "Category", "Product ID", "Product", "Sales", "Buyers"]
    );
    let sql = standard_sql(&ir);
    let select = sql.split(" from ").next().unwrap();
    assert_eq!(
        select,
        "select id_0 as \"State ID\", name_0 as State, category_id_1 as \"Category ID\", category_1 as Category, \
         product_id_1 as \"Product ID\", product_1 as Product, Sales as Sales, Buyers as Buyers"
    );
    assert!(sql.contains("sum(val) as Sales, count(distinct buyer) as Buyers from"));
    assert!(sql.ends_with("order by id_0 asc, category_id_1 asc, product_id_1 asc"));
}

#[test]
fn cuts_go_to_the_fact_scan() {
    let mut q = drilldown_query();
    q.cuts.push(Cut::parse("Geo.State:01,02").unwrap());
    q.cuts.push(Cut::parse("Year.Year:~2016").unwrap());
    let (ir, _) = schema().sql_query("sales", &q).unwrap();
    let sql = standard_sql(&ir);
    assert!(sql.contains(
        "(select * from sales where geo_id in (select id from geo where id in ('01', '02')) and year_id not in (2016)) as fact"
    ));
}

#[test]
fn same_cut_twice_gives_same_condition() {
    let mut q = drilldown_query();
    q.cuts.push(Cut::parse("Year.Year:2017").unwrap());
    q.cuts.push(Cut::parse("Year.Year:2017").unwrap());
    let sql = standard_sql(&schema().sql_query("sales", &q).unwrap().0);
    assert!(sql.contains("where year_id in (2017) and year_id in (2017)"));
}

#[test]
fn matching_cut_uses_like() {
    let mut q = drilldown_query();
    let mut cut = Cut::parse("Geo.State:ab,cd").unwrap();
    cut.for_match = true;
    q.cuts.push(cut);
    let sql = standard_sql(&schema().sql_query("sales", &q).unwrap().0);
    assert!(sql.contains("where (id like '%ab%' or id like '%cd%')"));
}

#[test]
fn sort_and_limit() {
    let mut q = drilldown_query();
    q.sort = Some(SortQuery::parse("Sales.desc").unwrap());
    q.limit = Some(tesseract::query::LimitQuery { offset: Some(20), n: 10 });
    let sql = standard_sql(&schema().sql_query("sales", &q).unwrap().0);
    assert!(sql.ends_with("group by id_0, name_0) as result order by Sales desc limit 10 offset 20"));
}

#[test]
fn top_ranks_within_groups() {
    let mut q = drilldown_query();
    q.drilldowns.push(Drilldown::new("Year", "Year", "Year"));
    q.top = Some(TopQuery::parse("3,Year.Year,Sales,desc").unwrap());
    q.top_where = Some(tesseract::query::TopWhereQuery::parse("Sales,gt.10").unwrap());
    let sql = standard_sql(&schema().sql_query("sales", &q).unwrap().0);
    assert!(sql.contains("select id_0, name_0, year_id_1, Sales from (select *, row_number() over (partition by year_id_1 order by Sales desc) as top_rank from ("));
    assert!(sql.contains(") as top_base where Sales > 10) as top_ranked where top_rank <= 3"));
}

#[test]
fn rca_ranking_orders_by_rca() {
    let mut q = Query::new();
    q.drilldowns = vec![Drilldown::new("Year", "Year", "Year")];
    q.measures = vec![Measure::new("Sales")];
    q.rca = Some(RcaQuery::parse("Geo.State,Product.Product,Sales").unwrap());
    q.top = Some(TopQuery::new(
        5,
        LevelName::new("Geo", "Geo", "State"),
        vec![MeaOrCalc::parse("rca").unwrap()],
        SortDirection::Desc,
    ));
    let (ir, headers) = schema().sql_query("sales", &q).unwrap();
    assert_eq!(headers, vec!["Year", "State ID", "State", "Product ID", "Product", "Sales", "rca"]);
    let sql = standard_sql(&ir);
    assert!(sql.contains("row_number() over (partition by id_1 order by rca desc)"));
    assert!(sql.contains(
        "((rca_measure / sum(rca_measure) over (partition by id_1, year_id_0)) / (sum(rca_measure) over (partition by product_id_2, year_id_0) / sum(rca_measure) over (partition by year_id_0))) as rca"
    ));
}

#[test]
fn growth_lags_along_time() {
    let mut q = drilldown_query();
    q.drilldowns.push(Drilldown::new("Year", "Year", "Year"));
    q.growth = Some(GrowthQuery::new("Year", "Year", "Year", "Sales"));
    q.filters.push(FilterQuery::parse("growth,gt.0").unwrap());
    let (ir, headers) = schema().sql_query("sales", &q).unwrap();
    assert_eq!(headers.last().unwrap(), "growth");
    let sql = standard_sql(&ir);
    assert!(sql.contains(
        "(Sales - lag(Sales) over (partition by id_0 order by year_id_1)) / lag(Sales) over (partition by id_0 order by year_id_1) as growth"
    ));
    assert!(sql.contains(") as filtered where (growth > 0)"));
}

#[test]
fn properties_follow_the_level_columns() {
    let mut q = drilldown_query();
    q.properties.push(Property::parse("Geo.State.Population").unwrap());
    let (ir, headers) = schema().sql_query("sales", &q).unwrap();
    assert_eq!(headers, vec!["State ID", "State", "Population", "Sales"]);
    let sql = standard_sql(&ir);
    assert!(sql.starts_with("select id_0 as \"State ID\", name_0 as State, pop as Population, Sales as Sales from (select id_0, name_0, pop, sum(val) as Sales"));
    assert!(sql.contains("select id as id_0, name as name_0, pop, id as geo_id from geo"));
}

#[test]
fn compile_errors() {
    let s = schema();
    assert_eq!(s.sql_query("nope", &drilldown_query()).unwrap_err(), SchemaError::CubeNotFound);

    let mut q = drilldown_query();
    q.drilldowns.push(Drilldown::new("Geo", "Geo", "City"));
    assert_eq!(s.sql_query("sales", &q).unwrap_err(), SchemaError::LevelNotFound);

    let mut q = drilldown_query();
    q.cuts.push(Cut::new(LevelName::new("Geo", "Geo", "Town"), vec!["1".to_string()], Mask::Include, false));
    assert_eq!(s.sql_query("sales", &q).unwrap_err(), SchemaError::LevelNotFound);

    let mut q = drilldown_query();
    q.measures.push(Measure::new("Profit"));
    assert_eq!(s.sql_query("sales", &q).unwrap_err(), SchemaError::MeasureNotFound);

    let mut q = drilldown_query();
    q.measures.push(Measure::new("Sales"));
    assert_eq!(s.sql_query("sales", &q).unwrap_err(), SchemaError::AmbiguousName);

    let mut q = drilldown_query();
    q.properties.push(Property::parse("Geo.State.Area").unwrap());
    assert_eq!(s.sql_query("sales", &q).unwrap_err(), SchemaError::PropertyNotFound);

    let mut q = drilldown_query();
    q.sort = Some(SortQuery::parse("Buyers.asc").unwrap());
    assert_eq!(s.sql_query("sales", &q).unwrap_err(), SchemaError::MeasureNotFound);

    let mut q = drilldown_query();
    q.growth = Some(GrowthQuery::new("Year", "Year", "Year", "Sales"));
    assert_eq!(s.sql_query("sales", &q).unwrap_err(), SchemaError::InvalidGrowth);

    let mut q = drilldown_query();
    q.rca = Some(RcaQuery::new("Geo", "Geo", "State", "Product", "Product", "Product", "Sales"));
    assert_eq!(s.sql_query("sales", &q).unwrap_err(), SchemaError::InvalidRca);

    let mut q = drilldown_query();
    q.rate = Some(RateQuery::parse("Geo.County.01").unwrap());
    assert_eq!(s.sql_query("sales", &q).unwrap_err(), SchemaError::InvalidRate);

    let mut q = drilldown_query();
    q.measures.clear();
    q.rate = Some(RateQuery::parse("Geo.State.01").unwrap());
    assert_eq!(s.sql_query("sales", &q).unwrap_err(), SchemaError::InvalidRate);

    let mut q = drilldown_query();
    q.filters.push(FilterQuery {
        by_mea_or_calc: MeaOrCalc::Calc(Calculation::Rca),
        constraint: Constraint { comparison: Comparison::Equal, n: 1 },
    });
    assert_eq!(s.sql_query("sales", &q).unwrap_err(), SchemaError::MeasureNotFound);
}

#[test]
fn members_of_a_level() {
    let s = schema();
    let (sql, headers) = s.members_sql("sales", &LevelName::new("Geo", "Geo", "State")).unwrap();
    assert_eq!(sql, "select distinct id, name from geo order by id");
    assert_eq!(headers, vec!["State ID", "State"]);
    let (sql, headers) = s.members_sql("sales", &LevelName::new("Year", "Year", "Year")).unwrap();
    assert_eq!(sql, "select distinct year_id from sales order by year_id");
    assert_eq!(headers, vec!["Year"]);
    assert_eq!(s.members_sql("sales", &LevelName::new("Geo", "Geo", "X")).unwrap_err(), SchemaError::LevelNotFound);
    assert_eq!(s.members_sql("x", &LevelName::new("Geo", "Geo", "State")).unwrap_err(), SchemaError::CubeNotFound);
}

#[test]
fn inline_table_replaces_the_dimension_table() {
    let mut s = schema();
    s.cubes[0].dimensions[0].hierarchies[0].inline_table = Some(InlineTable {
        alias: "geo_inline".to_string(),
        column_definitions: vec![
            InlineColumn { name: "id".to_string(), key_type: MemberType::Text },
            InlineColumn { name: "name".to_string(), key_type: MemberType::Text },
        ],
        rows: vec![
            vec!["01".to_string(), "Alabama".to_string()],
            vec!["02".to_string(), "Alaska".to_string()],
        ],
    });
    let (sql, _) = s.members_sql("sales", &LevelName::new("Geo", "Geo", "State")).unwrap();
    assert_eq!(
        sql,
        "select distinct id, name from (select '01' as id, 'Alabama' as name union all select '02' as id, 'Alaska' as name) as geo_inline order by id"
    );
}

#[test]
fn select_aliases_are_distinct() {
    let mut q = drilldown_query();
    q.drilldowns.push(Drilldown::new("Product", "Product", "Product"));
    q.drilldowns.push(Drilldown::new("Year", "Year", "Year"));
    q.parents = true;
    q.measures.push(Measure::new("Buyers"));
    let (ir, _) = schema().sql_query("sales", &q).unwrap();
    let sql = standard_sql(&ir);
    let list = sql.strip_prefix("select ").unwrap().split(" from ").next().unwrap();
    let names: Vec<&str> = list.split(", ").map(|item| item.rsplit(" as ").next().unwrap()).collect();
    let mut sorted = names.clone();
    sorted.sort();
    sorted.dedup();
    assert_eq!(sorted.len(), names.len());
}

#[test]
fn swapped_cuts_give_the_same_conditions() {
    let mut q1 = drilldown_query();
    q1.cuts.push(Cut::parse("Geo.State:01").unwrap());
    q1.cuts.push(Cut::parse("Year.Year:~2016").unwrap());
    let mut q2 = drilldown_query();
    q2.cuts.push(Cut::parse("Year.Year:~2016").unwrap());
    q2.cuts.push(Cut::parse("Geo.State:01").unwrap());
    let s1 = standard_sql(&schema().sql_query("sales", &q1).unwrap().0);
    let s2 = standard_sql(&schema().sql_query("sales", &q2).unwrap().0);
    let conditions = |s: &str| {
        let start = s.find(" where ").unwrap() + 7;
        let end = s.find(") as fact").unwrap();
        let mut c: Vec<String> = s[start..end].split(" and ").map(|x| x.to_string()).collect();
        c.sort();
        c
    };
    assert_ne!(s1, s2);
    assert_eq!(conditions(&s1), conditions(&s2));
}

#[test]
fn explicit_sort_replaces_default_order() {
    let mut q = drilldown_query();
    q.sort = Some(SortQuery::parse("Sales.asc").unwrap());
    let sql = standard_sql(&schema().sql_query("sales", &q).unwrap().0);
    assert!(sql.ends_with(" order by Sales asc"));
    assert!(!sql.contains("id_0 asc"));
}

#[test]
fn rate_shares_the_pinned_members() {
    let mut q = Query::new();
    q.drilldowns = vec![Drilldown::new("Year", "Year", "Year")];
    q.measures = vec![Measure::new("Sales")];
    q.rate = Some(RateQuery::parse("Geo.State.01,02").unwrap());
    let (ir, headers) = schema().sql_query("sales", &q).unwrap();
    assert_eq!(headers, vec!["Year", "Sales", "rate"]);
    let sql = standard_sql(&ir);
    assert_eq!(
        sql,
        "select year_id_0 as Year, Sales as Sales, rate as \"rate\" from (\
         select year_id_0, sum(val) as Sales, sum(case when id_3 in ('01', '02') then val else 0 end) / sum(val) as rate \
         from (select * from sales) as fact \
         inner join (select year_id as year_id_0, year_id as year_id from sales) as dim_0 using (year_id) \
         inner join (select id as id_3, name as name_3, id as geo_id from geo) as dim_1 using (geo_id) \
         group by year_id_0) as result order by year_id_0 asc"
    );
}

#[test]
fn cube_metadata_names_everything() {
    let s = schema();
    let m = s.cube_metadata("sales").unwrap();
    assert_eq!(m.name, "sales");
    let dims: Vec<&str> = m.dimensions.iter().map(|d| d.name.as_str()).collect();
    assert_eq!(dims, vec!["Geo", "Year", "Product"]);
    let product_levels: Vec<&str> = m.dimensions[2].hierarchies[0].levels.iter().map(|l| l.name.as_str()).collect();
    assert_eq!(product_levels, vec!["Category", "Product"]);
    assert_eq!(m.dimensions[0].hierarchies[0].levels[0].properties, vec!["Population".to_string()]);
    assert_eq!(m.measures.len(), 2);
    assert_eq!(m.measures[1].name, "Buyers");
    assert!(matches!(m.measures[1].aggregator, Aggregator::DistinctCount));
    assert!(s.cube_metadata("other").is_none());
}

#[test]
fn short_names_and_their_uniqueness() {
    let mut s = schema();
    assert_eq!(
        s.cubes[0].short_names(),
        vec!["State", "Population", "Year", "Category", "Product"]
    );
    assert!(s.cubes[0].has_unique_levels_and_properties());
    s.cubes[0].dimensions[2].hierarchies[0].levels[0]
        .properties
        .push(PropertyDef { name: "Year".to_string(), column: "y".to_string() });
    assert!(!s.cubes[0].has_unique_levels_and_properties());
}

#[test]
fn well_formed_schemas() {
    let mut s = schema();
    assert!(s.is_wf());
    // two levels of one hierarchy on the same key column would give equal aliases
    s.cubes[0].dimensions[2].hierarchies[0].levels[1].key_column = "category_id".to_string();
    assert!(!s.is_wf());
    let mut s = schema();
    s.cubes[0].dimensions[1].name = "Geo".to_string();
    assert!(!s.is_wf());
    let mut s = schema();
    s.cubes[0].dimensions[0].hierarchies[0].levels.clear();
    assert!(!s.is_wf());
    let mut s = schema();
    s.cubes[0].measures[1].name = "Sales".to_string();
    assert!(!s.is_wf());
    let mut s = schema();
    s.cubes[0].dimensions[0].hierarchies[0].inline_table = Some(InlineTable {
        alias: "t".to_string(),
        column_definitions: vec![InlineColumn { name: "id".to_string(), key_type: MemberType::Text }],
        rows: vec![vec!["1".to_string(), "2".to_string()]],
    });
    assert!(!s.is_wf());
}

#[test]
fn measure_names_that_need_quotes() {
    let mut s = schema();
    s.cubes[0].measures[1].name = "Total Buyers".to_string();
    s.cubes[0].measures.push(MeasureDef { name: "rate".to_string(), column: "r".to_string(), aggregator: Aggregator::Max });
    let mut q = drilldown_query();
    q.measures.push(Measure::new("Total Buyers"));
    q.measures.push(Measure::new("rate"));
    let (ir, headers) = s.sql_query("sales", &q).unwrap();
    assert_eq!(headers, vec!["State ID", "State", "Sales", "Total Buyers", "rate"]);
    let sql = standard_sql(&ir);
    assert!(sql.contains("count(distinct buyer) as \"Total Buyers\", max(r) as \"rate\" from"));
    assert!(sql.starts_with("select id_0 as \"State ID\", name_0 as State, Sales as Sales, \"Total Buyers\" as \"Total Buyers\", \"rate\" as \"rate\" from"));
}
