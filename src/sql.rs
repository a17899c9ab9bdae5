//! The standard SQL writer: a pure function from the plan to one query string.

use vstd::prelude::*;
use crate::compiler::{
    calc_headers, compiled, cube_pos, lemma_cube_pos, rate_headers, cut_binds, same_inline, growth_ok, rate_ok,
    rca_ok, drill_binds, drill_levels, drill_prop_names, drill_props,
    drills_found, drills_headers, drills_prop_headers, has_cube, headers_spec, level_column_of,
    level_index, levels_headers, measure_names, query_failure, rca_headers,
};
use crate::names::{Drilldown, LevelNameView, Property};
use crate::query::{constraint_sql, sort_direction_token, Operator, Query};
use crate::query_ir::{
    comma_join, dim_subquery, dim_subquery_spec, drill_inline_wf, kw_as, kw_from, kw_select,
    level_aliases, mask_in_spec, postfixed, postfixed_exec, sep_comma, CutSql, DrilldownSql,
    quoted, FilterSql, GrowthSql, LevelColumn, MeasureSql, QueryIr, RateSql, RcaSql, TopSql,
};
use crate::schema::{
    has_level, inline_table_sql, level_matches, table_full_name, Aggregator, Cube, Level, Schema,
};
use crate::text::{
    bare_ident, is_ascii_letter, reserved_word, lemma_ident_injective, cat, decimal, ident, sql_ident, is_digit, join_strings, joined, lemma_decimal, owned, u64_decimal};

verus! {

pub open spec fn lit_and() -> Seq<char> {
    seq![' ', 'a', 'n', 'd', ' ']
}

/// The source of a cut's subquery: its inline table under its alias, or its table.
pub open spec fn cut_source(cs: &CutSql) -> Seq<char> {
    match cs.inline_table {
        Some(it) => seq!['('] + inline_table_sql(&it) + seq![')'] + kw_as() + it.alias@,
        None => table_full_name(&cs.table),
    }
}

/// The test that a cut puts on its level's column.
pub open spec fn cut_test(cs: &CutSql) -> Seq<char> {
    if cs.for_match {
        cs.members_like_spec()
    } else {
        cs.column@ + seq![' '] + mask_in_spec(cs.mask) + seq![' ', '('] + cs.members_spec() + seq![')']
    }
}

/// The condition that a cut puts on the fact table: the test itself where the level
/// lies on the fact table, else a test of the foreign key against the keys of the
/// members that pass.
pub open spec fn cut_fragment(fact: Seq<char>, cs: &CutSql) -> Seq<char> {
    if cs.table.name@ == fact {
        cut_test(cs)
    } else {
        cs.foreign_key@ + seq![' ', 'i', 'n', ' ', '('] + kw_select() + cs.primary_key@ + kw_from()
            + cut_source(cs) + seq![' ', 'w', 'h', 'e', 'r', 'e', ' '] + cut_test(cs) + seq![')']
    }
}

/// The conditions of all cuts, in order.
pub open spec fn cut_fragments(fact: Seq<char>, cuts: Seq<CutSql>) -> Seq<Seq<char>> {
    cuts.map_values(|cs: CutSql| cut_fragment(fact, &cs))
}

/// ` where c1 and c2 ...`, or nothing without cuts.
pub open spec fn where_clause(fact: Seq<char>, cuts: Seq<CutSql>) -> Seq<char> {
    if cuts.len() == 0 {
        Seq::empty()
    } else {
        seq![' ', 'w', 'h', 'e', 'r', 'e', ' '] + joined(cut_fragments(fact, cuts), lit_and())
    }
}

pub open spec fn cut_inline_wf(cs: &CutSql) -> bool {
    match cs.inline_table {
        Some(it) => it.wf(),
        None => true,
    }
}

#[verifier::rlimit(30)]
fn cut_fragment_exec(fact: &str, cs: &CutSql) -> (r: String)
    requires
        cut_inline_wf(cs),
    ensures
        r@ == cut_fragment(fact@, cs),
{
    proof {
        reveal_strlit(" ");
        reveal_strlit(" (");
        reveal_strlit(")");
        reveal_strlit(" in (");
        reveal_strlit("select ");
        reveal_strlit(" from ");
        reveal_strlit(" where ");
        reveal_strlit("(");
        reveal_strlit(") as ");
        assert(" "@ =~= seq![' ']);
        assert(" ("@ =~= seq![' ', '(']);
        assert(")"@ =~= seq![')']);
        assert(" in ("@ =~= seq![' ', 'i', 'n', ' ', '(']);
        assert("select "@ =~= kw_select());
        assert(" from "@ =~= kw_from());
        assert(" where "@ =~= seq![' ', 'w', 'h', 'e', 'r', 'e', ' ']);
        assert("("@ =~= seq!['(']);
        assert(") as "@ =~= seq![')'] + kw_as());
    }
    let test = if cs.for_match {
        cs.members_like_string()
    } else {
        let mut t = cat(cs.column.as_str(), " ");
        t.append(cs.mask_sql_in_string().as_str());
        t.append(" (");
        t.append(cs.members_string().as_str());
        t.append(")");
        proof {
            assert(t@ =~= cut_test(cs));
        }
        t
    };
    if cs.table.name == owned(fact) {
        test
    } else {
        let source = match &cs.inline_table {
            Some(it) => {
                let mut s = owned("(");
                s.append(it.sql_string().as_str());
                s.append(") as ");
                s.append(it.alias.as_str());
                proof {
                    assert(s@ =~= cut_source(cs));
                }
                s
            },
            None => cs.table.full_name(),
        };
        let mut r = cat(cs.foreign_key.as_str(), " in (");
        r.append("select ");
        r.append(cs.primary_key.as_str());
        r.append(" from ");
        r.append(source.as_str());
        r.append(" where ");
        r.append(test.as_str());
        r.append(")");
        proof {
            assert(r@ =~= cut_fragment(fact@, cs));
        }
        r
    }
}

fn where_clause_exec(fact: &str, cuts: &Vec<CutSql>) -> (r: String)
    requires
        forall|k: int| 0 <= k < cuts@.len() ==> cut_inline_wf(#[trigger] &cuts@[k]),
    ensures
        r@ == where_clause(fact@, cuts@),
{
    if cuts.len() == 0 {
        proof {
            reveal_strlit("");
            assert(""@ =~= Seq::<char>::empty());
        }
        return owned("");
    }
    let mut frags: Vec<String> = Vec::new();
    let mut k: usize = 0;
    while k < cuts.len()
        invariant
            forall|k: int| 0 <= k < cuts@.len() ==> cut_inline_wf(#[trigger] &cuts@[k]),
            k <= cuts@.len(),
            frags.deep_view() =~= cut_fragments(fact@, cuts@.take(k as int)),
        decreases cuts@.len() - k,
    {
        let f = cut_fragment_exec(fact, &cuts[k]);
        let ghost prev = frags.deep_view();
        let ghost fv = f@;
        frags.push(f);
        proof {
            assert(cuts@.take(k + 1) =~= cuts@.take(k as int).push(cuts@[k as int]));
            assert(frags.deep_view() =~= prev.push(fv));
        }
        k = k + 1;
    }
    proof {
        assert(cuts@.take(cuts@.len() as int) =~= cuts@);
        reveal_strlit(" where ");
        reveal_strlit(" and ");
        assert(" where "@ =~= seq![' ', 'w', 'h', 'e', 'r', 'e', ' ']);
        assert(" and "@ =~= lit_and());
    }
    let body = join_strings(&frags, " and ");
    cat(" where ", body.as_str())
}


pub open spec fn paren(s: Seq<char>) -> Seq<char> {
    seq!['('] + s + seq![')']
}

/// The aggregate of a measure's column.
pub open spec fn agg_expr(ms: &MeasureSql) -> Seq<char> {
    let c = ms.column@;
    match ms.aggregator {
        Aggregator::Sum => seq!['s', 'u', 'm'] + paren(c),
        Aggregator::Count => seq!['c', 'o', 'u', 'n', 't'] + paren(c),
        Aggregator::Average => seq!['a', 'v', 'g'] + paren(c),
        Aggregator::Max => seq!['m', 'a', 'x'] + paren(c),
        Aggregator::Min => seq!['m', 'i', 'n'] + paren(c),
        Aggregator::DistinctCount => seq!['c', 'o', 'u', 'n', 't'] + paren(
            seq!['d', 'i', 's', 't', 'i', 'n', 'c', 't', ' '] + c,
        ),
        Aggregator::Median => seq!['m', 'e', 'd', 'i', 'a', 'n'] + paren(c),
        Aggregator::BasicWeightedAverage { weight_column } => seq!['s', 'u', 'm'] + paren(
            c + seq![' ', '*', ' '] + weight_column@,
        ) + seq![' ', '/', ' ', 's', 'u', 'm'] + paren(weight_column@),
    }
}

/// The hidden column that carries the RCA's measure.
pub open spec fn rca_measure_name() -> Seq<char> {
    seq!['r', 'c', 'a', '_', 'm', 'e', 'a', 's', 'u', 'r', 'e']
}

fn agg_expr_exec(ms: &MeasureSql) -> (r: String)
    ensures
        r@ == agg_expr(ms),
{
    let c = ms.column.as_str();
    proof {
        reveal_strlit("sum(");
        reveal_strlit("count(");
        reveal_strlit("avg(");
        reveal_strlit("max(");
        reveal_strlit("min(");
        reveal_strlit("count(distinct ");
        reveal_strlit("median(");
        reveal_strlit(")");
        reveal_strlit(" * ");
        reveal_strlit(") / sum(");
        assert("sum("@ =~= seq!['s', 'u', 'm', '(']);
        assert("count("@ =~= seq!['c', 'o', 'u', 'n', 't', '(']);
        assert("avg("@ =~= seq!['a', 'v', 'g', '(']);
        assert("max("@ =~= seq!['m', 'a', 'x', '(']);
        assert("min("@ =~= seq!['m', 'i', 'n', '(']);
        assert("count(distinct "@ =~= seq!['c', 'o', 'u', 'n', 't', '('] + seq!['d', 'i', 's', 't', 'i', 'n', 'c', 't', ' ']);
        assert("median("@ =~= seq!['m', 'e', 'd', 'i', 'a', 'n', '(']);
        assert(")"@ =~= seq![')']);
        assert(" * "@ =~= seq![' ', '*', ' ']);
        assert(") / sum("@ =~= seq![')', ' ', '/', ' ', 's', 'u', 'm', '(']);
    }
    let mut r = match &ms.aggregator {
        Aggregator::Sum => cat("sum(", c),
        Aggregator::Count => cat("count(", c),
        Aggregator::Average => cat("avg(", c),
        Aggregator::Max => cat("max(", c),
        Aggregator::Min => cat("min(", c),
        Aggregator::DistinctCount => cat("count(distinct ", c),
        Aggregator::Median => cat("median(", c),
        Aggregator::BasicWeightedAverage { weight_column } => {
            let mut t = cat("sum(", c);
            t.append(" * ");
            t.append(weight_column.as_str());
            t.append(") / sum(");
            t.append(weight_column.as_str());
            t
        },
    };
    r.append(")");
    proof {
        assert(r@ =~= agg_expr(ms));
    }
    r
}

/// The level aliases of all drilldowns, in order.
pub open spec fn drills_level_aliases(drills: Seq<DrilldownSql>) -> Seq<Seq<char>>
    decreases drills.len(),
{
    if drills.len() == 0 {
        Seq::empty()
    } else {
        drills_level_aliases(drills.drop_last()) + level_aliases(
            drills.last().level_columns@,
            drills.last().alias_postfix@,
        )
    }
}

/// The property columns of all drilldowns, in order.
pub open spec fn drills_properties(drills: Seq<DrilldownSql>) -> Seq<Seq<char>>
    decreases drills.len(),
{
    if drills.len() == 0 {
        Seq::empty()
    } else {
        drills_properties(drills.drop_last()) + drills.last().property_columns.deep_view()
    }
}

/// The key-column aliases of all drilldowns, root to leaf, in order.
pub open spec fn drills_key_aliases(drills: Seq<DrilldownSql>) -> Seq<Seq<char>>
    decreases drills.len(),
{
    if drills.len() == 0 {
        Seq::empty()
    } else {
        let d = drills.last();
        drills_key_aliases(drills.drop_last()) + Seq::new(
            d.level_columns@.len(),
            |i: int| postfixed(d.level_columns@[i].key_column@, d.alias_postfix@),
        )
    }
}

/// `<agg> as m<j>` for each measure.
pub open spec fn measure_items(meas: Seq<MeasureSql>) -> Seq<Seq<char>> {
    Seq::new(meas.len(), |j: int| agg_expr(&meas[j]) + kw_as() + ident(meas[j].name@))
}

/// The names of the measure columns.
pub open spec fn measure_cols(meas: Seq<MeasureSql>) -> Seq<Seq<char>> {
    Seq::new(meas.len(), |j: int| ident(meas[j].name@))
}

/// The drilldowns that the aggregation groups by: the requested ones, then those of
/// the RCA.
pub open spec fn agg_drills(ir: &QueryIr) -> Seq<DrilldownSql> {
    match ir.rca {
        Some(r) => ir.drills@ + r.drill_1@ + r.drill_2@,
        None => ir.drills@,
    }
}

/// The aggregate of the RCA's measure, under its hidden column.
pub open spec fn rca_measure_items(ir: &QueryIr) -> Seq<Seq<char>> {
    match ir.rca {
        Some(r) => seq![agg_expr(&r.mea) + kw_as() + rca_measure_name()],
        None => Seq::empty(),
    }
}

/// The grouping columns: the level aliases, then the property columns.
pub open spec fn group_cols(ir: &QueryIr) -> Seq<Seq<char>> {
    drills_level_aliases(agg_drills(ir)) + drills_properties(agg_drills(ir))
}

/// The items of the aggregating `select`.
pub open spec fn select_items(ir: &QueryIr) -> Seq<Seq<char>> {
    group_cols(ir) + measure_items(ir.meas@) + rca_measure_items(ir) + rate_items(ir)
}

/// The names of the result columns of the aggregation.
pub open spec fn output_names(ir: &QueryIr) -> Seq<Seq<char>> {
    group_cols(ir) + measure_cols(ir.meas@) + rate_names(ir)
}

pub open spec fn rate_name() -> Seq<char> {
    seq!['r', 'a', 't', 'e']
}

/// `sum(case when `
#[verifier::opaque]
pub open spec fn lit_case_when() -> Seq<char> {
    seq!['s', 'u', 'm', '(', 'c', 'a', 's', 'e', ' ', 'w', 'h', 'e', 'n', ' ']
}

/// `) then `
#[verifier::opaque]
pub open spec fn lit_then() -> Seq<char> {
    seq![')', ' ', 't', 'h', 'e', 'n', ' ']
}

/// ` else 0 end) / sum(`
#[verifier::opaque]
pub open spec fn lit_else_end() -> Seq<char> {
    seq![' ', 'e', 'l', 's', 'e', ' ', '0', ' ', 'e', 'n', 'd', ')', ' ', '/', ' ', 's', 'u', 'm', '(']
}

/// The share of the first measure that the pinned members of the rate level make up:
/// `sum(case when <key> in (<members>) then <column> else 0 end) / sum(<column>) as rate`.
pub open spec fn rate_item(ir: &QueryIr, r: &RateSql) -> Seq<char> {
    let d = r.drilldown_sql;
    let key = postfixed(d.level_columns@.last().key_column@, d.alias_postfix@);
    let col = ir.meas@[0].column@;
    lit_case_when() + key + seq![' ', 'i', 'n', ' ', '('] + joined(
        Seq::new(r.members@.len(), |i: int| quoted(r.members@[i]@)),
        sep_comma(),
    ) + lit_then() + col + lit_else_end() + col + seq![')'] + kw_as() + rate_name()
}

pub open spec fn rate_items(ir: &QueryIr) -> Seq<Seq<char>> {
    match ir.rate {
        Some(r) => seq![rate_item(ir, &r)],
        None => Seq::empty(),
    }
}

pub open spec fn rate_names(ir: &QueryIr) -> Seq<Seq<char>> {
    if ir.rate is Some {
        seq![rate_name()]
    } else {
        Seq::empty()
    }
}

/// The join of the rate level, which the aggregation does not group by.
pub open spec fn rate_join(ir: &QueryIr) -> Seq<char> {
    match ir.rate {
        Some(r) => join_clause(&r.drilldown_sql, agg_drills(ir).len()),
        None => Seq::empty(),
    }
}

/// ` inner join (<dimension subquery>) as dim_<k> using (<foreign key>)`.
pub open spec fn join_clause(ds: &DrilldownSql, k: nat) -> Seq<char> {
    seq![' ', 'i', 'n', 'n', 'e', 'r', ' ', 'j', 'o', 'i', 'n', ' '] + paren(
        dim_subquery_spec(Some(ds), None).0,
    ) + kw_as() + seq!['d', 'i', 'm', '_'] + decimal(k) + seq![' ', 'u', 's', 'i', 'n', 'g', ' ']
        + paren(ds.foreign_key@)
}

pub open spec fn joins(drills: Seq<DrilldownSql>) -> Seq<char>
    decreases drills.len(),
{
    if drills.len() == 0 {
        Seq::empty()
    } else {
        joins(drills.drop_last()) + join_clause(&drills.last(), (drills.len() - 1) as nat)
    }
}

pub open spec fn group_by(ir: &QueryIr) -> Seq<char> {
    if agg_drills(ir).len() == 0 {
        Seq::empty()
    } else {
        seq![' ', 'g', 'r', 'o', 'u', 'p', ' ', 'b', 'y', ' '] + joined(group_cols(ir), sep_comma())
    }
}

/// The fact table scan with the cuts.
pub open spec fn fact_scan(ir: &QueryIr) -> Seq<char> {
    kw_select() + seq!['*'] + kw_from() + ir.table.name@ + where_clause(ir.table.name@, ir.cuts@)
}

/// The aggregation of the fact scan joined to the dimension subqueries.
pub open spec fn aggregate_sql(ir: &QueryIr) -> Seq<char> {
    kw_select() + joined(select_items(ir), sep_comma()) + kw_from() + aggregate_rest(ir)
}

/// What follows `from` in the aggregation.
pub open spec fn aggregate_rest(ir: &QueryIr) -> Seq<char> {
    paren(fact_scan(ir)) + kw_as() + seq!['f', 'a', 'c', 't'] + joins(agg_drills(ir)) + rate_join(ir)
        + group_by(ir)
}

/// What the SQL writer needs of a plan: inline tables with one value per column in
/// each row, level columns where a calculation reads them, and one header per result
/// column.
pub open spec fn ir_wf(ir: &QueryIr) -> bool {
    &&& forall|k: int| 0 <= k < ir.cuts@.len() ==> cut_inline_wf(#[trigger] &ir.cuts@[k])
    &&& forall|k: int|
        0 <= k < agg_drills(ir).len() ==> drill_inline_wf(Some(#[trigger] &agg_drills(ir)[k]))
    &&& agg_drills(ir).len() <= usize::MAX
    &&& ir.growth matches Some(g) ==> g.time_drill.level_columns@.len() > 0
    &&& ir.rate matches Some(r) ==> r.drilldown_sql.level_columns@.len() > 0 && ir.meas@.len() > 0
        && drill_inline_wf(Some(&r.drilldown_sql))
    &&& ir.headers@.len() == result_names(ir).len()
}

fn push_all(out: &mut Vec<String>, more: Vec<String>)
    ensures
        final(out).deep_view() == old(out).deep_view() + more.deep_view(),
{
    let mut more = more;
    let ghost a = out.deep_view();
    let ghost b = more.deep_view();
    out.append(&mut more);
    proof {
        assert(final(out).deep_view() =~= a + b);
    }
}

fn agg_drill_count(ir: &QueryIr) -> (r: usize)
    requires
        agg_drills(ir).len() <= usize::MAX,
    ensures
        r == agg_drills(ir).len(),
{
    match &ir.rca {
        Some(rca) => ir.drills.len() + rca.drill_1.len() + rca.drill_2.len(),
        None => ir.drills.len(),
    }
}

fn agg_drill(ir: &QueryIr, i: usize) -> (r: &DrilldownSql)
    requires
        i < agg_drills(ir).len(),
    ensures
        *r == agg_drills(ir)[i as int],
{
    let n = ir.drills.len();
    if i < n {
        &ir.drills[i]
    } else {
        match &ir.rca {
            Some(rca) => {
                let n1 = rca.drill_1.len();
                if i - n < n1 {
                    &rca.drill_1[i - n]
                } else {
                    &rca.drill_2[i - n - n1]
                }
            },
            None => &ir.drills[i],
        }
    }
}

fn group_cols_exec(ir: &QueryIr) -> (r: Vec<String>)
    requires
        agg_drills(ir).len() <= usize::MAX,
    ensures
        r.deep_view() == group_cols(ir),
{
    let ghost all = agg_drills(ir);
    let count = agg_drill_count(ir);
    let mut aliases: Vec<String> = Vec::new();
    let mut props: Vec<String> = Vec::new();
    let mut k: usize = 0;
    while k < count
        invariant
            count == all.len(),
            all == agg_drills(ir),
            k <= count,
            aliases.deep_view() == drills_level_aliases(all.take(k as int)),
            props.deep_view() == drills_properties(all.take(k as int)),
        decreases count - k,
    {
        let d = agg_drill(ir, k);
        proof {
            assert(all.take(k + 1).drop_last() =~= all.take(k as int));
            assert(all.take(k + 1).last() == *d);
        }
        push_all(&mut aliases, d.level_alias_vec());
        let pc = d.property_columns.clone();
        proof {
            assert(pc.deep_view() =~= d.property_columns.deep_view());
        }
        push_all(&mut props, pc);
        k = k + 1;
    }
    proof {
        assert(all.take(all.len() as int) =~= all);
    }
    push_all(&mut aliases, props);
    aliases
}

fn key_aliases_of(drills: &Vec<DrilldownSql>) -> (r: Vec<String>)
    ensures
        r.deep_view() == drills_key_aliases(drills@),
{
    let mut keys: Vec<String> = Vec::new();
    let mut k: usize = 0;
    while k < drills.len()
        invariant
            k <= drills@.len(),
            keys.deep_view() == drills_key_aliases(drills@.take(k as int)),
        decreases drills@.len() - k,
    {
        let d = &drills[k];
        proof {
            assert(drills@.take(k + 1).drop_last() =~= drills@.take(k as int));
            assert(drills@.take(k + 1).last() == *d);
        }
        let ghost before = keys.deep_view();
        let mut i: usize = 0;
        while i < d.level_columns.len()
            invariant
                i <= d.level_columns@.len(),
                keys.deep_view() =~= before + Seq::new(
                    i as nat,
                    |j: int| postfixed(d.level_columns@[j].key_column@, d.alias_postfix@),
                ),
            decreases d.level_columns@.len() - i,
        {
            let a = postfixed_exec(d.level_columns[i].key_column.as_str(), d.alias_postfix.as_str());
            let ghost prev = keys.deep_view();
            let ghost av = a@;
            keys.push(a);
            proof {
                assert(keys.deep_view() =~= prev.push(av));
            }
            i = i + 1;
        }
        k = k + 1;
    }
    proof {
        assert(drills@.take(drills@.len() as int) =~= drills@);
    }
    keys
}

fn measure_items_exec(meas: &Vec<MeasureSql>) -> (r: (Vec<String>, Vec<String>))
    ensures
        r.0.deep_view() == measure_items(meas@),
        r.1.deep_view() == measure_cols(meas@),
{
    let mut items: Vec<String> = Vec::new();
    let mut cols: Vec<String> = Vec::new();
    let mut j: usize = 0;
    while j < meas.len()
        invariant
            j <= meas@.len(),
            items.deep_view() =~= measure_items(meas@.take(j as int)),
            cols.deep_view() =~= measure_cols(meas@.take(j as int)),
        decreases meas@.len() - j,
    {
        proof {
            reveal_strlit(" as ");
            assert(" as "@ =~= kw_as());
        }
        let col = sql_ident(meas[j].name.as_str());
        let mut item = agg_expr_exec(&meas[j]);
        item.append(" as ");
        item.append(col.as_str());
        let ghost prev_i = items.deep_view();
        let ghost prev_c = cols.deep_view();
        let ghost iv = item@;
        let ghost cv = col@;
        items.push(item);
        cols.push(col);
        proof {
            assert(items.deep_view() =~= prev_i.push(iv));
            assert(cols.deep_view() =~= prev_c.push(cv));
            assert(meas@.take(j + 1)[j as int] == meas@[j as int]);
            assert forall|t: int| 0 <= t < j implies meas@.take(j + 1)[t] == meas@.take(j as int)[t] by {}
        }
        j = j + 1;
    }
    proof {
        assert(meas@.take(meas@.len() as int) =~= meas@);
    }
    (items, cols)
}

#[verifier::rlimit(30)]
fn joins_exec(ir: &QueryIr) -> (r: String)
    requires
        ir_wf(ir),
    ensures
        r@ == joins(agg_drills(ir)),
{
    proof {
        reveal_strlit("");
        assert(""@ =~= Seq::<char>::empty());
    }
    let ghost all = agg_drills(ir);
    let count = agg_drill_count(ir);
    let mut r = owned("");
    let mut k: usize = 0;
    while k < count
        invariant
            ir_wf(ir),
            count == all.len(),
            all == agg_drills(ir),
            k <= count,
            r@ == joins(all.take(k as int)),
        decreases count - k,
    {
        proof {
            reveal_strlit(" inner join (");
            reveal_strlit(") as dim_");
            reveal_strlit(" using (");
            reveal_strlit(")");
            assert(" inner join ("@ =~= seq![' ', 'i', 'n', 'n', 'e', 'r', ' ', 'j', 'o', 'i', 'n', ' ', '(']);
            assert(") as dim_"@ =~= seq![')'] + kw_as() + seq!['d', 'i', 'm', '_']);
            assert(" using ("@ =~= seq![' ', 'u', 's', 'i', 'n', 'g', ' ', '(']);
            assert(")"@ =~= seq![')']);
            assert(all.take(k + 1).drop_last() =~= all.take(k as int));
            assert(all.take(k + 1).last() == all[k as int]);
        }
        let d = agg_drill(ir, k);
        proof {
            assert(drill_inline_wf(Some(&all[k as int])));
        }
        let sub = dim_subquery(Some(d), None);
        let ghost prev = r@;
        r.append(" inner join (");
        r.append(sub.sql.as_str());
        r.append(") as dim_");
        r.append(u64_decimal(k as u64).as_str());
        r.append(" using (");
        r.append(d.foreign_key.as_str());
        r.append(")");
        proof {
            assert(r@ =~= prev + join_clause(d, k as nat));
        }
        k = k + 1;
    }
    proof {
        assert(all.take(all.len() as int) =~= all);
    }
    r
}

fn rca_measure_items_exec(ir: &QueryIr) -> (r: Vec<String>)
    ensures
        r.deep_view() == rca_measure_items(ir),
{
    let mut items: Vec<String> = Vec::new();
    if let Some(rca) = &ir.rca {
        proof {
            reveal_strlit(" as rca_measure");
            assert(" as rca_measure"@ =~= kw_as() + rca_measure_name());
        }
        let mut item = agg_expr_exec(&rca.mea);
        item.append(" as rca_measure");
        proof {
            assert(item@ =~= agg_expr(&rca.mea) + kw_as() + rca_measure_name());
        }
        items.push(item);
    }
    proof {
        assert(items.deep_view() =~= rca_measure_items(ir));
    }
    items
}

#[verifier::rlimit(30)]
fn select_items_exec(ir: &QueryIr) -> (r: Vec<String>)
    requires
        ir_wf(ir),
    ensures
        r.deep_view() == select_items(ir),
{
    let groups = group_cols_exec(ir);
    let (items, _) = measure_items_exec(&ir.meas);
    let mut select = groups;
    push_all(&mut select, items);
    push_all(&mut select, rca_measure_items_exec(ir));
    let mut rate_items_v: Vec<String> = Vec::new();
    if let Some(rate) = &ir.rate {
        rate_items_v.push(rate_item_exec(ir, rate));
    }
    proof {
        assert(rate_items_v.deep_view() =~= rate_items(ir));
    }
    push_all(&mut select, rate_items_v);
    select
}

fn fact_scan_exec(ir: &QueryIr) -> (r: String)
    requires
        ir_wf(ir),
    ensures
        r@ == fact_scan(ir),
{
    proof {
        reveal_strlit("select * from ");
        assert("select * from "@ =~= kw_select() + seq!['*'] + kw_from());
    }
    let mut r = owned("select * from ");
    r.append(ir.table.name.as_str());
    r.append(where_clause_exec(ir.table.name.as_str(), &ir.cuts).as_str());
    proof {
        assert(r@ =~= fact_scan(ir));
    }
    r
}

fn group_by_exec(ir: &QueryIr) -> (r: String)
    requires
        ir_wf(ir),
    ensures
        r@ == group_by(ir),
{
    proof {
        reveal_strlit("");
        reveal_strlit(" group by ");
        assert(""@ =~= Seq::<char>::empty());
        assert(" group by "@ =~= seq![' ', 'g', 'r', 'o', 'u', 'p', ' ', 'b', 'y', ' ']);
    }
    if agg_drill_count(ir) != 0 {
        let groups = group_cols_exec(ir);
        let r = cat(" group by ", comma_join(&groups).as_str());
        r
    } else {
        owned("")
    }
}

#[verifier::rlimit(30)]
fn aggregate_rest_exec(ir: &QueryIr) -> (r: String)
    requires
        ir_wf(ir),
    ensures
        r@ == aggregate_rest(ir),
{
    proof {
        reveal_strlit("(");
        reveal_strlit(") as fact");
        assert("("@ =~= seq!['(']);
        assert(") as fact"@ =~= seq![')'] + kw_as() + seq!['f', 'a', 'c', 't']);
    }
    let scan = fact_scan_exec(ir);
    let joins_s = joins_exec(ir);
    let rate_s = rate_join_exec(ir);
    let group_s = group_by_exec(ir);
    let mut r = owned("(");
    r.append(scan.as_str());
    r.append(") as fact");
    r.append(joins_s.as_str());
    r.append(rate_s.as_str());
    r.append(group_s.as_str());
    proof {
        assert(r@ =~= aggregate_rest(ir));
    }
    r
}

fn aggregate_sql_exec(ir: &QueryIr) -> (r: String)
    requires
        ir_wf(ir),
    ensures
        r@ == aggregate_sql(ir),
{
    proof {
        reveal_strlit("select ");
        reveal_strlit(" from ");
        assert("select "@ =~= kw_select());
        assert(" from "@ =~= kw_from());
    }
    let select = select_items_exec(ir);
    let mut r = owned("select ");
    r.append(comma_join(&select).as_str());
    r.append(" from ");
    r.append(aggregate_rest_exec(ir).as_str());
    proof {
        assert(r@ =~= aggregate_sql(ir));
    }
    r
}

pub open spec fn operator_sql(op: Operator) -> Seq<char> {
    match op {
        Operator::And => seq!['a', 'n', 'd'],
        Operator::Or => seq!['o', 'r'],
    }
}

/// The condition of a filter, in parentheses.
pub open spec fn filter_cond(f: &FilterSql) -> Seq<char> {
    let first = f.by_column@ + seq![' '] + constraint_sql(f.constraint);
    paren(
        match (f.operator, f.constraint2) {
            (Some(op), Some(c2)) => first + seq![' '] + operator_sql(op) + seq![' '] + f.by_column@
                + seq![' '] + constraint_sql(c2),
            _ => first,
        },
    )
}

pub open spec fn growth_name() -> Seq<char> {
    seq!['g', 'r', 'o', 'w', 't', 'h']
}

/// The key aliases of the drilldowns other than the one with postfix `pf`.
pub open spec fn other_keys(drills: Seq<DrilldownSql>, pf: Seq<char>) -> Seq<Seq<char>>
    decreases drills.len(),
{
    if drills.len() == 0 {
        Seq::empty()
    } else {
        let d = drills.last();
        other_keys(drills.drop_last(), pf) + if d.alias_postfix@ == pf {
            Seq::<Seq<char>>::empty()
        } else {
            Seq::new(
                d.level_columns@.len(),
                |i: int| postfixed(d.level_columns@[i].key_column@, d.alias_postfix@),
            )
        }
    }
}

/// `partition by `
#[verifier::opaque]
pub open spec fn lit_partition() -> Seq<char> {
    seq!['p', 'a', 'r', 't', 'i', 't', 'i', 'o', 'n', ' ', 'b', 'y', ' ']
}

/// `over (`
#[verifier::opaque]
pub open spec fn lit_over() -> Seq<char> {
    seq!['o', 'v', 'e', 'r', ' ', '(']
}

/// `order by `
#[verifier::opaque]
pub open spec fn lit_order() -> Seq<char> {
    seq!['o', 'r', 'd', 'e', 'r', ' ', 'b', 'y', ' ']
}

/// `partition by <other keys> `, or nothing where there are no other drilldowns.
pub open spec fn growth_partition(ir: &QueryIr, g: &GrowthSql) -> Seq<char> {
    let others = other_keys(agg_drills(ir), g.time_drill.alias_postfix@);
    if others.len() == 0 {
        Seq::empty()
    } else {
        lit_partition() + joined(others, sep_comma()) + seq![' ']
    }
}

/// `over ([partition by <other keys> ]order by <time key>)`.
pub open spec fn growth_window(ir: &QueryIr, g: &GrowthSql) -> Seq<char> {
    let t = g.time_drill.level_columns@.last();
    lit_over() + growth_partition(ir, g) + lit_order() + postfixed(
        t.key_column@,
        g.time_drill.alias_postfix@,
    ) + seq![')']
}

/// `lag(m) over w`.
pub open spec fn growth_lag(ir: &QueryIr, g: &GrowthSql) -> Seq<char> {
    seq!['l', 'a', 'g', '('] + g.mea@ + seq![')', ' '] + growth_window(ir, g)
}

/// `(m - lag(m) over w) / lag(m) over w as growth`.
pub open spec fn growth_item(ir: &QueryIr, g: &GrowthSql) -> Seq<char> {
    let lag = growth_lag(ir, g);
    seq!['('] + g.mea@ + seq![' ', '-', ' '] + lag + seq![')', ' ', '/', ' '] + lag + kw_as()
        + growth_name()
}

pub open spec fn rca_name() -> Seq<char> {
    seq!['r', 'c', 'a']
}

/// `over ([partition by <keys>])`.
pub open spec fn window_over(keys: Seq<Seq<char>>) -> Seq<char> {
    lit_over() + (if keys.len() == 0 {
        Seq::empty()
    } else {
        lit_partition() + joined(keys, sep_comma())
    }) + seq![')']
}

/// `sum(m) over ([partition by <keys>])`.
pub open spec fn sum_over(m: Seq<char>, keys: Seq<Seq<char>>) -> Seq<char> {
    seq!['s', 'u', 'm', '('] + m + seq![')', ' '] + window_over(keys)
}

/// The revealed comparative advantage of each row: its share of the total of its
/// first RCA drilldown, over the share of the total of its second RCA drilldown in the
/// grand total, within the requested drilldowns.
pub open spec fn rca_item(ir: &QueryIr, r: &RcaSql) -> Seq<char> {
    let m = rca_measure_name();
    let o = drills_key_aliases(ir.drills@);
    let k1 = drills_key_aliases(r.drill_1@) + o;
    let k2 = drills_key_aliases(r.drill_2@) + o;
    seq!['(', '('] + m + seq![' ', '/', ' '] + sum_over(m, k1) + seq![')', ' ', '/', ' ', '(']
        + sum_over(m, k2) + seq![' ', '/', ' '] + sum_over(m, o) + seq![')', ')'] + kw_as()
        + rca_name()
}

pub open spec fn rca_names(ir: &QueryIr) -> Seq<Seq<char>> {
    if ir.rca is Some {
        seq![rca_name()]
    } else {
        Seq::empty()
    }
}

/// The aggregation with the RCA column added, where it is asked for.
pub open spec fn rca_stage(ir: &QueryIr) -> Seq<char> {
    match ir.rca {
        Some(r) => kw_select() + joined(output_names(ir).push(rca_item(ir, &r)), sep_comma())
            + kw_from() + rca_rest(ir),
        None => aggregate_sql(ir),
    }
}

/// What follows `from` in the RCA stage.
pub open spec fn rca_rest(ir: &QueryIr) -> Seq<char> {
    paren(aggregate_sql(ir)) + kw_as() + seq!['r', 'c', 'a', '_', 'b', 'a', 's', 'e']
}

/// The names of the result columns, with `rca` and `growth` where they are computed.
pub open spec fn result_names(ir: &QueryIr) -> Seq<Seq<char>> {
    output_names(ir) + rca_names(ir) + if ir.growth is Some {
        seq![growth_name()]
    } else {
        Seq::empty()
    }
}

/// The growth column added, where it is asked for.
pub open spec fn growth_stage(ir: &QueryIr) -> Seq<char> {
    match ir.growth {
        Some(g) => kw_select() + joined(
            (output_names(ir) + rca_names(ir)).push(growth_item(ir, &g)),
            sep_comma(),
        ) + kw_from() + growth_rest(ir),
        None => rca_stage(ir),
    }
}

/// What follows `from` in the growth stage.
pub open spec fn growth_rest(ir: &QueryIr) -> Seq<char> {
    paren(rca_stage(ir)) + kw_as() + seq!['g', 'r', 'o', 'w', 't', 'h', '_', 'b', 'a', 's', 'e']
}

pub open spec fn sorted_col(c: Seq<char>, d: crate::query::SortDirection) -> Seq<char> {
    c + seq![' '] + sort_direction_token(d)
}

/// The ranking order of the top rows: each sort column with the direction.
pub open spec fn top_order(t: &TopSql) -> Seq<char> {
    joined(
        Seq::new(t.sort_columns@.len(), |i: int| sorted_col(t.sort_columns@[i]@, t.sort_direction)),
        sep_comma(),
    )
}

/// ` where <column> <constraint>` for the top-where constraint, if any.
pub open spec fn top_where_part(ir: &QueryIr) -> Seq<char> {
    match ir.top_where {
        Some(tw) => seq![' ', 'w', 'h', 'e', 'r', 'e', ' '] + tw.by_column@ + seq![' ']
            + constraint_sql(tw.constraint),
        None => Seq::empty(),
    }
}

/// `select *, row_number() over (partition by `
#[verifier::opaque]
pub open spec fn lit_rank_head() -> Seq<char> {
    kw_select() + seq!['*', ',', ' '] + seq!['r', 'o', 'w', '_', 'n', 'u', 'm', 'b', 'e', 'r', '(', ')', ' ']
        + seq!['o', 'v', 'e', 'r', ' ', '('] + seq!['p', 'a', 'r', 't', 'i', 't', 'i', 'o', 'n', ' ', 'b', 'y', ' ']
}

/// `) as top_rank from (`
#[verifier::opaque]
pub open spec fn lit_rank_from() -> Seq<char> {
    seq![')'] + kw_as() + seq!['t', 'o', 'p', '_', 'r', 'a', 'n', 'k'] + kw_from() + seq!['(']
}

/// `) as top_base`
#[verifier::opaque]
pub open spec fn lit_top_base() -> Seq<char> {
    seq![')'] + kw_as() + seq!['t', 'o', 'p', '_', 'b', 'a', 's', 'e']
}

/// The rows with their rank within the group of `t.by_column`.
pub open spec fn top_ranked(ir: &QueryIr, t: &TopSql) -> Seq<char> {
    lit_rank_head() + t.by_column@ + kw_order_by() + top_order(t) + lit_rank_from() + growth_stage(
        ir,
    ) + lit_top_base() + top_where_part(ir)
}

/// The top rows per group, ranked after the top-where constraint.
pub open spec fn top_stage(ir: &QueryIr) -> Seq<char> {
    match ir.top {
        Some(t) => kw_select() + joined(result_names(ir), sep_comma()) + kw_from() + top_rest(
            ir,
            &t,
        ),
        None => growth_stage(ir),
    }
}

/// What follows `from` in the top stage.
pub open spec fn top_rest(ir: &QueryIr, t: &TopSql) -> Seq<char> {
    paren(top_ranked(ir, t)) + kw_as() + seq!['t', 'o', 'p', '_', 'r', 'a', 'n', 'k', 'e', 'd']
        + seq![' ', 'w', 'h', 'e', 'r', 'e', ' '] + seq!['t', 'o', 'p', '_', 'r', 'a', 'n', 'k', ' ', '<', '=', ' ']
        + decimal(t.n as nat)
}

/// The rows that pass every filter.
pub open spec fn filter_stage(ir: &QueryIr) -> Seq<char> {
    if ir.filters@.len() == 0 {
        top_stage(ir)
    } else {
        kw_select() + joined(result_names(ir), sep_comma()) + kw_from() + filter_rest(ir)
    }
}

/// What follows `from` in the filter stage.
pub open spec fn filter_rest(ir: &QueryIr) -> Seq<char> {
    paren(top_stage(ir)) + kw_as() + seq!['f', 'i', 'l', 't', 'e', 'r', 'e', 'd'] + seq![' ', 'w', 'h', 'e', 'r', 'e', ' ']
        + joined(Seq::new(ir.filters@.len(), |i: int| filter_cond(&ir.filters@[i])), lit_and())
}

/// `<key> asc` for each key column of the drilldowns.
pub open spec fn default_order_items(ir: &QueryIr) -> Seq<Seq<char>> {
    let keys = drills_key_aliases(ir.drills@);
    Seq::new(keys.len(), |i: int| keys[i] + seq![' ', 'a', 's', 'c'])
}

pub open spec fn kw_order_by() -> Seq<char> {
    seq![' ', 'o', 'r', 'd', 'e', 'r', ' ', 'b', 'y', ' ']
}

/// The requested order; by default the drilldowns' key columns, root to leaf,
/// ascending.
pub open spec fn order_clause(ir: &QueryIr) -> Seq<char> {
    match ir.sort {
        Some(ss) => kw_order_by() + sorted_col(ss.column@, ss.direction),
        None => if drills_key_aliases(ir.drills@).len() == 0 {
            Seq::empty()
        } else {
            kw_order_by() + joined(default_order_items(ir), sep_comma())
        },
    }
}

pub open spec fn limit_clause(ir: &QueryIr) -> Seq<char> {
    match ir.limit {
        Some(l) => seq![' ', 'l', 'i', 'm', 'i', 't', ' '] + decimal(l.n as nat) + match l.offset {
            Some(o) => seq![' ', 'o', 'f', 'f', 's', 'e', 't', ' '] + decimal(o as nat),
            None => Seq::empty(),
        },
        None => Seq::empty(),
    }
}

/// `<column> as <header>` for each result column: the result's columns under the
/// names that the headers give them.
pub open spec fn named_items(ir: &QueryIr) -> Seq<Seq<char>> {
    Seq::new(
        result_names(ir).len(),
        |i: int| result_names(ir)[i] + kw_as() + ident(ir.headers@[i]@),
    )
}

/// The outermost query, which names the result columns after the headers.
#[verifier::opaque]
pub open spec fn result_sql(ir: &QueryIr) -> Seq<char> {
    kw_select() + joined(named_items(ir), sep_comma()) + kw_from() + paren(filter_stage(ir)) + kw_as()
        + seq!['r', 'e', 's', 'u', 'l', 't']
}

/// The whole query.
pub open spec fn standard_sql_spec(ir: &QueryIr) -> Seq<char> {
    result_sql(ir) + order_clause(ir) + limit_clause(ir)
}

fn output_names_exec(ir: &QueryIr) -> (r: Vec<String>)
    requires
        agg_drills(ir).len() <= usize::MAX,
    ensures
        r.deep_view() == output_names(ir),
{
    let mut names = group_cols_exec(ir);
    let (_, cols) = measure_items_exec(&ir.meas);
    push_all(&mut names, cols);
    let ghost prev = names.deep_view();
    if ir.rate.is_some() {
        proof {
            reveal_strlit("rate");
            assert("rate"@ =~= rate_name());
        }
        names.push(owned("rate"));
        proof {
            assert(names.deep_view() =~= prev + seq![rate_name()]);
        }
    } else {
        proof {
            assert(names.deep_view() =~= prev + Seq::<Seq<char>>::empty());
        }
    }
    names
}

#[verifier::rlimit(30)]
fn rate_item_exec(ir: &QueryIr, r: &RateSql) -> (r2: String)
    requires
        r.drilldown_sql.level_columns@.len() > 0,
        ir.meas@.len() > 0,
    ensures
        r2@ == rate_item(ir, r),
{
    let mut members: Vec<String> = Vec::new();
    let mut i: usize = 0;
    while i < r.members.len()
        invariant
            i <= r.members@.len(),
            members.deep_view() =~= Seq::new(i as nat, |k: int| quoted(r.members@[k]@)),
        decreases r.members@.len() - i,
    {
        proof {
            reveal_strlit("'");
            assert("'"@ =~= seq!['\'']);
        }
        let mut m = cat("'", r.members[i].as_str());
        m.append("'");
        let ghost prev = members.deep_view();
        let ghost mv = m@;
        members.push(m);
        proof {
            assert(mv =~= quoted(r.members@[i as int]@));
            assert(members.deep_view() =~= prev.push(mv));
        }
        i = i + 1;
    }
    proof {
        reveal(lit_case_when);
        reveal(lit_then);
        reveal(lit_else_end);
        reveal_strlit("sum(case when ");
        reveal_strlit(" in (");
        reveal_strlit(") then ");
        reveal_strlit(" else 0 end) / sum(");
        reveal_strlit(") as rate");
        assert("sum(case when "@ =~= lit_case_when());
        assert(" in ("@ =~= seq![' ', 'i', 'n', ' ', '(']);
        assert(") then "@ =~= lit_then());
        assert(" else 0 end) / sum("@ =~= lit_else_end());
        assert(") as rate"@ =~= seq![')'] + kw_as() + rate_name());
    }
    let d = &r.drilldown_sql;
    let n = d.level_columns.len();
    let key = postfixed_exec(d.level_columns[n - 1].key_column.as_str(), d.alias_postfix.as_str());
    let col = ir.meas[0].column.as_str();
    let mut out = cat("sum(case when ", key.as_str());
    out.append(" in (");
    out.append(comma_join(&members).as_str());
    out.append(") then ");
    out.append(col);
    out.append(" else 0 end) / sum(");
    out.append(col);
    out.append(") as rate");
    proof {
        assert(out@ =~= rate_item(ir, r));
    }
    out
}

fn rate_join_exec(ir: &QueryIr) -> (r: String)
    requires
        ir_wf(ir),
    ensures
        r@ == rate_join(ir),
{
    proof {
        reveal_strlit("");
        reveal_strlit(" inner join (");
        reveal_strlit(") as dim_");
        reveal_strlit(" using (");
        reveal_strlit(")");
        assert(""@ =~= Seq::<char>::empty());
        assert(" inner join ("@ =~= seq![' ', 'i', 'n', 'n', 'e', 'r', ' ', 'j', 'o', 'i', 'n', ' ', '(']);
        assert(") as dim_"@ =~= seq![')'] + kw_as() + seq!['d', 'i', 'm', '_']);
        assert(" using ("@ =~= seq![' ', 'u', 's', 'i', 'n', 'g', ' ', '(']);
        assert(")"@ =~= seq![')']);
    }
    match &ir.rate {
        Some(rate) => {
            let d = &rate.drilldown_sql;
            let k = agg_drill_count(ir);
            let sub = dim_subquery(Some(d), None);
            let mut r = owned(" inner join (");
            r.append(sub.sql.as_str());
            r.append(") as dim_");
            r.append(u64_decimal(k as u64).as_str());
            r.append(" using (");
            r.append(d.foreign_key.as_str());
            r.append(")");
            proof {
                assert(r@ =~= join_clause(d, k as nat));
            }
            r
        },
        None => owned(""),
    }
}

fn rca_names_exec(ir: &QueryIr) -> (r: Vec<String>)
    ensures
        r.deep_view() == rca_names(ir),
{
    let mut names: Vec<String> = Vec::new();
    if ir.rca.is_some() {
        proof {
            reveal_strlit("rca");
            assert("rca"@ =~= rca_name());
        }
        names.push(owned("rca"));
        proof {
            assert(names.deep_view() =~= seq![rca_name()]);
        }
    } else {
        proof {
            assert(names.deep_view() =~= Seq::<Seq<char>>::empty());
        }
    }
    names
}

fn window_over_exec(keys: &Vec<String>) -> (r: String)
    ensures
        r@ == window_over(keys.deep_view()),
{
    proof {
        reveal(lit_over);
        reveal(lit_partition);
        reveal_strlit("over (");
        reveal_strlit("partition by ");
        reveal_strlit(")");
        assert("over ("@ =~= lit_over());
        assert("partition by "@ =~= lit_partition());
        assert(")"@ =~= seq![')']);
    }
    let mut w = owned("over (");
    if keys.len() != 0 {
        w.append("partition by ");
        w.append(comma_join(keys).as_str());
    }
    w.append(")");
    proof {
        assert(w@ =~= window_over(keys.deep_view()));
    }
    w
}

fn sum_over_exec(m: &str, keys: &Vec<String>) -> (r: String)
    ensures
        r@ == sum_over(m@, keys.deep_view()),
{
    proof {
        reveal_strlit("sum(");
        reveal_strlit(") ");
        assert("sum("@ =~= seq!['s', 'u', 'm', '(']);
        assert(") "@ =~= seq![')', ' ']);
    }
    let mut r = cat("sum(", m);
    r.append(") ");
    r.append(window_over_exec(keys).as_str());
    r
}

#[verifier::rlimit(30)]
fn rca_item_exec(ir: &QueryIr, rca: &RcaSql) -> (r: String)
    ensures
        r@ == rca_item(ir, rca),
{
    proof {
        reveal_strlit("rca_measure");
        assert("rca_measure"@ =~= rca_measure_name());
    }
    let m = owned("rca_measure");
    let o = key_aliases_of(&ir.drills);
    let mut k1 = key_aliases_of(&rca.drill_1);
    let o1 = o.clone();
    proof {
        assert(o1.deep_view() =~= o.deep_view());
    }
    push_all(&mut k1, o1);
    let mut k2 = key_aliases_of(&rca.drill_2);
    let o2 = o.clone();
    proof {
        assert(o2.deep_view() =~= o.deep_view());
    }
    push_all(&mut k2, o2);
    proof {
        reveal_strlit("((");
        reveal_strlit(" / ");
        reveal_strlit(") / (");
        reveal_strlit(")) as rca");
        assert("(("@ =~= seq!['(', '(']);
        assert(" / "@ =~= seq![' ', '/', ' ']);
        assert(") / ("@ =~= seq![')', ' ', '/', ' ', '(']);
        assert(")) as rca"@ =~= seq![')', ')'] + kw_as() + rca_name());
    }
    let mut r = cat("((", m.as_str());
    r.append(" / ");
    r.append(sum_over_exec(m.as_str(), &k1).as_str());
    r.append(") / (");
    r.append(sum_over_exec(m.as_str(), &k2).as_str());
    r.append(" / ");
    r.append(sum_over_exec(m.as_str(), &o).as_str());
    r.append(")) as rca");
    proof {
        assert(r@ =~= rca_item(ir, rca));
    }
    r
}

#[verifier::rlimit(30)]
fn rca_stage_exec(ir: &QueryIr) -> (r: String)
    requires
        ir_wf(ir),
    ensures
        r@ == rca_stage(ir),
{
    let agg = aggregate_sql_exec(ir);
    match &ir.rca {
        Some(rca) => {
            proof {
                reveal_strlit("select ");
                reveal_strlit(" from (");
                reveal_strlit(") as rca_base");
                assert("select "@ =~= kw_select());
                assert(" from ("@ =~= kw_from() + seq!['(']);
                assert(") as rca_base"@ =~= seq![')'] + kw_as() + seq!['r', 'c', 'a', '_', 'b', 'a', 's', 'e']);
            }
            let mut items = output_names_exec(ir);
            let ghost prev = items.deep_view();
            let ri = rca_item_exec(ir, rca);
            let ghost rv = ri@;
            items.push(ri);
            proof {
                assert(items.deep_view() =~= prev.push(rv));
            }
            let mut r = owned("select ");
            r.append(comma_join(&items).as_str());
            r.append(" from (");
            r.append(agg.as_str());
            r.append(") as rca_base");
            proof {
                assert(r@ =~= rca_stage(ir));
            }
            r
        },
        None => agg,
    }
}

fn result_names_exec(ir: &QueryIr) -> (r: Vec<String>)
    requires
        agg_drills(ir).len() <= usize::MAX,
    ensures
        r.deep_view() == result_names(ir),
{
    let mut names = output_names_exec(ir);
    push_all(&mut names, rca_names_exec(ir));
    let ghost prev = names.deep_view();
    if ir.growth.is_some() {
        proof {
            reveal_strlit("growth");
            assert("growth"@ =~= growth_name());
        }
        names.push(owned("growth"));
        proof {
            assert(names.deep_view() =~= prev + seq![growth_name()]);
        }
    } else {
        proof {
            assert(names.deep_view() =~= prev + Seq::<Seq<char>>::empty());
        }
    }
    names
}

fn other_keys_exec(ir: &QueryIr, pf: &String) -> (r: Vec<String>)
    requires
        agg_drills(ir).len() <= usize::MAX,
    ensures
        r.deep_view() == other_keys(agg_drills(ir), pf@),
{
    let ghost all = agg_drills(ir);
    let count = agg_drill_count(ir);
    let mut keys: Vec<String> = Vec::new();
    let mut k: usize = 0;
    while k < count
        invariant
            count == all.len(),
            all == agg_drills(ir),
            k <= count,
            keys.deep_view() == other_keys(all.take(k as int), pf@),
        decreases count - k,
    {
        let d = agg_drill(ir, k);
        proof {
            assert(all.take(k + 1).drop_last() =~= all.take(k as int));
            assert(all.take(k + 1).last() == *d);
        }
        let ghost before = keys.deep_view();
        if d.alias_postfix == *pf {
            proof {
                assert(keys.deep_view() =~= before + Seq::<Seq<char>>::empty());
            }
        } else {
            let mut i: usize = 0;
            while i < d.level_columns.len()
                invariant
                    i <= d.level_columns@.len(),
                    keys.deep_view() =~= before + Seq::new(
                        i as nat,
                        |j: int| postfixed(d.level_columns@[j].key_column@, d.alias_postfix@),
                    ),
                decreases d.level_columns@.len() - i,
            {
                let a = postfixed_exec(d.level_columns[i].key_column.as_str(), d.alias_postfix.as_str());
                let ghost prev = keys.deep_view();
                let ghost av = a@;
                keys.push(a);
                proof {
                    assert(keys.deep_view() =~= prev.push(av));
                }
                i = i + 1;
            }
        }
        k = k + 1;
    }
    proof {
        assert(all.take(all.len() as int) =~= all);
    }
    keys
}

fn growth_partition_exec(ir: &QueryIr, g: &GrowthSql) -> (r: String)
    requires
        agg_drills(ir).len() <= usize::MAX,
    ensures
        r@ == growth_partition(ir, g),
{
    proof {
        reveal(lit_partition);
        reveal_strlit("");
        reveal_strlit("partition by ");
        reveal_strlit(" ");
        assert(""@ =~= Seq::<char>::empty());
        assert("partition by "@ =~= lit_partition());
        assert(" "@ =~= seq![' ']);
    }
    let others = other_keys_exec(ir, &g.time_drill.alias_postfix);
    if others.len() == 0 {
        owned("")
    } else {
        let mut p = owned("partition by ");
        p.append(comma_join(&others).as_str());
        p.append(" ");
        p
    }
}

fn growth_window_exec(ir: &QueryIr, g: &GrowthSql) -> (r: String)
    requires
        agg_drills(ir).len() <= usize::MAX,
        g.time_drill.level_columns@.len() > 0,
    ensures
        r@ == growth_window(ir, g),
{
    proof {
        reveal(lit_over);
        reveal(lit_order);
        reveal_strlit("over (");
        reveal_strlit("order by ");
        reveal_strlit(")");
        assert("over ("@ =~= lit_over());
        assert("order by "@ =~= lit_order());
        assert(")"@ =~= seq![')']);
    }
    let n = g.time_drill.level_columns.len();
    let t = &g.time_drill.level_columns[n - 1];
    let mut w = owned("over (");
    w.append(growth_partition_exec(ir, g).as_str());
    w.append("order by ");
    w.append(postfixed_exec(t.key_column.as_str(), g.time_drill.alias_postfix.as_str()).as_str());
    w.append(")");
    proof {
        assert(w@ =~= growth_window(ir, g));
    }
    w
}

#[verifier::rlimit(30)]
fn growth_item_exec(ir: &QueryIr, g: &GrowthSql) -> (r: String)
    requires
        agg_drills(ir).len() <= usize::MAX,
        g.time_drill.level_columns@.len() > 0,
    ensures
        r@ == growth_item(ir, g),
{
    proof {
        reveal_strlit("lag(");
        reveal_strlit(") ");
        reveal_strlit("(");
        reveal_strlit(" - ");
        reveal_strlit(") / ");
        reveal_strlit(" as growth");
        assert("lag("@ =~= seq!['l', 'a', 'g', '(']);
        assert(") "@ =~= seq![')', ' ']);
        assert("("@ =~= seq!['(']);
        assert(" - "@ =~= seq![' ', '-', ' ']);
        assert(") / "@ =~= seq![')', ' ', '/', ' ']);
        assert(" as growth"@ =~= kw_as() + growth_name());
    }
    let window = growth_window_exec(ir, g);
    let mut lag = cat("lag(", g.mea.as_str());
    lag.append(") ");
    lag.append(window.as_str());
    proof {
        assert(lag@ =~= growth_lag(ir, g));
    }
    let mut r = cat("(", g.mea.as_str());
    r.append(" - ");
    r.append(lag.as_str());
    r.append(") / ");
    r.append(lag.as_str());
    r.append(" as growth");
    proof {
        assert(r@ =~= growth_item(ir, g));
    }
    r
}

#[verifier::rlimit(30)]
fn growth_stage_exec(ir: &QueryIr) -> (r: String)
    requires
        ir_wf(ir),
    ensures
        r@ == growth_stage(ir),
{
    let agg = rca_stage_exec(ir);
    match &ir.growth {
        Some(g) => {
            proof {
                reveal_strlit("select ");
                reveal_strlit(" from (");
                reveal_strlit(") as growth_base");
                assert("select "@ =~= kw_select());
                assert(" from ("@ =~= kw_from() + seq!['(']);
                assert(") as growth_base"@ =~= seq![')'] + kw_as() + seq!['g', 'r', 'o', 'w', 't', 'h', '_', 'b', 'a', 's', 'e']);
            }
            let mut items = output_names_exec(ir);
            push_all(&mut items, rca_names_exec(ir));
            let ghost prev = items.deep_view();
            let gi = growth_item_exec(ir, g);
            let ghost gv = gi@;
            items.push(gi);
            proof {
                assert(items.deep_view() =~= prev.push(gv));
            }
            let mut r = owned("select ");
            r.append(comma_join(&items).as_str());
            r.append(" from (");
            r.append(agg.as_str());
            r.append(") as growth_base");
            proof {
                assert(r@ =~= growth_stage(ir));
            }
            r
        },
        None => agg,
    }
}

fn top_order_exec(t: &TopSql) -> (r: String)
    ensures
        r@ == top_order(t),
{
    let dir = t.sort_direction.sql_string();
    let mut order_items: Vec<String> = Vec::new();
    let mut i: usize = 0;
    while i < t.sort_columns.len()
        invariant
            i <= t.sort_columns@.len(),
            dir@ == sort_direction_token(t.sort_direction),
            order_items.deep_view() =~= Seq::new(
                i as nat,
                |k: int| sorted_col(t.sort_columns@[k]@, t.sort_direction),
            ),
        decreases t.sort_columns@.len() - i,
    {
        proof {
            reveal_strlit(" ");
            assert(" "@ =~= seq![' ']);
        }
        let mut item = cat(t.sort_columns[i].as_str(), " ");
        item.append(dir.as_str());
        let ghost prev = order_items.deep_view();
        let ghost iv = item@;
        order_items.push(item);
        proof {
            assert(order_items.deep_view() =~= prev.push(iv));
        }
        i = i + 1;
    }
    comma_join(&order_items)
}

fn top_where_part_exec(ir: &QueryIr) -> (r: String)
    ensures
        r@ == top_where_part(ir),
{
    proof {
        reveal_strlit("");
        reveal_strlit(" where ");
        reveal_strlit(" ");
        assert(""@ =~= Seq::<char>::empty());
        assert(" where "@ =~= seq![' ', 'w', 'h', 'e', 'r', 'e', ' ']);
        assert(" "@ =~= seq![' ']);
    }
    match &ir.top_where {
        Some(tw) => {
            let mut p = cat(" where ", tw.by_column.as_str());
            p.append(" ");
            p.append(tw.constraint.sql_string().as_str());
            proof {
                assert(p@ =~= top_where_part(ir));
            }
            p
        },
        None => owned(""),
    }
}

fn top_literals() -> (r: (&'static str, &'static str, &'static str, &'static str))
    ensures
        r.0@ == lit_rank_head(),
        r.1@ == kw_order_by(),
        r.2@ == lit_rank_from(),
        r.3@ == lit_top_base(),
{
    proof {
        reveal(lit_rank_head);
        reveal(lit_rank_from);
        reveal(lit_top_base);
        reveal_strlit("select *, row_number() over (partition by ");
        reveal_strlit(" order by ");
        reveal_strlit(") as top_rank from (");
        reveal_strlit(") as top_base");
        assert("select *, row_number() over (partition by "@ =~= lit_rank_head());
        assert(" order by "@ =~= kw_order_by());
        assert(") as top_rank from ("@ =~= lit_rank_from());
        assert(") as top_base"@ =~= lit_top_base());
    }
    ("select *, row_number() over (partition by ", " order by ", ") as top_rank from (", ") as top_base")
}

#[verifier::rlimit(30)]
fn top_ranked_exec(ir: &QueryIr, t: &TopSql) -> (r: String)
    requires
        ir_wf(ir),
    ensures
        r@ == top_ranked(ir, t),
{
    let inner = growth_stage_exec(ir);
    let (head, order_by, from, base) = top_literals();
    let mut r = owned(head);
    r.append(t.by_column.as_str());
    r.append(order_by);
    r.append(top_order_exec(t).as_str());
    r.append(from);
    r.append(inner.as_str());
    r.append(base);
    r.append(top_where_part_exec(ir).as_str());
    proof {
        assert(r@ =~= top_ranked(ir, t));
    }
    r
}

#[verifier::rlimit(30)]
fn top_stage_exec(ir: &QueryIr) -> (r: String)
    requires
        ir_wf(ir),
    ensures
        r@ == top_stage(ir),
{
    match &ir.top {
        Some(t) => {
            proof {
                reveal_strlit("select ");
                reveal_strlit(" from (");
                reveal_strlit(") as top_ranked where top_rank <= ");
                assert("select "@ =~= kw_select());
                assert(" from ("@ =~= kw_from() + seq!['(']);
                assert(") as top_ranked where top_rank <= "@ =~= seq![')'] + kw_as() + seq!['t', 'o', 'p', '_', 'r', 'a', 'n', 'k', 'e', 'd'] + seq![' ', 'w', 'h', 'e', 'r', 'e', ' '] + seq!['t', 'o', 'p', '_', 'r', 'a', 'n', 'k', ' ', '<', '=', ' ']);
            }
            let names = result_names_exec(ir);
            let ranked = top_ranked_exec(ir, t);
            let mut r = owned("select ");
            r.append(comma_join(&names).as_str());
            r.append(" from (");
            r.append(ranked.as_str());
            r.append(") as top_ranked where top_rank <= ");
            r.append(u64_decimal(t.n).as_str());
            proof {
                assert(r@ =~= top_stage(ir));
            }
            r
        },
        None => growth_stage_exec(ir),
    }
}

fn filter_cond_exec(f: &FilterSql) -> (r: String)
    ensures
        r@ == filter_cond(f),
{
    proof {
        reveal_strlit("(");
        reveal_strlit(" ");
        reveal_strlit(")");
        assert("("@ =~= seq!['(']);
        assert(" "@ =~= seq![' ']);
        assert(")"@ =~= seq![')']);
    }
    let mut r = cat("(", f.by_column.as_str());
    r.append(" ");
    r.append(f.constraint.sql_string().as_str());
    match (&f.operator, &f.constraint2) {
        (Some(op), Some(c2)) => {
            r.append(" ");
            r.append(op.sql_string().as_str());
            r.append(" ");
            r.append(f.by_column.as_str());
            r.append(" ");
            r.append(c2.sql_string().as_str());
        },
        _ => {},
    }
    r.append(")");
    proof {
        assert(r@ =~= filter_cond(f));
    }
    r
}

#[verifier::rlimit(30)]
fn filter_stage_exec(ir: &QueryIr) -> (r: String)
    requires
        ir_wf(ir),
    ensures
        r@ == filter_stage(ir),
{
    let inner = top_stage_exec(ir);
    if ir.filters.len() == 0 {
        return inner;
    }
    let mut conds: Vec<String> = Vec::new();
    let mut i: usize = 0;
    while i < ir.filters.len()
        invariant
            i <= ir.filters@.len(),
            conds.deep_view() =~= Seq::new(i as nat, |k: int| filter_cond(&ir.filters@[k])),
        decreases ir.filters@.len() - i,
    {
        let c = filter_cond_exec(&ir.filters[i]);
        let ghost prev = conds.deep_view();
        let ghost cv = c@;
        conds.push(c);
        proof {
            assert(conds.deep_view() =~= prev.push(cv));
        }
        i = i + 1;
    }
    proof {
        reveal_strlit("select ");
        reveal_strlit(" from (");
        reveal_strlit(") as filtered where ");
        reveal_strlit(" and ");
        assert("select "@ =~= kw_select());
        assert(" from ("@ =~= kw_from() + seq!['(']);
        assert(") as filtered where "@ =~= seq![')'] + kw_as() + seq!['f', 'i', 'l', 't', 'e', 'r', 'e', 'd'] + seq![' ', 'w', 'h', 'e', 'r', 'e', ' ']);
        assert(" and "@ =~= lit_and());
    }
    let names = result_names_exec(ir);
    let mut r = owned("select ");
    r.append(comma_join(&names).as_str());
    r.append(" from (");
    r.append(inner.as_str());
    r.append(") as filtered where ");
    r.append(join_strings(&conds, " and ").as_str());
    proof {
        assert(r@ =~= filter_stage(ir));
    }
    r
}

fn order_clause_exec(ir: &QueryIr) -> (r: String)
    ensures
        r@ == order_clause(ir),
{
    proof {
        reveal_strlit("");
        reveal_strlit(" order by ");
        reveal_strlit(" ");
        reveal_strlit(" asc");
        assert(""@ =~= Seq::<char>::empty());
        assert(" order by "@ =~= kw_order_by());
        assert(" "@ =~= seq![' ']);
        assert(" asc"@ =~= seq![' ', 'a', 's', 'c']);
    }
    match &ir.sort {
        Some(ss) => {
            let mut r = owned(" order by ");
            r.append(ss.column.as_str());
            r.append(" ");
            r.append(ss.direction.sql_string().as_str());
            proof {
                assert(r@ =~= order_clause(ir));
            }
            r
        },
        None => {
            let keys = key_aliases_of(&ir.drills);
            if keys.len() == 0 {
                return owned("");
            }
            let mut items: Vec<String> = Vec::new();
            let mut i: usize = 0;
            while i < keys.len()
                invariant
                    i <= keys@.len(),
                    keys.deep_view() == drills_key_aliases(ir.drills@),
                    items.deep_view() =~= Seq::new(
                        i as nat,
                        |k: int| keys.deep_view()[k] + seq![' ', 'a', 's', 'c'],
                    ),
                decreases keys@.len() - i,
            {
                proof {
                    reveal_strlit(" asc");
                    assert(" asc"@ =~= seq![' ', 'a', 's', 'c']);
                }
                let item = cat(keys[i].as_str(), " asc");
                let ghost prev = items.deep_view();
                let ghost iv = item@;
                items.push(item);
                proof {
                    assert(keys.deep_view()[i as int] == keys@[i as int]@);
                    assert(items.deep_view() =~= prev.push(iv));
                }
                i = i + 1;
            }
            let mut r = owned(" order by ");
            r.append(comma_join(&items).as_str());
            proof {
                assert(items.deep_view() =~= default_order_items(ir));
                assert(r@ =~= order_clause(ir));
            }
            r
        },
    }
}

fn limit_clause_exec(ir: &QueryIr) -> (r: String)
    ensures
        r@ == limit_clause(ir),
{
    proof {
        reveal_strlit("");
        reveal_strlit(" limit ");
        reveal_strlit(" offset ");
        assert(""@ =~= Seq::<char>::empty());
        assert(" limit "@ =~= seq![' ', 'l', 'i', 'm', 'i', 't', ' ']);
        assert(" offset "@ =~= seq![' ', 'o', 'f', 'f', 's', 'e', 't', ' ']);
    }
    match ir.limit {
        Some(l) => {
            let mut r = owned(" limit ");
            r.append(u64_decimal(l.n).as_str());
            if let Some(o) = l.offset {
                r.append(" offset ");
                r.append(u64_decimal(o).as_str());
            }
            proof {
                assert(r@ =~= limit_clause(ir));
            }
            r
        },
        None => owned(""),
    }
}

/// Writes the plan as standard SQL: the fact scan with the cuts, joined to one
/// subquery per drilldown and aggregated; then RCA, growth, the top rows per group and
/// the filters, each as a wrapping query; then a `select` that names the result
/// columns after the headers; then the order and the limit.
pub fn standard_sql(ir: &QueryIr) -> (r: String)
    requires
        ir_wf(ir),
    ensures
        r@ == standard_sql_spec(ir),
{
    let mut r = result_sql_exec(ir);
    r.append(order_clause_exec(ir).as_str());
    r.append(limit_clause_exec(ir).as_str());
    r
}

fn result_sql_exec(ir: &QueryIr) -> (r: String)
    requires
        ir_wf(ir),
    ensures
        r@ == result_sql(ir),
{
    let names = result_names_exec(ir);
    let mut items: Vec<String> = Vec::new();
    let mut i: usize = 0;
    while i < names.len()
        invariant
            ir_wf(ir),
            names.deep_view() == result_names(ir),
            i <= names@.len(),
            items.deep_view() =~= Seq::new(
                i as nat,
                |k: int| result_names(ir)[k] + kw_as() + ident(ir.headers@[k]@),
            ),
        decreases names@.len() - i,
    {
        proof {
            reveal_strlit(" as ");
            assert(" as "@ =~= kw_as());
            assert(names.deep_view()[i as int] == names@[i as int]@);
        }
        let mut item = cat(names[i].as_str(), " as ");
        item.append(sql_ident(ir.headers[i].as_str()).as_str());
        let ghost prev = items.deep_view();
        let ghost iv = item@;
        items.push(item);
        proof {
            assert(items.deep_view() =~= prev.push(iv));
        }
        i = i + 1;
    }
    proof {
        reveal_strlit("select ");
        reveal_strlit(" from (");
        reveal_strlit(") as result");
        assert("select "@ =~= kw_select());
        assert(" from ("@ =~= kw_from() + seq!['(']);
        assert(") as result"@ =~= seq![')'] + kw_as() + seq!['r', 'e', 's', 'u', 'l', 't']);
    }
    let mut r = owned("select ");
    r.append(comma_join(&items).as_str());
    r.append(" from (");
    r.append(filter_stage_exec(ir).as_str());
    r.append(") as result");
    proof {
        reveal(result_sql);
        assert(r@ =~= result_sql(ir));
    }
    r
}


proof fn lemma_level_aliases_len(ls: Seq<Level>, pf: Seq<char>)
    ensures
        level_aliases(ls.map_values(|l: Level| level_column_of(l)), pf).len() == levels_headers(
            ls,
        ).len(),
    decreases ls.len(),
{
    if ls.len() > 0 {
        lemma_level_aliases_len(ls.drop_last(), pf);
        let m = ls.map_values(|l: Level| level_column_of(l));
        assert(m.drop_last() =~= ls.drop_last().map_values(|l: Level| level_column_of(l)));
        assert(m.last() == level_column_of(ls.last()));
    }
}

proof fn lemma_drill_props_len(c: &Cube, props: Seq<Property>, lv: LevelNameView)
    ensures
        drill_props(c, props, lv).len() == drill_prop_names(props, lv).len(),
    decreases props.len(),
{
    if props.len() > 0 {
        lemma_drill_props_len(c, props.drop_last(), lv);
    }
}

proof fn lemma_drills_concat(a: Seq<DrilldownSql>, b: Seq<DrilldownSql>)
    ensures
        drills_level_aliases(a + b) == drills_level_aliases(a) + drills_level_aliases(b),
        drills_properties(a + b) == drills_properties(a) + drills_properties(b),
    decreases b.len(),
{
    if b.len() == 0 {
        assert(a + b =~= a);
        assert(drills_level_aliases(a) + drills_level_aliases(b) =~= drills_level_aliases(a));
        assert(drills_properties(a) + drills_properties(b) =~= drills_properties(a));
    } else {
        lemma_drills_concat(a, b.drop_last());
        assert((a + b).drop_last() =~= a + b.drop_last());
        assert((a + b).last() == b.last());
        assert(drills_level_aliases(a + b) =~= drills_level_aliases(a) + drills_level_aliases(b));
        assert(drills_properties(a + b) =~= drills_properties(a) + drills_properties(b));
    }
}

/// Drilldowns bound as the compiler binds them have as many level aliases as their
/// levels have headers, and as many property columns as property headers.
proof fn lemma_bound_drills_len(
    c: &Cube,
    ds: Seq<DrilldownSql>,
    dd: Seq<Drilldown>,
    parents: bool,
    props: Seq<Property>,
)
    requires
        ds.len() == dd.len(),
        forall|k: int|
            0 <= k < ds.len() ==> drill_binds(
                c,
                dd[k]@,
                k as nat,
                parents,
                drill_props(c, props, dd[k]@),
                #[trigger] &ds[k],
            ),
    ensures
        drills_level_aliases(ds).len() == drills_headers(c, dd, parents).len(),
        drills_properties(ds).len() == drills_prop_headers(props, dd).len(),
    decreases ds.len(),
{
    if ds.len() > 0 {
        let n = ds.len() - 1;
        assert forall|k: int| 0 <= k < ds.drop_last().len() implies drill_binds(
            c,
            dd.drop_last()[k]@,
            k as nat,
            parents,
            drill_props(c, props, dd.drop_last()[k]@),
            #[trigger] &ds.drop_last()[k],
        ) by {
            assert(drill_binds(c, dd[k]@, k as nat, parents, drill_props(c, props, dd[k]@), &ds[k]));
        }
        lemma_bound_drills_len(c, ds.drop_last(), dd.drop_last(), parents, props);
        assert(drill_binds(c, dd[n]@, n as nat, parents, drill_props(c, props, dd[n]@), &ds[n]));
        lemma_level_aliases_len(drill_levels(c, dd[n]@, parents), ds[n].alias_postfix@);
        lemma_drill_props_len(c, props, dd[n]@);
        assert(dd.last() == dd[n]);
        assert(ds.last() == ds[n]);
    }
}

proof fn lemma_rca_drill_len(c: &Cube, d: &DrilldownSql, lv: LevelNameView, k: nat, parents: bool)
    requires
        drill_binds(c, lv, k, parents, Seq::empty(), d),
    ensures
        drills_level_aliases(seq![*d]).len() == levels_headers(drill_levels(c, lv, parents)).len(),
        drills_properties(seq![*d]).len() == 0,
{
    lemma_level_aliases_len(drill_levels(c, lv, parents), d.alias_postfix@);
    let one = seq![*d];
    assert(one.drop_last() =~= Seq::<DrilldownSql>::empty());
    assert(one.last() == *d);
    assert(drills_level_aliases(one) == drills_level_aliases(one.drop_last()) + level_aliases(
        d.level_columns@,
        d.alias_postfix@,
    ));
    assert(drills_properties(one) == drills_properties(one.drop_last()) + d.property_columns.deep_view());
}

/// The result has one column per grouping column and requested measure, and one for
/// each calculation.
proof fn lemma_result_names_len(ir: &QueryIr)
    ensures
        result_names(ir).len() == group_cols(ir).len() + ir.meas@.len() + rate_names(ir).len()
            + rca_names(ir).len() + if ir.growth is Some {
            1int
        } else {
            0int
        },
{
    assert(measure_cols(ir.meas@).len() == ir.meas@.len());
}

/// The headers of a compiled request: level headers of the drilldowns and of the RCA
/// drilldowns, property headers, measure names and calculations.
proof fn lemma_headers_len(c: &Cube, q: &Query)
    ensures
        headers_spec(c, q).len() == drills_headers(c, q.drilldowns@, q.parents).len() + rca_headers(
            c,
            q,
        ).len() + drills_prop_headers(q.properties@, q.drilldowns@).len() + q.measures@.len()
            + rate_headers(q).len() + calc_headers(q).len(),
{
    assert(measure_names(q.measures@).len() == q.measures@.len());
}

proof fn lemma_group_cols_len(c: &Cube, q: &Query, ir: &QueryIr, headers: Seq<Seq<char>>)
    requires
        compiled(c, q, ir, headers),
    ensures
        group_cols(ir).len() == drills_headers(c, q.drilldowns@, q.parents).len() + rca_headers(
            c,
            q,
        ).len() + drills_prop_headers(q.properties@, q.drilldowns@).len(),
{
    lemma_bound_drills_len(c, ir.drills@, q.drilldowns@, q.parents, q.properties@);
    match ir.rca {
        Some(rs) => {
            let rq = q.rca.unwrap();
            lemma_drills_concat(ir.drills@ + rs.drill_1@, rs.drill_2@);
            lemma_drills_concat(ir.drills@, rs.drill_1@);
            assert(rs.drill_1@ =~= seq![rs.drill_1@[0]]);
            assert(rs.drill_2@ =~= seq![rs.drill_2@[0]]);
            lemma_rca_drill_len(c, &rs.drill_1@[0], rq.drill_1@, q.drilldowns@.len(), q.parents);
            lemma_rca_drill_len(c, &rs.drill_2@[0], rq.drill_2@, q.drilldowns@.len() + 1, q.parents);
        },
        None => {},
    }
}

#[verifier::rlimit(40)]
proof fn lemma_header_count(c: &Cube, q: &Query, ir: &QueryIr, headers: Seq<Seq<char>>)
    requires
        compiled(c, q, ir, headers),
    ensures
        headers.len() == result_names(ir).len(),
{
    lemma_result_names_len(ir);
    lemma_headers_len(c, q);
    lemma_group_cols_len(c, q, ir, headers);
    assert(rate_headers(q).len() == rate_names(ir).len());
    assert(calc_headers(q).len() == rca_names(ir).len() + if ir.growth is Some {
        1int
    } else {
        0int
    });
}

/// The SQL of a compiled request returns one column per header, in order: its
/// outermost `select` lists one item per header, and the `i`th names its column after
/// the `i`th header.
pub proof fn lemma_header_column_parity(s: &Schema, cube: Seq<char>, q: &Query, ir: &QueryIr, headers: Seq<Seq<char>>)
    requires
        has_cube(s, cube),
        compiled(&s.cubes@[cube_pos(s, cube)], q, ir, headers),
    ensures
        headers.len() == named_items(ir).len(),
        forall|i: int|
            0 <= i < headers.len() ==> #[trigger] named_items(ir)[i] == result_names(ir)[i] + kw_as()
                + ident(headers[i]),
        exists|rest: Seq<char>|
            standard_sql_spec(ir) == kw_select() + joined(named_items(ir), sep_comma()) + kw_from()
                + rest,
{
    lemma_header_count(&s.cubes@[cube_pos(s, cube)], q, ir, headers);
    assert forall|i: int| 0 <= i < headers.len() implies #[trigger] named_items(ir)[i]
        == result_names(ir)[i] + kw_as() + ident(headers[i]) by {
        assert(ir.headers.deep_view()[i] == ir.headers@[i]@);
    }
    lemma_result_select_list(ir);
}

proof fn lemma_regroup(a: Seq<char>, l: Seq<char>, f: Seq<char>, r: Seq<char>, tail: Seq<char>)
    ensures
        (a + l + f + r) + tail == a + l + f + (r + tail),
{
    assert((a + l + f + r) + tail =~= a + l + f + (r + tail));
}

/// The whole query begins with the list of named result columns.
proof fn lemma_result_select_list(ir: &QueryIr)
    ensures
        exists|rest: Seq<char>|
            standard_sql_spec(ir) == kw_select() + joined(named_items(ir), sep_comma()) + kw_from()
                + rest,
{
    reveal(result_sql);
    let body = paren(filter_stage(ir)) + kw_as() + seq!['r', 'e', 's', 'u', 'l', 't'];
    let tail = order_clause(ir) + limit_clause(ir);
    assert(result_sql(ir) == kw_select() + joined(named_items(ir), sep_comma()) + kw_from() + body) by {
        let a = kw_select() + joined(named_items(ir), sep_comma()) + kw_from();
        assert(a + paren(filter_stage(ir)) + kw_as() + seq!['r', 'e', 's', 'u', 'l', 't'] =~= a + body);
    }
    lemma_regroup(kw_select(), joined(named_items(ir), sep_comma()), kw_from(), body, tail);
    assert(standard_sql_spec(ir) =~= result_sql(ir) + tail);
    assert(standard_sql_spec(ir) == kw_select() + joined(named_items(ir), sep_comma()) + kw_from()
        + (body + tail));
}

proof fn lemma_key_aliases_nonempty(drills: Seq<DrilldownSql>)
    requires
        drills.len() > 0,
        forall|k: int| 0 <= k < drills.len() ==> (#[trigger] drills[k]).level_columns@.len() > 0,
    ensures
        drills_key_aliases(drills).len() > 0,
{
    let d = drills.last();
    assert(d == drills[drills.len() - 1]);
}

/// Without a requested sort, the query ends by ordering on the key columns of the
/// drilldowns, in drilldown order and root to leaf within each, all ascending, before
/// any limit.
pub proof fn lemma_default_order(ir: &QueryIr)
    requires
        ir.sort is None,
        ir.drills@.len() > 0,
        forall|k: int| 0 <= k < ir.drills@.len() ==> (#[trigger] ir.drills@[k]).level_columns@.len() > 0,
    ensures
        standard_sql_spec(ir) == result_sql(ir) + kw_order_by() + joined(
            default_order_items(ir),
            sep_comma(),
        ) + limit_clause(ir),
        default_order_items(ir).len() == drills_key_aliases(ir.drills@).len(),
        forall|i: int|
            0 <= i < default_order_items(ir).len() ==> #[trigger] default_order_items(ir)[i]
                == drills_key_aliases(ir.drills@)[i] + seq![' ', 'a', 's', 'c'],
{
    lemma_key_aliases_nonempty(ir.drills@);
}

/// The conditions of a list of cuts hold the same cut's condition wherever the cut
/// stands, and adding a cut that is already there adds no new condition.
pub proof fn lemma_cut_idempotent(fact: Seq<char>, cuts: Seq<CutSql>, i: int, j: int)
    requires
        0 <= i < cuts.len(),
        0 <= j < cuts.len(),
        cuts[i] == cuts[j],
    ensures
        cut_fragments(fact, cuts)[i] == cut_fragments(fact, cuts)[j],
        cut_fragments(fact, cuts.push(cuts[i])).to_set() == cut_fragments(fact, cuts).to_set(),
{
    let f = cut_fragments(fact, cuts);
    let g = cut_fragments(fact, cuts.push(cuts[i]));
    assert(g =~= f.push(f[i]));
    assert forall|x: Seq<char>| g.to_set().contains(x) <==> f.to_set().contains(x) by {
        if g.to_set().contains(x) {
            let k = choose|k: int| 0 <= k < g.len() && g[k] == x;
            if k == f.len() {
                assert(f[i] == x);
            } else {
                assert(f[k] == x);
            }
        }
        if f.to_set().contains(x) {
            let k = choose|k: int| 0 <= k < f.len() && f[k] == x;
            assert(g[k] == x);
        }
    }
    assert(g.to_set() =~= f.to_set());
}

/// Swapping two neighbouring cuts, such as an inclusion and an exclusion, changes only
/// the order of the conditions that the `where` clause joins with `and`: the same
/// conditions, each as many times.
pub proof fn lemma_cut_swap(fact: Seq<char>, before: Seq<CutSql>, a: CutSql, b: CutSql, after: Seq<CutSql>)
    ensures
        cut_fragments(fact, before + seq![a, b] + after).to_multiset() == cut_fragments(
            fact,
            before + seq![b, a] + after,
        ).to_multiset(),
        cut_fragments(fact, before + seq![a, b] + after).to_set() == cut_fragments(
            fact,
            before + seq![b, a] + after,
        ).to_set(),
{
    let fb = cut_fragments(fact, before);
    let fa = cut_fragments(fact, after);
    let x = cut_fragment(fact, &a);
    let y = cut_fragment(fact, &b);
    let s1 = cut_fragments(fact, before + seq![a, b] + after);
    let s2 = cut_fragments(fact, before + seq![b, a] + after);
    assert(s1 =~= fb + seq![x, y] + fa);
    assert(s2 =~= fb + seq![y, x] + fa);
    vstd::seq_lib::lemma_multiset_commutative(fb + seq![x, y], fa);
    vstd::seq_lib::lemma_multiset_commutative(fb + seq![y, x], fa);
    vstd::seq_lib::lemma_multiset_commutative(fb, seq![x, y]);
    vstd::seq_lib::lemma_multiset_commutative(fb, seq![y, x]);
    assert(seq![x, y] =~= seq![x].push(y));
    assert(seq![y, x] =~= seq![y].push(x));
    assert(seq![x] =~= Seq::<Seq<char>>::empty().push(x));
    assert(seq![y] =~= Seq::<Seq<char>>::empty().push(y));
    Seq::<Seq<char>>::empty().to_multiset_ensures();
    seq![x].to_multiset_ensures();
    seq![y].to_multiset_ensures();
    assert(seq![x, y].to_multiset() =~= seq![y, x].to_multiset());
    assert(s1.to_multiset() =~= s2.to_multiset());
    assert forall|e: Seq<char>| s1.to_set().contains(e) <==> s2.to_set().contains(e) by {
        assert(s1.to_multiset().count(e) == s2.to_multiset().count(e));
        s1.to_multiset_ensures();
        s2.to_multiset_ensures();
    }
    assert(s1.to_set() =~= s2.to_set());
}


proof fn lemma_decimal_no_underscore(n: nat)
    ensures
        !decimal(n).contains('_'),
{
    lemma_decimal(n);
    if decimal(n).contains('_') {
        let k = choose|k: int| 0 <= k < decimal(n).len() && decimal(n)[k] == '_';
        assert(is_digit(decimal(n)[k]));
    }
}

proof fn lemma_decimal_injective(i: nat, j: nat)
    requires
        decimal(i) == decimal(j),
    ensures
        i == j,
{
    lemma_decimal(i);
    lemma_decimal(j);
}

/// `x_d` determines `x` and `d` where `d` holds no underscore.
proof fn lemma_postfixed_injective(x1: Seq<char>, d1: Seq<char>, x2: Seq<char>, d2: Seq<char>)
    requires
        !d1.contains('_'),
        !d2.contains('_'),
        postfixed(x1, d1) == postfixed(x2, d2),
    ensures
        x1 == x2,
        d1 == d2,
{
    let s = postfixed(x1, d1);
    if d1.len() < d2.len() {
        let p = s.len() - d1.len() - 1;
        assert(s[p] == '_');
        assert(postfixed(x2, d2)[p] == d2[p - x2.len() - 1]);
        assert(d2.contains('_'));
    } else if d2.len() < d1.len() {
        let p = s.len() - d2.len() - 1;
        assert(postfixed(x2, d2)[p] == '_');
        assert(s[p] == d1[p - x1.len() - 1]);
        assert(d1.contains('_'));
    } else {
        assert(s.len() == x1.len() + 1 + d1.len());
        assert(postfixed(x2, d2).len() == x2.len() + 1 + d2.len());
        assert(x1.len() == x2.len());
        assert forall|k: int| 0 <= k < x1.len() implies x1[k] == x2[k] by {
            assert(s[k] == x1[k]);
            assert(postfixed(x2, d2)[k] == x2[k]);
        }
        assert forall|k: int| 0 <= k < d1.len() implies d1[k] == d2[k] by {
            assert(s[x1.len() + 1 + k] == d1[k]);
            assert(postfixed(x2, d2)[x2.len() + 1 + k] == d2[k]);
        }
        assert(x1 =~= x2);
        assert(d1 =~= d2);
    }
}

/// The key and name columns of distinct levels differ, and no level's key column is
/// also a name column.
pub open spec fn columns_distinct(cols: Seq<LevelColumn>) -> bool {
    &&& forall|i: int, j: int|
        0 <= i < cols.len() && 0 <= j < cols.len() && i != j ==> (#[trigger] cols[i]).key_column@
            != (#[trigger] cols[j]).key_column@
    &&& forall|i: int, j: int|
        0 <= i < cols.len() && 0 <= j < cols.len() && i != j && (#[trigger] cols[i]).name_column is Some
            && (#[trigger] cols[j]).name_column is Some ==> cols[i].name_column.unwrap()@
            != cols[j].name_column.unwrap()@
    &&& forall|i: int, j: int|
        0 <= i < cols.len() && 0 <= j < cols.len() && (#[trigger] cols[j]).name_column is Some
            ==> (#[trigger] cols[i]).key_column@ != cols[j].name_column.unwrap()@
}

/// A column of the level columns `cols`: a key column, or a name column.
pub open spec fn is_level_column(cols: Seq<LevelColumn>, x: Seq<char>) -> bool {
    exists|i: int|
        0 <= i < cols.len() && ((#[trigger] cols[i]).key_column@ == x || (cols[i].name_column is Some && cols[i].name_column.unwrap()@ == x))
}

#[verifier::rlimit(30)]
proof fn lemma_level_aliases_unique(cols: Seq<LevelColumn>, pf: Seq<char>)
    requires
        columns_distinct(cols),
        !pf.contains('_'),
    ensures
        level_aliases(cols, pf).no_duplicates(),
        forall|e: Seq<char>|
            #![trigger level_aliases(cols, pf).contains(e)]
            level_aliases(cols, pf).contains(e) ==> exists|x: Seq<char>|
                is_level_column(cols, x) && e == postfixed(x, pf),
    decreases cols.len(),
{
    if cols.len() > 0 {
        let init = cols.drop_last();
        let l = cols.last();
        let n = cols.len() - 1;
        assert(l == cols[n]);
        assert(columns_distinct(init)) by {
            assert forall|i: int, j: int| 0 <= i < init.len() && 0 <= j < init.len() implies init[i]
                == cols[i] && init[j] == cols[j] by {}
        }
        lemma_level_aliases_unique(init, pf);
        let a = level_aliases(init, pf);
        let b = match l.name_column {
            Some(nm) => seq![postfixed(l.key_column@, pf), postfixed(nm@, pf)],
            None => seq![postfixed(l.key_column@, pf)],
        };
        assert(level_aliases(cols, pf) == a + b);
        // the new aliases are not among the old ones
        assert forall|e: Seq<char>| b.contains(e) implies !a.contains(e) by {
            if a.contains(e) {
                let x = choose|x: Seq<char>| is_level_column(init, x) && e == postfixed(x, pf);
                let i = choose|i: int|
                    0 <= i < init.len() && ((#[trigger] init[i]).key_column@ == x || (init[i].name_column is Some && init[i].name_column.unwrap()@
                        == x));
                assert(init[i] == cols[i]);
                let k = choose|k: int| 0 <= k < b.len() && b[k] == e;
                if k == 0 {
                    lemma_postfixed_injective(x, pf, l.key_column@, pf);
                } else {
                    lemma_postfixed_injective(x, pf, l.name_column.unwrap()@, pf);
                }
            }
        }
        if l.name_column is Some {
            if b[0] == b[1] {
                lemma_postfixed_injective(l.key_column@, pf, l.name_column.unwrap()@, pf);
            }
        }
        assert forall|i: int, j: int|
            0 <= i < (a + b).len() && 0 <= j < (a + b).len() && i != j implies (a + b)[i] != (a
                + b)[j] by {
            if i < a.len() && j >= a.len() {
                assert(b.contains((a + b)[j]));
                assert(a.contains((a + b)[i]));
            } else if j < a.len() && i >= a.len() {
                assert(b.contains((a + b)[i]));
                assert(a.contains((a + b)[j]));
            }
        }
        assert forall|e: Seq<char>| (a + b).contains(e) implies exists|x: Seq<char>|
            is_level_column(cols, x) && e == postfixed(x, pf) by {
            let k = choose|k: int| 0 <= k < (a + b).len() && (a + b)[k] == e;
            if k < a.len() {
                assert(a.contains(e));
                let x = choose|x: Seq<char>| is_level_column(init, x) && e == postfixed(x, pf);
                let i = choose|i: int|
                    0 <= i < init.len() && ((#[trigger] init[i]).key_column@ == x || (init[i].name_column is Some && init[i].name_column.unwrap()@
                        == x));
                assert(init[i] == cols[i]);
                assert(is_level_column(cols, x));
            } else if k == a.len() {
                assert(is_level_column(cols, l.key_column@));
            } else {
                assert(is_level_column(cols, l.name_column.unwrap()@));
            }
        }
    } else {
        assert(level_aliases(cols, pf) =~= Seq::<Seq<char>>::empty());
    }
}


#[verifier::rlimit(30)]
proof fn lemma_drills_aliases_unique(ds: Seq<DrilldownSql>)
    requires
        forall|k: int|
            0 <= k < ds.len() ==> (#[trigger] ds[k]).alias_postfix@ == decimal(k as nat)
                && columns_distinct(ds[k].level_columns@),
    ensures
        drills_level_aliases(ds).no_duplicates(),
        forall|e: Seq<char>|
            #![trigger drills_level_aliases(ds).contains(e)]
            drills_level_aliases(ds).contains(e) ==> exists|x: Seq<char>, k: int|
                0 <= k < ds.len() && e == #[trigger] postfixed(x, decimal(k as nat)),
    decreases ds.len(),
{
    if ds.len() > 0 {
        let init = ds.drop_last();
        let n = ds.len() - 1;
        let d = ds.last();
        assert(d == ds[n]);
        assert forall|k: int| 0 <= k < init.len() implies (#[trigger] init[k]).alias_postfix@
            == decimal(k as nat) && columns_distinct(init[k].level_columns@) by {
            assert(init[k] == ds[k]);
        }
        lemma_drills_aliases_unique(init);
        lemma_decimal_no_underscore(n as nat);
        lemma_level_aliases_unique(d.level_columns@, d.alias_postfix@);
        let a = drills_level_aliases(init);
        let b = level_aliases(d.level_columns@, d.alias_postfix@);
        assert(drills_level_aliases(ds) == a + b);
        assert forall|e: Seq<char>| b.contains(e) implies !a.contains(e) by {
            if a.contains(e) {
                let (x, k) = choose|x: Seq<char>, k: int|
                    0 <= k < init.len() && e == #[trigger] postfixed(x, decimal(k as nat));
                let y = choose|y: Seq<char>|
                    is_level_column(d.level_columns@, y) && e == postfixed(y, d.alias_postfix@);
                lemma_decimal_no_underscore(k as nat);
                lemma_postfixed_injective(x, decimal(k as nat), y, decimal(n as nat));
                lemma_decimal_injective(k as nat, n as nat);
            }
        }
        assert forall|i: int, j: int|
            0 <= i < (a + b).len() && 0 <= j < (a + b).len() && i != j implies (a + b)[i] != (a
                + b)[j] by {
            if i < a.len() && j >= a.len() {
                assert(b.contains((a + b)[j]));
                assert(a.contains((a + b)[i]));
            } else if j < a.len() && i >= a.len() {
                assert(b.contains((a + b)[i]));
                assert(a.contains((a + b)[j]));
            }
        }
        assert forall|e: Seq<char>| (a + b).contains(e) implies exists|x: Seq<char>, k: int|
            0 <= k < ds.len() && e == #[trigger] postfixed(x, decimal(k as nat)) by {
            let p = choose|p: int| 0 <= p < (a + b).len() && (a + b)[p] == e;
            if p < a.len() {
                assert(a.contains(e));
                let (x, k) = choose|x: Seq<char>, k: int|
                    0 <= k < init.len() && e == #[trigger] postfixed(x, decimal(k as nat));
                assert(0 <= k < ds.len() && e == postfixed(x, decimal(k as nat)));
            } else {
                assert(b.contains(e));
                let y = choose|y: Seq<char>|
                    is_level_column(d.level_columns@, y) && e == postfixed(y, d.alias_postfix@);
                assert(0 <= n < ds.len() && e == postfixed(y, decimal(n as nat)));
            }
        }
    } else {
        assert(drills_level_aliases(ds) =~= Seq::<Seq<char>>::empty());
    }
}

/// The column names that the result carries under aliases: the level aliases of the
/// grouping drilldowns, the measure names as identifiers, and the calculations.
pub open spec fn emitted_aliases(ir: &QueryIr) -> Seq<Seq<char>> {
    drills_level_aliases(agg_drills(ir)) + measure_cols(ir.meas@) + rate_names(ir) + rca_names(ir)
        + if ir.growth is Some {
        seq![growth_name()]
    } else {
        Seq::empty()
    }
}

/// A name that holds an underscore and ends in a digit, as every level alias does.
pub open spec fn alias_shaped(e: Seq<char>) -> bool {
    e.contains('_') && e.len() > 0 && is_digit(e.last())
}

proof fn lemma_no_underscore(e: Seq<char>)
    requires
        forall|i: int| 0 <= i < e.len() ==> #[trigger] e[i] != '_',
    ensures
        !alias_shaped(e),
{
}

proof fn lemma_ident_not_alias_shaped(m: Seq<char>)
    ensures
        !alias_shaped(ident(m)),
        !reserved_word(ident(m)),
{
    if bare_ident(m) {
        assert forall|i: int| 0 <= i < m.len() implies #[trigger] m[i] != '_' by {
            assert(is_ascii_letter(m[i]) || is_digit(m[i]));
        }
    } else {
        let q = ident(m);
        assert(q.last() == '"');
        assert(q[0] == '"');
    }
}

/// No two level aliases, measure columns or calculation names of the result are the
/// same, where the `k`th grouping drilldown has the postfix `k` and distinct level
/// columns, and the measures have distinct names.
#[verifier::rlimit(30)]
pub proof fn lemma_alias_uniqueness(ir: &QueryIr)
    requires
        forall|k: int|
            0 <= k < agg_drills(ir).len() ==> (#[trigger] agg_drills(ir)[k]).alias_postfix@ == decimal(
                k as nat,
            ) && columns_distinct(agg_drills(ir)[k].level_columns@),
        forall|a: int, b: int|
            0 <= a < ir.meas@.len() && 0 <= b < ir.meas@.len() && a != b ==> (
            #[trigger] ir.meas@[a]).name@ != (#[trigger] ir.meas@[b]).name@,
    ensures
        emitted_aliases(ir).no_duplicates(),
{
    let a = drills_level_aliases(agg_drills(ir));
    let m = measure_cols(ir.meas@);
    let c = rate_names(ir) + rca_names(ir) + if ir.growth is Some {
        seq![growth_name()]
    } else {
        Seq::<Seq<char>>::empty()
    };
    lemma_drills_aliases_unique(agg_drills(ir));
    assert(emitted_aliases(ir) =~= a + (m + c));
    assert forall|e: Seq<char>| a.contains(e) implies alias_shaped(e) by {
        let (x, k) = choose|x: Seq<char>, k: int|
            0 <= k < agg_drills(ir).len() && e == #[trigger] postfixed(x, decimal(k as nat));
        assert(e[x.len() as int] == '_');
        lemma_decimal(k as nat);
        assert(e.last() == decimal(k as nat).last());
        assert(is_digit(decimal(k as nat)[decimal(k as nat).len() - 1]));
    }
    assert forall|j: int| 0 <= j < c.len() implies !alias_shaped(#[trigger] c[j]) && c[j][0] != '"'
        && reserved_word(c[j]) by {
        let e = c[j];
        assert(e == rate_name() || e == rca_name() || e == growth_name());
        assert forall|i: int| 0 <= i < e.len() implies #[trigger] e[i] != '_' by {}
        lemma_no_underscore(e);
    }
    assert forall|j: int| 0 <= j < m.len() implies !alias_shaped(#[trigger] m[j]) && !reserved_word(m[j]) by {
        lemma_ident_not_alias_shaped(ir.meas@[j].name@);
    }
    let mc = m + c;
    assert forall|i: int, j: int|
        0 <= i < mc.len() && 0 <= j < mc.len() && i != j implies mc[i] != mc[j] by {
        if i < m.len() && j < m.len() {
            if mc[i] == mc[j] {
                lemma_ident_injective(ir.meas@[i].name@, ir.meas@[j].name@);
            }
        } else if i < m.len() {
            assert(!reserved_word(m[i]));
            assert(reserved_word(c[j - m.len()]));
        } else if j < m.len() {
            assert(!reserved_word(m[j]));
            assert(reserved_word(c[i - m.len()]));
        } else {
            assert(c[i - m.len()].len() != c[j - m.len()].len());
        }
    }
    assert forall|e: Seq<char>| mc.contains(e) implies !alias_shaped(e) by {
        let p = choose|p: int| 0 <= p < mc.len() && mc[p] == e;
        if p < m.len() {
            assert(!alias_shaped(m[p]));
        } else {
            assert(!alias_shaped(c[p - m.len()]));
        }
    }
    assert forall|i: int, j: int|
        0 <= i < (a + mc).len() && 0 <= j < (a + mc).len() && i != j implies (a + mc)[i] != (a
            + mc)[j] by {
        if i < a.len() && j >= a.len() {
            assert(a.contains((a + mc)[i]));
            assert(mc.contains((a + mc)[j]));
        } else if j < a.len() && i >= a.len() {
            assert(a.contains((a + mc)[j]));
            assert(mc.contains((a + mc)[i]));
        }
    }
}

/// The key and name columns of the levels of each hierarchy of `c` are distinct; a
/// well-formed cube has this.
pub open spec fn cube_columns_distinct(c: &Cube) -> bool {
    forall|d: int, h: int|
        0 <= d < c.dimensions@.len() && 0 <= h < c.dimensions@[d].hierarchies@.len()
            ==> columns_distinct(
            (#[trigger] c.dimensions@[d].hierarchies@[h]).levels@.map_values(
                |l: Level| level_column_of(l),
            ),
        )
}

proof fn lemma_columns_distinct_subrange(m: Seq<LevelColumn>, a: int, b: int)
    requires
        columns_distinct(m),
        0 <= a <= b <= m.len(),
    ensures
        columns_distinct(m.subrange(a, b)),
{
    let r = m.subrange(a, b);
    assert forall|i: int| 0 <= i < r.len() implies #[trigger] r[i] == m[a + i] by {}
}

proof fn lemma_bound_drill_columns(c: &Cube, lv: LevelNameView, k: nat, parents: bool, props: Seq<Seq<char>>, d: &DrilldownSql)
    requires
        cube_columns_distinct(c),
        has_level(c, lv),
        drill_binds(c, lv, k, parents, props, d),
    ensures
        d.alias_postfix@ == decimal(k),
        columns_distinct(d.level_columns@),
{
    let (d0, h0, i0) = choose|d0: int, h0: int, i0: int| level_matches(c, d0, h0, i0, lv);
    let w = (d0, h0, i0);
    assert(level_matches(c, w.0, w.1, w.2, lv));
    let t = level_index(c, lv);
    assert(level_matches(c, t.0, t.1, t.2, lv));
    let hier = c.dimensions@[t.0].hierarchies@[t.1];
    let m = hier.levels@.map_values(|l: Level| level_column_of(l));
    let start = if parents {
        0
    } else {
        t.2
    };
    assert(columns_distinct(m));
    lemma_columns_distinct_subrange(m, start, t.2 + 1);
    assert(d.level_columns@ =~= m.subrange(start, t.2 + 1));
}

/// The aliases of every compiled request are free of duplicates.
pub proof fn lemma_compiled_aliases_unique(s: &Schema, cube: Seq<char>, q: &Query, ir: &QueryIr, headers: Seq<Seq<char>>)
    requires
        has_cube(s, cube),
        query_failure(&s.cubes@[cube_pos(s, cube)], q) is None,
        compiled(&s.cubes@[cube_pos(s, cube)], q, ir, headers),
        s.wf(),
    ensures
        emitted_aliases(ir).no_duplicates(),
{
    let c = &s.cubes@[cube_pos(s, cube)];
    lemma_cube_pos(s, cube);
    assert(c.wf());
    assert forall|d: int, h: int|
        0 <= d < c.dimensions@.len() && 0 <= h < c.dimensions@[d].hierarchies@.len() implies columns_distinct(
        (#[trigger] c.dimensions@[d].hierarchies@[h]).levels@.map_values(|l: Level| level_column_of(l)),
    ) by {
        assert(crate::schema::dimension_wf(c.dimensions@[d]));
        assert(crate::schema::hierarchy_wf(c.dimensions@[d].hierarchies@[h]));
    }
    assert(cube_columns_distinct(c));
    lemma_compiled_postfixes(c, q, ir, headers);
    lemma_compiled_measures_distinct(c, q, ir, headers);
    lemma_alias_uniqueness(ir);
}

#[verifier::rlimit(30)]
proof fn lemma_compiled_postfixes(c: &Cube, q: &Query, ir: &QueryIr, headers: Seq<Seq<char>>)
    requires
        query_failure(c, q) is None,
        compiled(c, q, ir, headers),
        cube_columns_distinct(c),
    ensures
        forall|k: int|
            0 <= k < agg_drills(ir).len() ==> (#[trigger] agg_drills(ir)[k]).alias_postfix@ == decimal(
                k as nat,
            ) && columns_distinct(agg_drills(ir)[k].level_columns@),
{
    let ag = agg_drills(ir);
    let n = ir.drills@.len();
    assert(drills_found(c, q));
    assert forall|k: int| 0 <= k < ag.len() implies (#[trigger] ag[k]).alias_postfix@ == decimal(
        k as nat,
    ) && columns_distinct(ag[k].level_columns@) by {
        if k < n {
            assert(ag[k] == ir.drills@[k]);
            assert(has_level(c, q.drilldowns@[k]@));
            lemma_bound_drill_columns(
                c,
                q.drilldowns@[k]@,
                k as nat,
                q.parents,
                drill_props(c, q.properties@, q.drilldowns@[k]@),
                &ir.drills@[k],
            );
        } else {
            let rs = ir.rca.unwrap();
            let rq = q.rca.unwrap();
            if k == n {
                assert(ag[k] == rs.drill_1@[0]);
                lemma_bound_drill_columns(c, rq.drill_1@, n as nat, q.parents, Seq::empty(), &rs.drill_1@[0]);
            } else {
                assert(ag[k] == rs.drill_2@[0]);
                lemma_bound_drill_columns(c, rq.drill_2@, (n + 1) as nat, q.parents, Seq::empty(), &rs.drill_2@[0]);
            }
        }
    }
}

proof fn lemma_compiled_measures_distinct(c: &Cube, q: &Query, ir: &QueryIr, headers: Seq<Seq<char>>)
    requires
        query_failure(c, q) is None,
        compiled(c, q, ir, headers),
    ensures
        forall|a: int, b: int|
            0 <= a < ir.meas@.len() && 0 <= b < ir.meas@.len() && a != b ==> (
            #[trigger] ir.meas@[a]).name@ != (#[trigger] ir.meas@[b]).name@,
{
    assert(crate::compiler::measures_distinct(q));
    assert forall|a: int, b: int|
        0 <= a < ir.meas@.len() && 0 <= b < ir.meas@.len() && a != b implies (
        #[trigger] ir.meas@[a]).name@ != (#[trigger] ir.meas@[b]).name@ by {
        assert(crate::compiler::measure_binds(c, q.measures@[a]@, &ir.meas@[a]));
        assert(crate::compiler::measure_binds(c, q.measures@[b]@, &ir.meas@[b]));
        assert(q.measures@[a]@ != q.measures@[b]@);
    }
}


proof fn lemma_same_inline_wf(a: Option<crate::schema::InlineTable>, b: Option<crate::schema::InlineTable>)
    requires
        same_inline(a, b),
        b matches Some(it) ==> it.wf(),
    ensures
        a matches Some(it) ==> it.wf(),
{
}

proof fn lemma_bound_drill_wf(c: &Cube, lv: LevelNameView, k: nat, parents: bool, props: Seq<Seq<char>>, d: &DrilldownSql)
    requires
        c.wf(),
        has_level(c, lv),
        drill_binds(c, lv, k, parents, props, d),
    ensures
        drill_inline_wf(Some(d)),
        d.level_columns@.len() > 0,
{
    let (d0, h0, i0) = choose|d0: int, h0: int, i0: int| level_matches(c, d0, h0, i0, lv);
    let w = (d0, h0, i0);
    assert(level_matches(c, w.0, w.1, w.2, lv));
    let t = level_index(c, lv);
    assert(level_matches(c, t.0, t.1, t.2, lv));
    let hier = c.dimensions@[t.0].hierarchies@[t.1];
    assert(match hier.inline_table {
        Some(it) => it.wf(),
        None => true,
    });
    lemma_same_inline_wf(d.inline_table, hier.inline_table);
    assert(drill_levels(c, lv, parents).len() > 0);
}

/// Every plan that the compiler returns meets the precondition of the SQL writer.
#[verifier::rlimit(30)]
pub proof fn lemma_compiled_wf(c: &Cube, q: &Query, ir: &QueryIr, headers: Seq<Seq<char>>)
    requires
        c.wf(),
        query_failure(c, q) is None,
        compiled(c, q, ir, headers),
        q.drilldowns@.len() + 2 <= usize::MAX,
    ensures
        ir_wf(ir),
{
    assert(drills_found(c, q));
    assert forall|k: int| 0 <= k < ir.cuts@.len() implies cut_inline_wf(#[trigger] &ir.cuts@[k]) by {
        let cut = q.cuts@[k];
        assert(has_level(c, cut.level_name@));
        assert(cut_binds(c, &cut, &ir.cuts@[k]));
        let (d0, h0, i0) = choose|d0: int, h0: int, i0: int| level_matches(c, d0, h0, i0, cut.level_name@);
        let w = (d0, h0, i0);
        assert(level_matches(c, w.0, w.1, w.2, cut.level_name@));
        let t = level_index(c, cut.level_name@);
        assert(level_matches(c, t.0, t.1, t.2, cut.level_name@));
        let hier = c.dimensions@[t.0].hierarchies@[t.1];
        assert(match hier.inline_table {
            Some(it) => it.wf(),
            None => true,
        });
        lemma_same_inline_wf(ir.cuts@[k].inline_table, hier.inline_table);
    }
    let ag = agg_drills(ir);
    let n = ir.drills@.len();
    assert forall|k: int| 0 <= k < ag.len() implies drill_inline_wf(Some(#[trigger] &ag[k])) by {
        if k < n {
            assert(ag[k] == ir.drills@[k]);
            assert(has_level(c, q.drilldowns@[k]@));
            lemma_bound_drill_wf(
                c,
                q.drilldowns@[k]@,
                k as nat,
                q.parents,
                drill_props(c, q.properties@, q.drilldowns@[k]@),
                &ir.drills@[k],
            );
        } else {
            let rs = ir.rca.unwrap();
            let rq = q.rca.unwrap();
            assert(rca_ok(c, q));
            if k == n {
                assert(ag[k] == rs.drill_1@[0]);
                lemma_bound_drill_wf(c, rq.drill_1@, n as nat, q.parents, Seq::empty(), &rs.drill_1@[0]);
            } else {
                assert(ag[k] == rs.drill_2@[0]);
                lemma_bound_drill_wf(c, rq.drill_2@, (n + 1) as nat, q.parents, Seq::empty(), &rs.drill_2@[0]);
            }
        }
    }
    if ir.growth is Some {
        let g = q.growth.unwrap();
        let gs = ir.growth.unwrap();
        assert(growth_ok(q));
        let k = choose|k: int| 0 <= k < q.drilldowns@.len() && (#[trigger] q.drilldowns@[k])@ == g.time_drill@;
        assert(has_level(c, q.drilldowns@[k]@));
        lemma_bound_drill_wf(
            c,
            g.time_drill@,
            crate::compiler::drill_pos(q.drilldowns@, g.time_drill@) as nat,
            q.parents,
            drill_props(c, q.properties@, g.time_drill@),
            &gs.time_drill,
        );
    }
    if ir.rate is Some {
        let r = q.rate.unwrap();
        let rs = ir.rate.unwrap();
        assert(rate_ok(c, q));
        lemma_bound_drill_wf(c, r.level_name@, q.drilldowns@.len() + 2, false, Seq::empty(), &rs.drilldown_sql);
    }
    lemma_header_count(c, q, ir, headers);
    assert(ir.headers@.len() == ir.headers.deep_view().len());
}


/// A compiled request without a sort orders its rows by the key columns of its
/// drilldowns, in request order and root to leaf within each, all ascending.
pub proof fn lemma_compiled_default_order(s: &Schema, cube: Seq<char>, q: &Query, ir: &QueryIr, headers: Seq<Seq<char>>)
    requires
        s.wf(),
        has_cube(s, cube),
        query_failure(&s.cubes@[cube_pos(s, cube)], q) is None,
        compiled(&s.cubes@[cube_pos(s, cube)], q, ir, headers),
        q.sort is None,
        q.drilldowns@.len() > 0,
    ensures
        standard_sql_spec(ir) == result_sql(ir) + kw_order_by() + joined(
            default_order_items(ir),
            sep_comma(),
        ) + limit_clause(ir),
        default_order_items(ir).len() == drills_key_aliases(ir.drills@).len(),
        forall|i: int|
            0 <= i < default_order_items(ir).len() ==> #[trigger] default_order_items(ir)[i]
                == drills_key_aliases(ir.drills@)[i] + seq![' ', 'a', 's', 'c'],
{
    let c = &s.cubes@[cube_pos(s, cube)];
    lemma_cube_pos(s, cube);
    assert(c.wf());
    assert(drills_found(c, q));
    assert forall|k: int| 0 <= k < ir.drills@.len() implies (#[trigger] ir.drills@[k]).level_columns@.len() > 0 by {
        assert(has_level(c, q.drilldowns@[k]@));
        lemma_bound_drill_wf(
            c,
            q.drilldowns@[k]@,
            k as nat,
            q.parents,
            drill_props(c, q.properties@, q.drilldowns@[k]@),
            &ir.drills@[k],
        );
    }
    lemma_default_order(ir);
}


proof fn lemma_level_aliases_form(cols: Seq<LevelColumn>, pf: Seq<char>)
    ensures
        forall|e: Seq<char>|
            #![trigger level_aliases(cols, pf).contains(e)]
            level_aliases(cols, pf).contains(e) ==> exists|x: Seq<char>| e == #[trigger] postfixed(x, pf),
    decreases cols.len(),
{
    if cols.len() > 0 {
        lemma_level_aliases_form(cols.drop_last(), pf);
        let a = level_aliases(cols.drop_last(), pf);
        let l = cols.last();
        assert forall|e: Seq<char>| level_aliases(cols, pf).contains(e) implies exists|x: Seq<char>|
            e == #[trigger] postfixed(x, pf) by {
            let k = choose|k: int| 0 <= k < level_aliases(cols, pf).len() && level_aliases(cols, pf)[k] == e;
            if k < a.len() {
                assert(a.contains(e));
            } else if k == a.len() {
                assert(e == postfixed(l.key_column@, pf));
            } else {
                assert(e == postfixed(l.name_column.unwrap()@, pf));
            }
        }
    }
}

/// The aliases of one drilldown without properties hold no duplicates where its level
/// columns are distinct, and share none with those of a drilldown with another
/// postfix, where neither postfix holds an underscore.
pub proof fn lemma_drilldown_aliases_apart(d1: &DrilldownSql, d2: &DrilldownSql)
    requires
        d1.property_columns@.len() == 0,
        d2.property_columns@.len() == 0,
        columns_distinct(d1.level_columns@),
        d1.alias_postfix@ != d2.alias_postfix@,
        !d1.alias_postfix@.contains('_'),
        !d2.alias_postfix@.contains('_'),
    ensures
        d1.alias_only_spec().no_duplicates(),
        forall|e: Seq<char>| d1.alias_only_spec().contains(e) ==> !d2.alias_only_spec().contains(e),
{
    assert(d1.property_columns.deep_view().len() == 0);
    assert(d2.property_columns.deep_view().len() == 0);
    let a1 = level_aliases(d1.level_columns@, d1.alias_postfix@);
    let a2 = level_aliases(d2.level_columns@, d2.alias_postfix@);
    assert(d1.alias_only_spec() =~= a1);
    assert(d2.alias_only_spec() =~= a2);
    lemma_level_aliases_unique(d1.level_columns@, d1.alias_postfix@);
    lemma_level_aliases_form(d1.level_columns@, d1.alias_postfix@);
    lemma_level_aliases_form(d2.level_columns@, d2.alias_postfix@);
    assert forall|e: Seq<char>| a1.contains(e) implies !a2.contains(e) by {
        if a2.contains(e) {
            let x = choose|x: Seq<char>| e == #[trigger] postfixed(x, d1.alias_postfix@);
            let y = choose|y: Seq<char>| e == #[trigger] postfixed(y, d2.alias_postfix@);
            lemma_postfixed_injective(x, d1.alias_postfix@, y, d2.alias_postfix@);
        }
    }
}

/// A cut gives the same condition on the fact table in any two plans over the same
/// fact table, and equal plans give the same query.
pub proof fn lemma_cut_fragment_across_plans(ir1: &QueryIr, ir2: &QueryIr, i: int, j: int)
    requires
        ir1.table.name@ == ir2.table.name@,
        0 <= i < ir1.cuts@.len(),
        0 <= j < ir2.cuts@.len(),
        ir1.cuts@[i] == ir2.cuts@[j],
    ensures
        cut_fragments(ir1.table.name@, ir1.cuts@)[i] == cut_fragments(ir2.table.name@, ir2.cuts@)[j],
        *ir1 == *ir2 ==> standard_sql_spec(ir1) == standard_sql_spec(ir2),
{
}

} // verus!
