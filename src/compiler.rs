//! Binding a request to a cube: from names to the physical plan and the headers of
//! its result.

use vstd::prelude::*;
use crate::names::{Cut, Drilldown, LevelName, LevelNameView, Measure, Property, PropertyView};
use crate::query::{rca_duplicate, Calculation, MeaOrCalc, MeaOrCalcView, Query};
use crate::query_ir::{
    postfixed, postfixed_exec, CutSql, DrilldownSql, FilterSql, GrowthSql, LevelColumn, LimitSql,
    MeasureSql, QueryIr, RateSql, RcaSql, SortSql, TableSql, TopSql, TopWhereSql,
};
use crate::schema::{
    has_level, has_measure, has_property, level_matches, property_matches, Cube, InlineTable,
    Level, Schema,
};
use crate::text::{cat, decimal, ident, owned, sql_ident, u64_decimal};
use crate::schema::{inline_table_sql, table_full_name};
use crate::sql::{emitted_aliases, ir_wf, lemma_compiled_aliases_unique, lemma_compiled_wf};

verus! {

/// Why a request does not compile against a schema.
#[derive(Debug, Clone, Copy, PartialEq, Eq, Structural)]
pub enum SchemaError {
    CubeNotFound,
    InvalidRca,
    LevelNotFound,
    MeasureNotFound,
    PropertyNotFound,
    InvalidGrowth,
    InvalidRate,
    AmbiguousName,
}

/// The indices of the level named `l`; in a well-formed cube there is at most one.
pub open spec fn level_index(c: &Cube, l: LevelNameView) -> (int, int, int) {
    choose|t: (int, int, int)| level_matches(c, t.0, t.1, t.2, l)
}

pub proof fn lemma_level_index(c: &Cube, l: LevelNameView, d: int, h: int, i: int)
    requires
        c.wf(),
        level_matches(c, d, h, i, l),
    ensures
        level_index(c, l) == (d, h, i),
{
    let w = (d, h, i);
    assert(level_matches(c, w.0, w.1, w.2, l));
    let t = level_index(c, l);
    assert(level_matches(c, t.0, t.1, t.2, l));
}

/// The column of the property that `p` names.
pub open spec fn property_column(c: &Cube, p: PropertyView) -> Seq<char> {
    let t = choose|t: (int, int, int, int)| property_matches(c, t.0, t.1, t.2, t.3, p);
    c.dimensions@[t.0].hierarchies@[t.1].levels@[t.2].properties@[t.3].column@
}

/// The index of the measure named `m`.
pub open spec fn measure_index(c: &Cube, m: Seq<char>) -> int {
    choose|j: int| 0 <= j < c.measures@.len() && (#[trigger] c.measures@[j]).name@ == m
}

pub open spec fn level_column_of(l: Level) -> LevelColumn {
    LevelColumn { key_column: l.key_column, name_column: l.name_column }
}

/// The first level that a drilldown of level `i` shows: the root where parents are
/// asked for, else the level itself.
pub open spec fn first_level(i: int, parents: bool) -> int {
    if parents {
        0
    } else {
        i
    }
}

/// The levels that a drilldown of `lv` shows, root to leaf.
pub open spec fn drill_levels(c: &Cube, lv: LevelNameView, parents: bool) -> Seq<Level> {
    let t = level_index(c, lv);
    c.dimensions@[t.0].hierarchies@[t.1].levels@.subrange(first_level(t.2, parents), t.2 + 1)
}

pub open spec fn same_inline(a: Option<InlineTable>, b: Option<InlineTable>) -> bool {
    match (a, b) {
        (Some(x), Some(y)) => x.same(&y),
        (None, None) => true,
        _ => false,
    }
}

/// `ds` is the drilldown of `lv` in `c`, the `k`th of its request, with the property
/// columns `props`.
pub open spec fn drill_binds(
    c: &Cube,
    lv: LevelNameView,
    k: nat,
    parents: bool,
    props: Seq<Seq<char>>,
    ds: &DrilldownSql,
) -> bool {
    let t = level_index(c, lv);
    let dim = c.dimensions@[t.0];
    let hier = dim.hierarchies@[t.1];
    &&& ds.alias_postfix@ == decimal(k)
    &&& ds.table == hier.table
    &&& ds.primary_key == hier.primary_key
    &&& ds.foreign_key == dim.foreign_key
    &&& ds.level_columns@ == drill_levels(c, lv, parents).map_values(|l: Level| level_column_of(l))
    &&& ds.property_columns.deep_view() == props
    &&& same_inline(ds.inline_table, hier.inline_table)
}

/// The columns of the requested properties of level `lv`, in request order.
pub open spec fn drill_props(c: &Cube, props: Seq<Property>, lv: LevelNameView) -> Seq<Seq<char>>
    decreases props.len(),
{
    if props.len() == 0 {
        Seq::empty()
    } else {
        let p = props.last();
        drill_props(c, props.drop_last(), lv) + if p.level_name@ == lv {
            seq![property_column(c, p@)]
        } else {
            Seq::empty()
        }
    }
}

/// The names of the requested properties of level `lv`, in request order.
pub open spec fn drill_prop_names(props: Seq<Property>, lv: LevelNameView) -> Seq<Seq<char>>
    decreases props.len(),
{
    if props.len() == 0 {
        Seq::empty()
    } else {
        let p = props.last();
        drill_prop_names(props.drop_last(), lv) + if p.level_name@ == lv {
            seq![p.property@]
        } else {
            Seq::empty()
        }
    }
}

/// `cs` is the cut `cut` on the key column of its level in `c`.
pub open spec fn cut_binds(c: &Cube, cut: &Cut, cs: &CutSql) -> bool {
    let t = level_index(c, cut.level_name@);
    let dim = c.dimensions@[t.0];
    let hier = dim.hierarchies@[t.1];
    let lvl = hier.levels@[t.2];
    &&& cs.table == hier.table
    &&& cs.primary_key == hier.primary_key
    &&& cs.foreign_key == dim.foreign_key
    &&& cs.column == lvl.key_column
    &&& cs.members.deep_view() == cut.members.deep_view()
    &&& cs.member_type == lvl.key_type
    &&& cs.mask == cut.mask
    &&& cs.for_match == cut.for_match
    &&& same_inline(cs.inline_table, hier.inline_table)
}

/// `ms` is the measure named `m` in `c`.
pub open spec fn measure_binds(c: &Cube, m: Seq<char>, ms: &MeasureSql) -> bool {
    let md = c.measures@[measure_index(c, m)];
    ms.aggregator == md.aggregator && ms.column == md.column && ms.name@ == m
}

/// The headers of one level: `<Level> ID` and `<Level>` where it has a name column,
/// else `<Level>`.
pub open spec fn level_headers(l: Level) -> Seq<Seq<char>> {
    match l.name_column {
        Some(_) => seq![l.name@ + seq![' ', 'I', 'D'], l.name@],
        None => seq![l.name@],
    }
}

pub open spec fn levels_headers(ls: Seq<Level>) -> Seq<Seq<char>>
    decreases ls.len(),
{
    if ls.len() == 0 {
        Seq::empty()
    } else {
        levels_headers(ls.drop_last()) + level_headers(ls.last())
    }
}

/// The level headers of all drilldowns, in request order.
pub open spec fn drills_headers(c: &Cube, drills: Seq<Drilldown>, parents: bool) -> Seq<Seq<char>>
    decreases drills.len(),
{
    if drills.len() == 0 {
        Seq::empty()
    } else {
        drills_headers(c, drills.drop_last(), parents) + levels_headers(
            drill_levels(c, drills.last()@, parents),
        )
    }
}

/// The property headers of all drilldowns, in request order.
pub open spec fn drills_prop_headers(props: Seq<Property>, drills: Seq<Drilldown>) -> Seq<Seq<char>>
    decreases drills.len(),
{
    if drills.len() == 0 {
        Seq::empty()
    } else {
        drills_prop_headers(props, drills.drop_last()) + drill_prop_names(props, drills.last()@)
    }
}

pub open spec fn measure_names(ms: Seq<Measure>) -> Seq<Seq<char>> {
    ms.map_values(|m: Measure| m@)
}

/// Whether `lv` is among the drilldowns.
pub open spec fn drilled(drills: Seq<Drilldown>, lv: LevelNameView) -> bool {
    exists|k: int| 0 <= k < drills.len() && (#[trigger] drills[k])@ == lv
}

/// Whether the measure `m` is among the requested measures.
pub open spec fn requested(ms: Seq<Measure>, m: Seq<char>) -> bool {
    exists|j: int| 0 <= j < ms.len() && (#[trigger] ms[j])@ == m
}

impl Cube {
    /// The drilldown of the level at `(d, h, i)`, `k`th of its request.
    fn drill_sql(
        &self,
        lv: &LevelName,
        d: usize,
        h: usize,
        i: usize,
        k: usize,
        parents: bool,
        props: Vec<String>,
    ) -> (r: DrilldownSql)
        requires
            self.wf(),
            level_matches(self, d as int, h as int, i as int, lv@),
        ensures
            drill_binds(self, lv@, k as nat, parents, props.deep_view(), &r),
    {
        proof {
            lemma_level_index(self, lv@, d as int, h as int, i as int);
        }
        let dim = &self.dimensions[d];
        let hier = &dim.hierarchies[h];
        let start: usize = if parents {
            0
        } else {
            i
        };
        let n_levels = hier.levels.len();
        let end = i + 1;
        let mut level_columns: Vec<LevelColumn> = Vec::new();
        let mut j: usize = start;
        while j < end
            invariant
                end == i + 1,
                start <= j <= end,
                i < hier.levels@.len(),
                level_columns@ =~= hier.levels@.subrange(start as int, j as int).map_values(
                    |l: Level| level_column_of(l),
                ),
            decreases i + 1 - j,
        {
            let l = &hier.levels[j];
            let lc = LevelColumn {
                key_column: l.key_column.clone(),
                name_column: match &l.name_column {
                    Some(n) => Some(n.clone()),
                    None => None,
                },
            };
            proof {
                assert(lc == level_column_of(*l));
            }
            level_columns.push(lc);
            j = j + 1;
        }
        DrilldownSql {
            alias_postfix: u64_decimal(k as u64),
            table: hier.table.clone(),
            primary_key: hier.primary_key.clone(),
            foreign_key: dim.foreign_key.clone(),
            level_columns,
            property_columns: props,
            inline_table: match &hier.inline_table {
                Some(it) => Some(it.clone()),
                None => None,
            },
        }
    }
}


/// The requested properties all exist, each on a drilled level.
pub open spec fn properties_ok(c: &Cube, props: Seq<Property>, drills: Seq<Drilldown>) -> bool {
    forall|k: int|
        0 <= k < props.len() ==> has_property(c, (#[trigger] props[k])@) && drilled(
            drills,
            props[k].level_name@,
        )
}

impl Cube {
    fn property_column_exec(&self, p: &Property) -> (r: String)
        requires
            self.wf(),
            has_property(self, p@),
        ensures
            r@ == property_column(self, p@),
    {
        match self.find_property(p) {
            Some((d, h, i, q)) => {
                proof {
                    let w = (d as int, h as int, i as int, q as int);
                    assert(property_matches(self, w.0, w.1, w.2, w.3, p@));
                    let t = choose|t: (int, int, int, int)|
                        property_matches(self, t.0, t.1, t.2, t.3, p@);
                    assert(level_matches(self, t.0, t.1, t.2, p.level_name@));
                    assert(level_matches(self, w.0, w.1, w.2, p.level_name@));
                    assert(t.0 == w.0 && t.1 == w.1 && t.2 == w.2);
                }
                self.dimensions[d].hierarchies[h].levels[i].properties[q].column.clone()
            },
            None => {
                proof {
                    assert(false);
                }
                owned("")
            },
        }
    }

    /// The columns and names of the requested properties of level `lv`.
    fn drill_properties(&self, props: &Vec<Property>, lv: &LevelName) -> (r: (Vec<String>, Vec<String>))
        requires
            self.wf(),
            forall|k: int| 0 <= k < props@.len() ==> has_property(self, (#[trigger] props@[k])@),
        ensures
            r.0.deep_view() == drill_props(self, props@, lv@),
            r.1.deep_view() == drill_prop_names(props@, lv@),
    {
        let mut cols: Vec<String> = Vec::new();
        let mut names: Vec<String> = Vec::new();
        let mut k: usize = 0;
        while k < props.len()
            invariant
                self.wf(),
                forall|k: int| 0 <= k < props@.len() ==> has_property(self, (#[trigger] props@[k])@),
                k <= props@.len(),
                cols.deep_view() =~= drill_props(self, props@.take(k as int), lv@),
                names.deep_view() =~= drill_prop_names(props@.take(k as int), lv@),
            decreases props@.len() - k,
        {
            let p = &props[k];
            proof {
                assert(props@.take(k + 1).drop_last() =~= props@.take(k as int));
                assert(props@.take(k + 1).last() == *p);
            }
            if p.level_name == *lv {
                let col = self.property_column_exec(p);
                let ghost prev_c = cols.deep_view();
                let ghost prev_n = names.deep_view();
                let ghost cv = col@;
                cols.push(col);
                names.push(p.property.clone());
                proof {
                    assert(cols.deep_view() =~= prev_c.push(cv));
                    assert(names.deep_view() =~= prev_n.push(p.property@));
                }
            }
            k = k + 1;
        }
        proof {
            assert(props@.take(props@.len() as int) =~= props@);
        }
        (cols, names)
    }

    /// The cut `cut`, bound to the key column of its level.
    fn cut_sql(&self, cut: &Cut) -> (r: CutSql)
        requires
            self.wf(),
            has_level(self, cut.level_name@),
        ensures
            cut_binds(self, cut, &r),
    {
        match self.find_level(&cut.level_name) {
            Some((d, h, i)) => {
                proof {
                    lemma_level_index(self, cut.level_name@, d as int, h as int, i as int);
                }
                let dim = &self.dimensions[d];
                let hier = &dim.hierarchies[h];
                let lvl = &hier.levels[i];
                let members = cut.members.clone();
                proof {
                    assert(members.deep_view() =~= cut.members.deep_view());
                }
                CutSql {
                    table: hier.table.clone(),
                    primary_key: hier.primary_key.clone(),
                    foreign_key: dim.foreign_key.clone(),
                    column: lvl.key_column.clone(),
                    members,
                    member_type: lvl.key_type,
                    mask: cut.mask,
                    for_match: cut.for_match,
                    inline_table: match &hier.inline_table {
                        Some(it) => Some(it.clone()),
                        None => None,
                    },
                }
            },
            None => {
                proof {
                    assert(false);
                }
                CutSql {
                    table: self.table.clone(),
                    primary_key: owned(""),
                    foreign_key: owned(""),
                    column: owned(""),
                    members: Vec::new(),
                    member_type: crate::schema::MemberType::Text,
                    mask: cut.mask,
                    for_match: false,
                    inline_table: None,
                }
            },
        }
    }

    /// The measure named `m`, bound to its column and aggregator.
    fn measure_sql(&self, m: &Measure) -> (r: MeasureSql)
        requires
            self.wf(),
            has_measure(self, m@),
        ensures
            measure_binds(self, m@, &r),
    {
        match self.find_measure(m) {
            Some(j) => {
                proof {
                    let t = measure_index(self, m@);
                    assert(0 <= t < self.measures@.len() && self.measures@[t].name@ == m@);
                    assert(self.measures@[j as int].name@ == self.measures@[t].name@);
                }
                let md = &self.measures[j];
                MeasureSql { aggregator: md.aggregator.clone(), column: md.column.clone(), name: m.0.clone() }
            },
            None => {
                proof {
                    assert(false);
                }
                MeasureSql { aggregator: crate::schema::Aggregator::Sum, column: owned(""), name: m.0.clone() }
            },
        }
    }

    /// The level headers of a drilldown of `lv`.
    fn drill_headers(&self, lv: &LevelName, parents: bool) -> (r: Vec<String>)
        requires
            self.wf(),
            has_level(self, lv@),
        ensures
            r.deep_view() == levels_headers(drill_levels(self, lv@, parents)),
    {
        match self.find_level(lv) {
            Some((d, h, i)) => {
                proof {
                    lemma_level_index(self, lv@, d as int, h as int, i as int);
                }
                let hier = &self.dimensions[d].hierarchies[h];
                let ghost ls = drill_levels(self, lv@, parents);
                let start: usize = if parents {
                    0
                } else {
                    i
                };
                let n_levels = hier.levels.len();
                let end = i + 1;
                let mut out: Vec<String> = Vec::new();
                let mut j: usize = start;
                while j < end
                    invariant
                        end == i + 1,
                        start <= j <= end,
                        i < hier.levels@.len(),
                        out.deep_view() =~= levels_headers(
                            hier.levels@.subrange(start as int, j as int),
                        ),
                    decreases end - j,
                {
                    let l = &hier.levels[j];
                    let ghost prev = out.deep_view();
                    proof {
                        assert(hier.levels@.subrange(start as int, j + 1).drop_last()
                            =~= hier.levels@.subrange(start as int, j as int));
                        assert(hier.levels@.subrange(start as int, j + 1).last() == *l);
                    }
                    match &l.name_column {
                        Some(_) => {
                            proof {
                                reveal_strlit(" ID");
                                assert(" ID"@ =~= seq![' ', 'I', 'D']);
                            }
                            let id = cat(l.name.as_str(), " ID");
                            let ghost idv = id@;
                            out.push(id);
                            out.push(l.name.clone());
                            proof {
                                assert(out.deep_view() =~= prev + seq![idv, l.name@]);
                            }
                        },
                        None => {
                            out.push(l.name.clone());
                            proof {
                                assert(out.deep_view() =~= prev + seq![l.name@]);
                            }
                        },
                    }
                    j = j + 1;
                }
                out
            },
            None => {
                proof {
                    assert(false);
                }
                Vec::new()
            },
        }
    }
}


/// The position of the first requested measure named `m`, or the number of
/// requested measures where there is none.
pub open spec fn measure_pos(ms: Seq<Measure>, m: Seq<char>) -> int
    decreases ms.len(),
{
    if ms.len() == 0 {
        0
    } else {
        let p = measure_pos(ms.drop_last(), m);
        if p < ms.len() - 1 {
            p
        } else if ms.last()@ == m {
            ms.len() - 1
        } else {
            ms.len() as int
        }
    }
}


/// The index of the first cube named `name`.
pub open spec fn cube_pos(s: &Schema, name: Seq<char>) -> int {
    choose|i: int|
        0 <= i < s.cubes@.len() && (#[trigger] s.cubes@[i]).name@ == name && forall|k: int|
            0 <= k < i ==> (#[trigger] s.cubes@[k]).name@ != name
}

pub open spec fn has_cube(s: &Schema, name: Seq<char>) -> bool {
    exists|i: int| 0 <= i < s.cubes@.len() && (#[trigger] s.cubes@[i]).name@ == name
}

proof fn lemma_first_cube(s: &Schema, name: Seq<char>, i: int)
    requires
        0 <= i < s.cubes@.len(),
        s.cubes@[i].name@ == name,
    ensures
        exists|j: int|
            0 <= j < s.cubes@.len() && (#[trigger] s.cubes@[j]).name@ == name && forall|k: int|
                0 <= k < j ==> (#[trigger] s.cubes@[k]).name@ != name,
    decreases i,
{
    if exists|k: int| 0 <= k < i && (#[trigger] s.cubes@[k]).name@ == name {
        let k = choose|k: int| 0 <= k < i && (#[trigger] s.cubes@[k]).name@ == name;
        lemma_first_cube(s, name, k);
    } else {
        assert(forall|k: int| 0 <= k < i ==> (#[trigger] s.cubes@[k]).name@ != name);
    }
}

/// The cube that a name finds is the first cube of that name.
pub proof fn lemma_cube_pos(s: &Schema, name: Seq<char>)
    requires
        has_cube(s, name),
    ensures
        0 <= cube_pos(s, name) < s.cubes@.len(),
        s.cubes@[cube_pos(s, name)].name@ == name,
{
    let i = choose|i: int| 0 <= i < s.cubes@.len() && (#[trigger] s.cubes@[i]).name@ == name;
    lemma_first_cube(s, name, i);
}

/// A measure or calculation that the request computes.
pub open spec fn mea_or_calc_ok(q: &Query, mc: MeaOrCalcView) -> bool {
    match mc {
        MeaOrCalcView::Mea(m) => requested(q.measures@, m),
        MeaOrCalcView::Calc(Calculation::Rca) => q.rca is Some,
        MeaOrCalcView::Calc(Calculation::Growth) => q.growth is Some,
    }
}

/// The column of a measure or calculation after aggregation.
pub open spec fn mea_or_calc_col(q: &Query, mc: MeaOrCalcView) -> Seq<char> {
    match mc {
        MeaOrCalcView::Mea(m) => ident(m),
        MeaOrCalcView::Calc(Calculation::Rca) => seq!['r', 'c', 'a'],
        MeaOrCalcView::Calc(Calculation::Growth) => seq!['g', 'r', 'o', 'w', 't', 'h'],
    }
}

/// `lv` is one of the two drilldowns of the RCA.
pub open spec fn rca_level(q: &Query, lv: LevelNameView) -> bool {
    q.rca matches Some(r) && (r.drill_1@ == lv || r.drill_2@ == lv)
}

/// The top rows are grouped by a drilldown of the request or of its RCA.
pub open spec fn top_level_ok(q: &Query) -> bool {
    q.top matches Some(t) ==> drilled(q.drilldowns@, t.by_dimension@) || rca_level(
        q,
        t.by_dimension@,
    )
}

/// The position of `lv` among the grouping drilldowns: the requested ones, then the
/// two of the RCA.
pub open spec fn group_pos(q: &Query, lv: LevelNameView) -> int {
    if drilled(q.drilldowns@, lv) {
        drill_pos(q.drilldowns@, lv)
    } else if q.rca matches Some(r) && r.drill_1@ == lv {
        q.drilldowns@.len() as int
    } else {
        q.drilldowns@.len() + 1int
    }
}

pub open spec fn top_sort_ok(q: &Query) -> bool {
    q.top matches Some(t) ==> forall|j: int|
        0 <= j < t.sort_mea_or_calc@.len() ==> mea_or_calc_ok(q, (#[trigger] t.sort_mea_or_calc@[j])@)
}

pub open spec fn top_where_ok(q: &Query) -> bool {
    q.top_where matches Some(tw) ==> mea_or_calc_ok(q, tw.by_mea_or_calc@)
}

pub open spec fn filters_ok(q: &Query) -> bool {
    forall|k: int|
        0 <= k < q.filters@.len() ==> mea_or_calc_ok(q, (#[trigger] q.filters@[k]).by_mea_or_calc@)
}

pub open spec fn growth_ok(q: &Query) -> bool {
    q.growth matches Some(g) ==> drilled(q.drilldowns@, g.time_drill@) && requested(
        q.measures@,
        g.mea@,
    )
}

pub open spec fn rca_ok(c: &Cube, q: &Query) -> bool {
    q.rca matches Some(r) ==> has_level(c, r.drill_1@) && has_level(c, r.drill_2@) && has_measure(
        c,
        r.mea@,
    )
}

pub open spec fn no_rca_duplicate(q: &Query) -> bool {
    !exists|i: int| 0 <= i < q.drilldowns@.len() && rca_duplicate(q, #[trigger] q.drilldowns@[i]@)
}

pub open spec fn drills_found(c: &Cube, q: &Query) -> bool {
    forall|k: int| 0 <= k < q.drilldowns@.len() ==> has_level(c, (#[trigger] q.drilldowns@[k])@)
}

pub open spec fn cuts_found(c: &Cube, q: &Query) -> bool {
    forall|k: int| 0 <= k < q.cuts@.len() ==> has_level(c, (#[trigger] q.cuts@[k]).level_name@)
}

pub open spec fn measures_found(c: &Cube, q: &Query) -> bool {
    forall|k: int| 0 <= k < q.measures@.len() ==> has_measure(c, (#[trigger] q.measures@[k])@)
}

/// No measure is requested twice.
pub open spec fn measures_distinct(q: &Query) -> bool {
    forall|a: int, b: int|
        0 <= a < q.measures@.len() && 0 <= b < q.measures@.len() && a != b ==> (
        #[trigger] q.measures@[a])@ != (#[trigger] q.measures@[b])@
}

pub open spec fn sort_found(q: &Query) -> bool {
    q.sort matches Some(srt) ==> requested(q.measures@, srt.measure@)
}

/// The names that the request uses all exist.
pub open spec fn names_found(c: &Cube, q: &Query) -> bool {
    &&& no_rca_duplicate(q)
    &&& drills_found(c, q)
    &&& cuts_found(c, q)
    &&& measures_found(c, q)
    &&& measures_distinct(q)
    &&& properties_ok(c, q.properties@, q.drilldowns@)
    &&& sort_found(q)
}

/// The rate pins members of a level of the cube, and there is a measure to share out.
pub open spec fn rate_ok(c: &Cube, q: &Query) -> bool {
    q.rate matches Some(r) ==> has_level(c, r.level_name@) && q.measures@.len() > 0
}

/// The first reason, in order of checking, why `q` does not compile against the cube
/// `c`; `None` where it compiles.
pub open spec fn query_failure(c: &Cube, q: &Query) -> Option<SchemaError> {
    if !no_rca_duplicate(q) {
        Some(SchemaError::InvalidRca)
    } else if !drills_found(c, q) {
        Some(SchemaError::LevelNotFound)
    } else if !cuts_found(c, q) {
        Some(SchemaError::LevelNotFound)
    } else if !measures_found(c, q) {
        Some(SchemaError::MeasureNotFound)
    } else if !measures_distinct(q) {
        Some(SchemaError::AmbiguousName)
    } else if !properties_ok(c, q.properties@, q.drilldowns@) {
        Some(SchemaError::PropertyNotFound)
    } else if !sort_found(q) {
        Some(SchemaError::MeasureNotFound)
    } else if !top_level_ok(q) {
        Some(SchemaError::LevelNotFound)
    } else if !top_sort_ok(q) || !top_where_ok(q) || !filters_ok(q) {
        Some(SchemaError::MeasureNotFound)
    } else if !growth_ok(q) {
        Some(SchemaError::InvalidGrowth)
    } else if !rca_ok(c, q) {
        Some(SchemaError::InvalidRca)
    } else if !rate_ok(c, q) {
        Some(SchemaError::InvalidRate)
    } else {
        None
    }
}

/// Why `q` does not compile against the cube named `cube` of `s`, if it does not.
pub open spec fn compile_failure(s: &Schema, cube: Seq<char>, q: &Query) -> Option<SchemaError> {
    if !has_cube(s, cube) {
        Some(SchemaError::CubeNotFound)
    } else {
        query_failure(&s.cubes@[cube_pos(s, cube)], q)
    }
}

/// The headers of the result of `q` on `c`: the level headers of the drilldowns, their
/// property headers, then the measure names.
pub open spec fn headers_spec(c: &Cube, q: &Query) -> Seq<Seq<char>> {
    drills_headers(c, q.drilldowns@, q.parents) + rca_headers(c, q) + drills_prop_headers(
        q.properties@,
        q.drilldowns@,
    ) + measure_names(q.measures@) + rate_headers(q) + calc_headers(q)
}

/// `rate`, where it is computed.
pub open spec fn rate_headers(q: &Query) -> Seq<Seq<char>> {
    if q.rate is Some {
        seq![seq!['r', 'a', 't', 'e']]
    } else {
        Seq::empty()
    }
}

/// The level headers of the two RCA drilldowns.
pub open spec fn rca_headers(c: &Cube, q: &Query) -> Seq<Seq<char>> {
    match q.rca {
        Some(r) => levels_headers(drill_levels(c, r.drill_1@, q.parents)) + levels_headers(
            drill_levels(c, r.drill_2@, q.parents),
        ),
        None => Seq::empty(),
    }
}

/// `rca` and `growth`, where they are computed.
pub open spec fn calc_headers(q: &Query) -> Seq<Seq<char>> {
    (if q.rca is Some {
        seq![seq!['r', 'c', 'a']]
    } else {
        Seq::empty()
    }) + (if q.growth is Some {
        seq![seq!['g', 'r', 'o', 'w', 't', 'h']]
    } else {
        Seq::empty()
    })
}

/// The position of the first drilldown of `lv`.
pub open spec fn drill_pos(drills: Seq<Drilldown>, lv: LevelNameView) -> int
    decreases drills.len(),
{
    if drills.len() == 0 {
        0
    } else {
        let p = drill_pos(drills.drop_last(), lv);
        if p < drills.len() - 1 {
            p
        } else if drills.last()@ == lv {
            drills.len() - 1
        } else {
            drills.len() as int
        }
    }
}

/// The alias of the key column of the drilled level `lv`.
pub open spec fn level_key_alias(c: &Cube, q: &Query, lv: LevelNameView) -> Seq<char> {
    let t = level_index(c, lv);
    postfixed(
        c.dimensions@[t.0].hierarchies@[t.1].levels@[t.2].key_column@,
        decimal(group_pos(q, lv) as nat),
    )
}

/// The operators of `q` as compiled into `ir`.
pub open spec fn operators_compiled(c: &Cube, q: &Query, ir: &QueryIr) -> bool {
    &&& match q.top {
        Some(t) => ir.top matches Some(ts) && ts.n == t.n && ts.by_column@ == level_key_alias(
            c,
            q,
            t.by_dimension@,
        ) && ts.sort_direction == t.sort_direction && ts.sort_columns.deep_view() == t.sort_mea_or_calc@.map_values(
            |m: MeaOrCalc| mea_or_calc_col(q, m@),
        ),
        None => ir.top is None,
    }
    &&& match q.top_where {
        Some(tw) => ir.top_where matches Some(x) && x.by_column@ == mea_or_calc_col(
            q,
            tw.by_mea_or_calc@,
        ) && x.constraint == tw.constraint,
        None => ir.top_where is None,
    }
    &&& ir.filters@.len() == q.filters@.len()
    &&& forall|k: int|
        0 <= k < ir.filters@.len() ==> {
            let f = #[trigger] ir.filters@[k];
            &&& f.by_column@ == mea_or_calc_col(q, q.filters@[k].by_mea_or_calc@)
            &&& f.constraint == q.filters@[k].constraint
            &&& f.operator is None
            &&& f.constraint2 is None
        }
    &&& match q.growth {
        Some(g) => ir.growth matches Some(gs) && drill_binds(
            c,
            g.time_drill@,
            drill_pos(q.drilldowns@, g.time_drill@) as nat,
            q.parents,
            drill_props(c, q.properties@, g.time_drill@),
            &gs.time_drill,
        ) && gs.mea@ == ident(g.mea@),
        None => ir.growth is None,
    }
    &&& match q.rca {
        Some(r) => ir.rca matches Some(rs) && rs.drill_1@.len() == 1 && rs.drill_2@.len() == 1
            && drill_binds(
            c,
            r.drill_1@,
            q.drilldowns@.len(),
            q.parents,
            Seq::empty(),
            &rs.drill_1@[0],
        ) && drill_binds(
            c,
            r.drill_2@,
            q.drilldowns@.len() + 1,
            q.parents,
            Seq::empty(),
            &rs.drill_2@[0],
        ) && measure_binds(c, r.mea@, &rs.mea) && rs.debug == q.debug,
        None => ir.rca is None,
    }
    &&& match q.rate {
        Some(r) => ir.rate matches Some(rs) && drill_binds(
            c,
            r.level_name@,
            q.drilldowns@.len() + 2,
            false,
            Seq::empty(),
            &rs.drilldown_sql,
        ) && rs.members.deep_view() == r.values.deep_view(),
        None => ir.rate is None,
    }
}

/// `ir` and `headers` are what `q` compiles to on `c`.
pub open spec fn compiled(c: &Cube, q: &Query, ir: &QueryIr, headers: Seq<Seq<char>>) -> bool {
    &&& ir.table.name == c.table.name
    &&& ir.table.primary_key == c.table.primary_key
    &&& ir.drills@.len() == q.drilldowns@.len()
    &&& forall|k: int|
        0 <= k < ir.drills@.len() ==> drill_binds(
            c,
            q.drilldowns@[k]@,
            k as nat,
            q.parents,
            drill_props(c, q.properties@, q.drilldowns@[k]@),
            #[trigger] &ir.drills@[k],
        )
    &&& ir.cuts@.len() == q.cuts@.len()
    &&& forall|k: int| 0 <= k < ir.cuts@.len() ==> cut_binds(c, &q.cuts@[k], #[trigger] &ir.cuts@[k])
    &&& ir.meas@.len() == q.measures@.len()
    &&& forall|j: int|
        0 <= j < ir.meas@.len() ==> measure_binds(c, q.measures@[j]@, #[trigger] &ir.meas@[j])
    &&& ir.hidden_drills@.len() == 0
    &&& match q.sort {
        Some(srt) => ir.sort matches Some(ss) && ss.direction == srt.direction && ss.column@
            == ident(srt.measure@),
        None => ir.sort is None,
    }
    &&& match q.limit {
        Some(l) => ir.limit == Some(LimitSql { offset: l.offset, n: l.n }),
        None => ir.limit is None,
    }
    &&& ir.sparse == q.sparse
    &&& headers == headers_spec(c, q)
    &&& ir.headers.deep_view() == headers
    &&& operators_compiled(c, q, ir)
}

/// The position of the first drilldown of `lv`.
fn find_drill(drills: &Vec<Drilldown>, lv: &LevelName) -> (r: usize)
    ensures
        r as int == drill_pos(drills@, lv@),
        r <= drills@.len(),
        drilled(drills@, lv@) <==> r < drills@.len(),
        r < drills@.len() ==> drills@[r as int]@ == lv@,
{
    let mut j: usize = 0;
    while j < drills.len()
        invariant
            j <= drills@.len(),
            drill_pos(drills@.take(j as int), lv@) == j,
            forall|k: int| 0 <= k < j ==> (#[trigger] drills@[k])@ != lv@,
        decreases drills@.len() - j,
    {
        proof {
            assert(drills@.take(j + 1).drop_last() =~= drills@.take(j as int));
        }
        if drills[j].0 == *lv {
            proof {
                lemma_drill_pos_prefix(drills@, lv@, j as int);
            }
            return j;
        }
        j = j + 1;
    }
    proof {
        assert(drills@.take(drills@.len() as int) =~= drills@);
    }
    j
}

proof fn lemma_drill_pos_prefix(ds: Seq<Drilldown>, lv: LevelNameView, j: int)
    requires
        0 <= j < ds.len(),
        ds[j]@ == lv,
        drill_pos(ds.take(j), lv) == j,
    ensures
        drill_pos(ds, lv) == j,
    decreases ds.len(),
{
    if ds.len() == j + 1 {
        assert(ds.drop_last() =~= ds.take(j));
    } else {
        assert(ds.drop_last().take(j) =~= ds.take(j));
        assert(ds.drop_last()[j] == ds[j]);
        lemma_drill_pos_prefix(ds.drop_last(), lv, j);
    }
}

/// The column of a measure or calculation after aggregation.
fn mea_or_calc_col_exec(q: &Query, mc: &MeaOrCalc) -> (r: String)
    ensures
        r@ == mea_or_calc_col(q, mc@),
{
    match mc {
        MeaOrCalc::Mea(m) => sql_ident(m.0.as_str()),
        MeaOrCalc::Calc(c) => c.sql_string(),
    }
}


/// The position of the first requested measure named `m`.
fn find_requested(ms: &Vec<Measure>, m: &Measure) -> (r: usize)
    ensures
        r as int == measure_pos(ms@, m@),
        r <= ms@.len(),
        requested(ms@, m@) <==> r < ms@.len(),
        r < ms@.len() ==> ms@[r as int]@ == m@,
{
    let mut j: usize = 0;
    while j < ms.len()
        invariant
            j <= ms@.len(),
            measure_pos(ms@.take(j as int), m@) == j,
            forall|k: int| 0 <= k < j ==> (#[trigger] ms@[k])@ != m@,
        decreases ms@.len() - j,
    {
        proof {
            assert(ms@.take(j + 1).drop_last() =~= ms@.take(j as int));
        }
        if ms[j] == *m {
            proof {
                lemma_measure_pos_prefix(ms@, m@, j as int);
            }
            return j;
        }
        j = j + 1;
    }
    proof {
        assert(ms@.take(ms@.len() as int) =~= ms@);
    }
    j
}

/// Where the first match is at `j`, the position over the whole list is `j`.
proof fn lemma_measure_pos_prefix(ms: Seq<Measure>, m: Seq<char>, j: int)
    requires
        0 <= j < ms.len(),
        ms[j]@ == m,
        measure_pos(ms.take(j), m) == j,
    ensures
        measure_pos(ms, m) == j,
    decreases ms.len(),
{
    if ms.len() == j + 1 {
        assert(ms.drop_last() =~= ms.take(j));
    } else {
        assert(ms.drop_last().take(j) =~= ms.take(j));
        assert(ms.drop_last()[j] == ms[j]);
        lemma_measure_pos_prefix(ms.drop_last(), m, j);
    }
}

/// Whether no measure stands twice in `ms`.
fn measures_apart(ms: &Vec<Measure>) -> (r: bool)
    ensures
        r == forall|a: int, b: int|
            0 <= a < ms@.len() && 0 <= b < ms@.len() && a != b ==> (#[trigger] ms@[a])@ != (
            #[trigger] ms@[b])@,
{
    let n = ms.len();
    let mut i: usize = 0;
    while i < n
        invariant
            n == ms@.len(),
            i <= n,
            forall|a: int, b: int| 0 <= a < i && a < b < n ==> (#[trigger] ms@[a])@ != (#[trigger] ms@[b])@,
        decreases n - i,
    {
        let mut j: usize = i + 1;
        while j < n
            invariant
                n == ms@.len(),
                i < n,
                i + 1 <= j <= n,
                forall|a: int, b: int| 0 <= a < i && a < b < n ==> (#[trigger] ms@[a])@ != (#[trigger] ms@[b])@,
                forall|b: int| i < b < j ==> ms@[i as int]@ != (#[trigger] ms@[b])@,
            decreases n - j,
        {
            if ms[i] == ms[j] {
                return false;
            }
            j = j + 1;
        }
        i = i + 1;
    }
    proof {
        assert forall|a: int, b: int|
            0 <= a < ms@.len() && 0 <= b < ms@.len() && a != b implies (#[trigger] ms@[a])@ != (
            #[trigger] ms@[b])@ by {
            if a > b {
                assert(ms@[b]@ != ms@[a]@);
            }
        }
    }
    true
}

/// Whether `lv` is among the drilldowns.
fn is_drilled(drills: &Vec<Drilldown>, lv: &LevelName) -> (r: bool)
    ensures
        r == drilled(drills@, lv@),
{
    let mut k: usize = 0;
    while k < drills.len()
        invariant
            k <= drills@.len(),
            forall|j: int| 0 <= j < k ==> (#[trigger] drills@[j])@ != lv@,
        decreases drills@.len() - k,
    {
        if drills[k].0 == *lv {
            return true;
        }
        k = k + 1;
    }
    false
}

impl Cube {
    /// The first reason why `q` does not compile against this cube.
    #[verifier::rlimit(30)]
    fn check_query(&self, q: &Query) -> (r: Option<SchemaError>)
        requires
            self.wf(),
        ensures
            r == query_failure(self, q),
    {
        if q.validate().is_err() {
            return Some(SchemaError::InvalidRca);
        }
        let mut k: usize = 0;
        while k < q.drilldowns.len()
            invariant
                no_rca_duplicate(q),
                k <= q.drilldowns@.len(),
                forall|j: int| 0 <= j < k ==> has_level(self, (#[trigger] q.drilldowns@[j])@),
            decreases q.drilldowns@.len() - k,
        {
            if self.find_level(&q.drilldowns[k].0).is_none() {
                return Some(SchemaError::LevelNotFound);
            }
            k = k + 1;
        }
        let mut k: usize = 0;
        while k < q.cuts.len()
            invariant
                no_rca_duplicate(q),
                drills_found(self, q),
                k <= q.cuts@.len(),
                forall|j: int| 0 <= j < k ==> has_level(self, (#[trigger] q.cuts@[j]).level_name@),
            decreases q.cuts@.len() - k,
        {
            if self.find_level(&q.cuts[k].level_name).is_none() {
                return Some(SchemaError::LevelNotFound);
            }
            k = k + 1;
        }
        let mut k: usize = 0;
        while k < q.measures.len()
            invariant
                no_rca_duplicate(q),
                drills_found(self, q),
                cuts_found(self, q),
                k <= q.measures@.len(),
                forall|j: int| 0 <= j < k ==> has_measure(self, (#[trigger] q.measures@[j])@),
            decreases q.measures@.len() - k,
        {
            if self.find_measure(&q.measures[k]).is_none() {
                return Some(SchemaError::MeasureNotFound);
            }
            k = k + 1;
        }
        if !measures_apart(&q.measures) {
            return Some(SchemaError::AmbiguousName);
        }
        let mut k: usize = 0;
        while k < q.properties.len()
            invariant
                self.wf(),
                no_rca_duplicate(q),
                drills_found(self, q),
                cuts_found(self, q),
                measures_found(self, q),
                measures_distinct(q),
                k <= q.properties@.len(),
                forall|j: int|
                    0 <= j < k ==> has_property(self, (#[trigger] q.properties@[j])@) && drilled(
                        q.drilldowns@,
                        q.properties@[j].level_name@,
                    ),
            decreases q.properties@.len() - k,
        {
            let p = &q.properties[k];
            if self.find_property(p).is_none() || !is_drilled(&q.drilldowns, &p.level_name) {
                return Some(SchemaError::PropertyNotFound);
            }
            k = k + 1;
        }
        if let Some(srt) = &q.sort {
            if find_requested(&q.measures, &srt.measure) == q.measures.len() {
                return Some(SchemaError::MeasureNotFound);
            }
        }
        if let Some(t) = &q.top {
            if !is_drilled(&q.drilldowns, &t.by_dimension) && !is_rca_level(q, &t.by_dimension) {
                return Some(SchemaError::LevelNotFound);
            }
            let mut j: usize = 0;
            while j < t.sort_mea_or_calc.len()
                invariant
                    names_found(self, q),
                    q.top == Some(*t),
                    top_level_ok(q),
                    j <= t.sort_mea_or_calc@.len(),
                    forall|i: int| 0 <= i < j ==> mea_or_calc_ok(q, (#[trigger] t.sort_mea_or_calc@[i])@),
                decreases t.sort_mea_or_calc@.len() - j,
            {
                if !mea_or_calc_found(q, &t.sort_mea_or_calc[j]) {
                    return Some(SchemaError::MeasureNotFound);
                }
                j = j + 1;
            }
        }
        if let Some(tw) = &q.top_where {
            if !mea_or_calc_found(q, &tw.by_mea_or_calc) {
                return Some(SchemaError::MeasureNotFound);
            }
        }
        let mut k: usize = 0;
        while k < q.filters.len()
            invariant
                names_found(self, q),
                top_level_ok(q),
                top_sort_ok(q),
                top_where_ok(q),
                k <= q.filters@.len(),
                forall|i: int| 0 <= i < k ==> mea_or_calc_ok(q, (#[trigger] q.filters@[i]).by_mea_or_calc@),
            decreases q.filters@.len() - k,
        {
            if !mea_or_calc_found(q, &q.filters[k].by_mea_or_calc) {
                return Some(SchemaError::MeasureNotFound);
            }
            k = k + 1;
        }
        if let Some(g) = &q.growth {
            if !is_drilled(&q.drilldowns, &g.time_drill.0) || find_requested(&q.measures, &g.mea)
                == q.measures.len() {
                return Some(SchemaError::InvalidGrowth);
            }
        }
        if let Some(r) = &q.rca {
            if self.find_level(&r.drill_1.0).is_none() || self.find_level(&r.drill_2.0).is_none()
                || self.find_measure(&r.mea).is_none() {
                return Some(SchemaError::InvalidRca);
            }
        }
        if let Some(r) = &q.rate {
            if self.find_level(&r.level_name).is_none() || q.measures.len() == 0 {
                return Some(SchemaError::InvalidRate);
            }
        }
        None
    }
}

/// Whether `lv` is one of the two drilldowns of the RCA.
fn is_rca_level(q: &Query, lv: &LevelName) -> (r: bool)
    ensures
        r == rca_level(q, lv@),
{
    match &q.rca {
        Some(r) => r.drill_1.0 == *lv || r.drill_2.0 == *lv,
        None => false,
    }
}

/// Whether the request computes the measure or calculation `mc`.
fn mea_or_calc_found(q: &Query, mc: &MeaOrCalc) -> (r: bool)
    ensures
        r == mea_or_calc_ok(q, mc@),
{
    match mc {
        MeaOrCalc::Mea(m) => find_requested(&q.measures, m) < q.measures.len(),
        MeaOrCalc::Calc(Calculation::Rca) => q.rca.is_some(),
        MeaOrCalc::Calc(Calculation::Growth) => q.growth.is_some(),
    }
}

/// `calc_headers` as strings.
fn calc_headers_exec(q: &Query) -> (r: Vec<String>)
    ensures
        r.deep_view() == calc_headers(q),
{
    proof {
        reveal_strlit("rca");
        reveal_strlit("growth");
        assert("rca"@ =~= seq!['r', 'c', 'a']);
        assert("growth"@ =~= seq!['g', 'r', 'o', 'w', 't', 'h']);
    }
    let mut r: Vec<String> = Vec::new();
    if q.rca.is_some() {
        r.push(owned("rca"));
    }
    let ghost mid = r.deep_view();
    if q.growth.is_some() {
        r.push(owned("growth"));
    }
    proof {
        assert(r.deep_view() =~= calc_headers(q));
    }
    r
}

/// The filters, each on the column of its measure or calculation.
fn filters_sql(q: &Query) -> (r: Vec<FilterSql>)
    ensures
        r@.len() == q.filters@.len(),
        forall|k: int|
            0 <= k < r@.len() ==> {
                let f = #[trigger] r@[k];
                &&& f.by_column@ == mea_or_calc_col(q, q.filters@[k].by_mea_or_calc@)
                &&& f.constraint == q.filters@[k].constraint
                &&& f.operator is None
                &&& f.constraint2 is None
            },
{
    let mut out: Vec<FilterSql> = Vec::new();
    let mut k: usize = 0;
    while k < q.filters.len()
        invariant
            k <= q.filters@.len(),
            out@.len() == k,
            forall|j: int|
                0 <= j < k ==> {
                    let f = #[trigger] out@[j];
                    &&& f.by_column@ == mea_or_calc_col(q, q.filters@[j].by_mea_or_calc@)
                    &&& f.constraint == q.filters@[j].constraint
                    &&& f.operator is None
                    &&& f.constraint2 is None
                },
        decreases q.filters@.len() - k,
    {
        let f = &q.filters[k];
        out.push(
            FilterSql {
                by_column: mea_or_calc_col_exec(q, &f.by_mea_or_calc),
                constraint: f.constraint,
                operator: None,
                constraint2: None,
            },
        );
        k = k + 1;
    }
    out
}

impl Cube {
    /// The top rows per group of the request, if any.
    #[verifier::rlimit(30)]
    fn top_sql(&self, q: &Query) -> (r: Option<TopSql>)
        requires
            self.wf(),
            query_failure(self, q) is None,
            q.drilldowns@.len() + 2 <= usize::MAX,
        ensures
            match q.top {
                Some(t) => r matches Some(ts) && ts.n == t.n && ts.by_column@ == level_key_alias(
                    self,
                    q,
                    t.by_dimension@,
                ) && ts.sort_direction == t.sort_direction && ts.sort_columns.deep_view()
                    == t.sort_mea_or_calc@.map_values(|m: MeaOrCalc| mea_or_calc_col(q, m@)),
                None => r is None,
            },
    {
        match &q.top {
            Some(t) => {
                let found = find_drill(&q.drilldowns, &t.by_dimension);
                let n = q.drilldowns.len();
                let pos: usize = if found < n {
                    proof {
                        assert(has_level(self, q.drilldowns@[found as int]@));
                    }
                    found
                } else {
                    match &q.rca {
                        Some(r) => {
                            proof {
                                assert(rca_ok(self, q));
                            }
                            if r.drill_1.0 == t.by_dimension {
                                n
                            } else {
                                n + 1
                            }
                        },
                        None => n,
                    }
                };
                let key = match self.find_level(&t.by_dimension) {
                    Some((d, h, i)) => {
                        proof {
                            lemma_level_index(self, t.by_dimension@, d as int, h as int, i as int);
                        }
                        self.dimensions[d].hierarchies[h].levels[i].key_column.clone()
                    },
                    None => {
                        proof {
                            assert(false);
                        }
                        owned("")
                    },
                };
                let by_column = postfixed_exec(key.as_str(), u64_decimal(pos as u64).as_str());
                let mut sort_columns: Vec<String> = Vec::new();
                let mut j: usize = 0;
                while j < t.sort_mea_or_calc.len()
                    invariant
                        j <= t.sort_mea_or_calc@.len(),
                        sort_columns.deep_view() =~= t.sort_mea_or_calc@.take(j as int).map_values(
                            |m: MeaOrCalc| mea_or_calc_col(q, m@),
                        ),
                    decreases t.sort_mea_or_calc@.len() - j,
                {
                    let col = mea_or_calc_col_exec(q, &t.sort_mea_or_calc[j]);
                    let ghost prev = sort_columns.deep_view();
                    let ghost cv = col@;
                    sort_columns.push(col);
                    proof {
                        assert(sort_columns.deep_view() =~= prev.push(cv));
                        assert(t.sort_mea_or_calc@.take(j + 1) =~= t.sort_mea_or_calc@.take(j as int).push(t.sort_mea_or_calc@[j as int]));
                    }
                    j = j + 1;
                }
                proof {
                    assert(t.sort_mea_or_calc@.take(t.sort_mea_or_calc@.len() as int) =~= t.sort_mea_or_calc@);
                }
                Some(TopSql { n: t.n, by_column, sort_columns, sort_direction: t.sort_direction })
            },
            None => None,
        }
    }

    /// The growth calculation of the request, if any.
    fn growth_sql(&self, q: &Query) -> (r: Option<GrowthSql>)
        requires
            self.wf(),
            query_failure(self, q) is None,
        ensures
            match q.growth {
                Some(g) => r matches Some(gs) && drill_binds(
                    self,
                    g.time_drill@,
                    drill_pos(q.drilldowns@, g.time_drill@) as nat,
                    q.parents,
                    drill_props(self, q.properties@, g.time_drill@),
                    &gs.time_drill,
                ) && gs.mea@ == ident(g.mea@),
                None => r is None,
            },
    {
        match &q.growth {
            Some(g) => {
                let pos = find_drill(&q.drilldowns, &g.time_drill.0);
                proof {
                    assert(has_level(self, q.drilldowns@[pos as int]@));
                    assert forall|j: int| 0 <= j < q.properties@.len() implies has_property(
                        self,
                        (#[trigger] q.properties@[j])@,
                    ) by {
                        assert(properties_ok(self, q.properties@, q.drilldowns@));
                    }
                }
                let lv = &g.time_drill.0;
                let (d, h, i) = match self.find_level(lv) {
                    Some(t) => t,
                    None => {
                        proof {
                            assert(false);
                        }
                        (0, 0, 0)
                    },
                };
                let (props, _) = self.drill_properties(&q.properties, lv);
                let time_drill = self.drill_sql(lv, d, h, i, pos, q.parents, props);
                let mea = sql_ident(g.mea.0.as_str());
                Some(GrowthSql { time_drill, mea })
            },
            None => None,
        }
    }

    /// The rate of the request, if any: its level, joined but not grouped by, and the
    /// pinned members.
    fn rate_sql(&self, q: &Query) -> (r: Option<RateSql>)
        requires
            self.wf(),
            query_failure(self, q) is None,
            q.drilldowns@.len() + 2 <= usize::MAX,
        ensures
            match q.rate {
                Some(rq) => r matches Some(rs) && drill_binds(
                    self,
                    rq.level_name@,
                    q.drilldowns@.len() + 2,
                    false,
                    Seq::empty(),
                    &rs.drilldown_sql,
                ) && rs.members.deep_view() == rq.values.deep_view(),
                None => r is None,
            },
    {
        match &q.rate {
            Some(rq) => {
                let (d, h, i) = match self.find_level(&rq.level_name) {
                    Some(t) => t,
                    None => {
                        proof {
                            assert(false);
                        }
                        (0, 0, 0)
                    },
                };
                let no_props: Vec<String> = Vec::new();
                proof {
                    assert(no_props.deep_view() =~= Seq::<Seq<char>>::empty());
                }
                let drilldown_sql = self.drill_sql(&rq.level_name, d, h, i, q.drilldowns.len() + 2, false, no_props);
                let members = rq.values.clone();
                proof {
                    assert(members.deep_view() =~= rq.values.deep_view());
                }
                Some(RateSql { drilldown_sql, members })
            },
            None => None,
        }
    }

    /// The RCA of the request, if any, and the level headers of its drilldowns.
    #[verifier::rlimit(30)]
    fn rca_sql(&self, q: &Query) -> (r: (Option<RcaSql>, Vec<String>))
        requires
            self.wf(),
            query_failure(self, q) is None,
            q.drilldowns@.len() + 2 <= usize::MAX,
        ensures
            r.1.deep_view() == rca_headers(self, q),
            match q.rca {
                Some(rq) => r.0 matches Some(rs) && rs.drill_1@.len() == 1 && rs.drill_2@.len() == 1
                    && drill_binds(
                    self,
                    rq.drill_1@,
                    q.drilldowns@.len(),
                    q.parents,
                    Seq::empty(),
                    &rs.drill_1@[0],
                ) && drill_binds(
                    self,
                    rq.drill_2@,
                    q.drilldowns@.len() + 1,
                    q.parents,
                    Seq::empty(),
                    &rs.drill_2@[0],
                ) && measure_binds(self, rq.mea@, &rs.mea) && rs.debug == q.debug,
                None => r.0 is None,
            },
    {
        match &q.rca {
            Some(rq) => {
                let n = q.drilldowns.len();
                let (d1, h1, i1) = match self.find_level(&rq.drill_1.0) {
                    Some(t) => t,
                    None => {
                        proof {
                            assert(false);
                        }
                        (0, 0, 0)
                    },
                };
                let (d2, h2, i2) = match self.find_level(&rq.drill_2.0) {
                    Some(t) => t,
                    None => {
                        proof {
                            assert(false);
                        }
                        (0, 0, 0)
                    },
                };
                let no_props: Vec<String> = Vec::new();
                proof {
                    assert(no_props.deep_view() =~= Seq::<Seq<char>>::empty());
                }
                let ds1 = self.drill_sql(&rq.drill_1.0, d1, h1, i1, n, q.parents, no_props);
                let no_props: Vec<String> = Vec::new();
                proof {
                    assert(no_props.deep_view() =~= Seq::<Seq<char>>::empty());
                }
                let ds2 = self.drill_sql(&rq.drill_2.0, d2, h2, i2, n + 1, q.parents, no_props);
                let mea = self.measure_sql(&rq.mea);
                let mut headers = self.drill_headers(&rq.drill_1.0, q.parents);
                let mut h2v = self.drill_headers(&rq.drill_2.0, q.parents);
                let ghost a = headers.deep_view();
                let ghost b = h2v.deep_view();
                headers.append(&mut h2v);
                proof {
                    assert(headers.deep_view() =~= a + b);
                }
                let rs = RcaSql { drill_1: vec![ds1], drill_2: vec![ds2], mea, debug: q.debug };
                (Some(rs), headers)
            },
            None => {
                let headers: Vec<String> = Vec::new();
                proof {
                    assert(headers.deep_view() =~= Seq::<Seq<char>>::empty());
                }
                (None, headers)
            },
        }
    }
}

impl Schema {
    /// Compiles `query` against the cube named `cube_name`: the plan, and the headers
    /// of the columns that its SQL returns.
    #[verifier::rlimit(30)]
    pub fn sql_query(&self, cube_name: &str, query: &Query) -> (r: Result<(QueryIr, Vec<String>), SchemaError>)
        requires
            self.wf(),
            query.drilldowns@.len() + 2 <= usize::MAX,
        ensures
            match r {
                Ok((ir, headers)) => compile_failure(self, cube_name@, query) is None && compiled(
                    &self.cubes@[cube_pos(self, cube_name@)],
                    query,
                    &ir,
                    headers.deep_view(),
                ) && ir_wf(&ir) && emitted_aliases(&ir).no_duplicates(),
                Err(e) => compile_failure(self, cube_name@, query) == Some(e),
            },
    {
        let ci = match self.find_cube(cube_name) {
            Some(ci) => ci,
            None => {
                return Err(SchemaError::CubeNotFound);
            },
        };
        let cube = &self.cubes[ci];
        proof {
            assert(has_cube(self, cube_name@));
            let p = cube_pos(self, cube_name@);
            if p < ci {
                assert(self.cubes@[p].name@ != cube_name@);
            } else if p > ci {
                assert(self.cubes@[ci as int].name@ != cube_name@);
            }
            assert(p == ci);
            assert(cube.wf());
        }
        if let Some(e) = cube.check_query(query) {
            return Err(e);
        }
        let q = query;
        let mut drills: Vec<DrilldownSql> = Vec::new();
        let mut level_headers: Vec<String> = Vec::new();
        let mut prop_headers: Vec<String> = Vec::new();
        let mut k: usize = 0;
        while k < q.drilldowns.len()
            invariant
                cube.wf(),
                query_failure(cube, q) is None,
                k <= q.drilldowns@.len(),
                drills@.len() == k,
                forall|j: int|
                    0 <= j < k ==> drill_binds(
                        cube,
                        q.drilldowns@[j]@,
                        j as nat,
                        q.parents,
                        drill_props(cube, q.properties@, q.drilldowns@[j]@),
                        #[trigger] &drills@[j],
                    ),
                level_headers.deep_view() =~= drills_headers(cube, q.drilldowns@.take(k as int), q.parents),
                prop_headers.deep_view() =~= drills_prop_headers(q.properties@, q.drilldowns@.take(k as int)),
            decreases q.drilldowns@.len() - k,
        {
            let lv = &q.drilldowns[k].0;
            proof {
                assert(has_level(cube, q.drilldowns@[k as int]@));
                assert forall|j: int| 0 <= j < q.properties@.len() implies has_property(
                    cube,
                    (#[trigger] q.properties@[j])@,
                ) by {
                    assert(properties_ok(cube, q.properties@, q.drilldowns@));
                }
                assert(q.drilldowns@.take(k + 1).drop_last() =~= q.drilldowns@.take(k as int));
                assert(q.drilldowns@.take(k + 1).last() == q.drilldowns@[k as int]);
            }
            let (d, h, i) = match cube.find_level(lv) {
                Some(t) => t,
                None => {
                    proof {
                        assert(false);
                    }
                    (0, 0, 0)
                },
            };
            let (props, names) = cube.drill_properties(&q.properties, lv);
            let ds = cube.drill_sql(lv, d, h, i, k, q.parents, props);
            drills.push(ds);
            let lh = cube.drill_headers(lv, q.parents);
            let ghost prev_l = level_headers.deep_view();
            let ghost prev_p = prop_headers.deep_view();
            let mut lh = lh;
            let mut names = names;
            let ghost lhv = lh.deep_view();
            let ghost nv = names.deep_view();
            level_headers.append(&mut lh);
            prop_headers.append(&mut names);
            proof {
                assert(level_headers.deep_view() =~= prev_l + lhv);
                assert(prop_headers.deep_view() =~= prev_p + nv);
            }
            k = k + 1;
        }
        proof {
            assert(q.drilldowns@.take(q.drilldowns@.len() as int) =~= q.drilldowns@);
        }
        let mut cuts: Vec<CutSql> = Vec::new();
        let mut k: usize = 0;
        while k < q.cuts.len()
            invariant
                cube.wf(),
                query_failure(cube, q) is None,
                k <= q.cuts@.len(),
                cuts@.len() == k,
                forall|j: int| 0 <= j < k ==> cut_binds(cube, &q.cuts@[j], #[trigger] &cuts@[j]),
            decreases q.cuts@.len() - k,
        {
            proof {
                assert(has_level(cube, q.cuts@[k as int].level_name@));
            }
            cuts.push(cube.cut_sql(&q.cuts[k]));
            k = k + 1;
        }
        let mut meas: Vec<MeasureSql> = Vec::new();
        let mut measure_headers: Vec<String> = Vec::new();
        let mut k: usize = 0;
        while k < q.measures.len()
            invariant
                cube.wf(),
                query_failure(cube, q) is None,
                k <= q.measures@.len(),
                meas@.len() == k,
                forall|j: int|
                    0 <= j < k ==> measure_binds(cube, q.measures@[j]@, #[trigger] &meas@[j]),
                measure_headers.deep_view() =~= measure_names(q.measures@.take(k as int)),
            decreases q.measures@.len() - k,
        {
            proof {
                assert(has_measure(cube, q.measures@[k as int]@));
            }
            meas.push(cube.measure_sql(&q.measures[k]));
            let ghost prev = measure_headers.deep_view();
            measure_headers.push(q.measures[k].0.clone());
            proof {
                assert(measure_headers.deep_view() =~= prev.push(q.measures@[k as int]@));
            }
            k = k + 1;
        }
        proof {
            assert(q.measures@.take(q.measures@.len() as int) =~= q.measures@);
        }
        let sort = match &q.sort {
            Some(srt) => {
                Some(SortSql { direction: srt.direction, column: sql_ident(srt.measure.0.as_str()) })
            },
            None => None,
        };
        let limit = match q.limit {
            Some(l) => Some(LimitSql { offset: l.offset, n: l.n }),
            None => None,
        };
        let top = cube.top_sql(q);
        let top_where = match &q.top_where {
            Some(tw) => Some(
                TopWhereSql {
                    by_column: mea_or_calc_col_exec(q, &tw.by_mea_or_calc),
                    constraint: tw.constraint,
                },
            ),
            None => None,
        };
        let filters = filters_sql(q);
        let growth = cube.growth_sql(q);
        let (rca, mut rca_hdrs) = cube.rca_sql(q);
        let mut calc_hdrs = calc_headers_exec(q);
        let rate = cube.rate_sql(q);
        let mut rate_hdrs: Vec<String> = Vec::new();
        if q.rate.is_some() {
            proof {
                reveal_strlit("rate");
                assert("rate"@ =~= seq!['r', 'a', 't', 'e']);
            }
            rate_hdrs.push(owned("rate"));
        }
        proof {
            assert(rate_hdrs.deep_view() =~= rate_headers(q));
        }
        let mut headers = level_headers;
        let mut prop_headers = prop_headers;
        headers.append(&mut rca_hdrs);
        headers.append(&mut prop_headers);
        headers.append(&mut measure_headers);
        headers.append(&mut rate_hdrs);
        headers.append(&mut calc_hdrs);
        let header_names = headers.clone();
        proof {
            assert(header_names.deep_view() =~= headers.deep_view());
        }
        let ir = QueryIr {
            table: TableSql { name: cube.table.name.clone(), primary_key: match &cube.table.primary_key {
                Some(p) => Some(p.clone()),
                None => None,
            } },
            cuts,
            drills,
            meas,
            hidden_drills: Vec::new(),
            filters,
            top,
            top_where,
            sort,
            limit,
            rca,
            growth,
            rate,
            sparse: q.sparse,
            headers: header_names,
        };
        proof {
            let c = cube;
            assert(ir.table.name == c.table.name);
            assert(ir.table.primary_key == c.table.primary_key);
            assert(ir.drills@.len() == q.drilldowns@.len());
            assert(ir.cuts@.len() == q.cuts@.len());
            assert(ir.meas@.len() == q.measures@.len());
            assert(headers.deep_view() =~= headers_spec(c, q));
            assert(match q.sort {
                Some(srt) => ir.sort matches Some(ss) && ss.direction == srt.direction && ss.column@
                    == ident(srt.measure@),
                None => ir.sort is None,
            });
            assert(operators_compiled(c, q, &ir));
            lemma_compiled_wf(c, q, &ir, headers.deep_view());
            assert(has_cube(self, cube_name@));
            lemma_compiled_aliases_unique(self, cube_name@, q, &ir, headers.deep_view());
        }
        Ok((ir, headers))
    }
}


/// `select distinct key[, name] from <table> order by key` for the level at
/// `(d, h, i)` of `c`.
pub open spec fn members_sql_spec(c: &Cube, d: int, h: int, i: int) -> Seq<char> {
    let hier = c.dimensions@[d].hierarchies@[h];
    let l = hier.levels@[i];
    let cols = match l.name_column {
        Some(n) => l.key_column@ + seq![',', ' '] + n@,
        None => l.key_column@,
    };
    let source = match hier.inline_table {
        Some(it) => seq!['('] + inline_table_sql(&it) + seq![')', ' ', 'a', 's', ' '] + it.alias@,
        None => table_full_name(&hier.table),
    };
    seq!['s', 'e', 'l', 'e', 'c', 't', ' ', 'd', 'i', 's', 't', 'i', 'n', 'c', 't', ' '] + cols
        + seq![' ', 'f', 'r', 'o', 'm', ' '] + source + seq![' ', 'o', 'r', 'd', 'e', 'r', ' ', 'b', 'y', ' ']
        + l.key_column@
}

impl Schema {
    /// The distinct members of a level, key (and name) ordered by key, and the headers
    /// of those columns.
    #[verifier::rlimit(30)]
    pub fn members_sql(&self, cube_name: &str, level: &LevelName) -> (r: Result<(String, Vec<String>), SchemaError>)
        requires
            self.wf(),
        ensures
            match r {
                Ok((sql, headers)) => has_cube(self, cube_name@) && {
                    let c = &self.cubes@[cube_pos(self, cube_name@)];
                    let t = level_index(c, level@);
                    &&& has_level(c, level@)
                    &&& sql@ == members_sql_spec(c, t.0, t.1, t.2)
                    &&& headers.deep_view() == level_headers(
                        c.dimensions@[t.0].hierarchies@[t.1].levels@[t.2],
                    )
                },
                Err(e) => if has_cube(self, cube_name@) {
                    e == SchemaError::LevelNotFound && !has_level(
                        &self.cubes@[cube_pos(self, cube_name@)],
                        level@,
                    )
                } else {
                    e == SchemaError::CubeNotFound
                },
            },
    {
        let ci = match self.find_cube(cube_name) {
            Some(ci) => ci,
            None => {
                return Err(SchemaError::CubeNotFound);
            },
        };
        let cube = &self.cubes[ci];
        proof {
            assert(has_cube(self, cube_name@));
            let p = cube_pos(self, cube_name@);
            if p < ci {
                assert(self.cubes@[p].name@ != cube_name@);
            } else if p > ci {
                assert(self.cubes@[ci as int].name@ != cube_name@);
            }
            assert(p == ci);
            assert(cube.wf());
        }
        let (d, h, i) = match cube.find_level(level) {
            Some(t) => t,
            None => {
                return Err(SchemaError::LevelNotFound);
            },
        };
        proof {
            lemma_level_index(cube, level@, d as int, h as int, i as int);
            reveal_strlit("select distinct ");
            reveal_strlit(", ");
            reveal_strlit(" from ");
            reveal_strlit(" order by ");
            reveal_strlit("(");
            reveal_strlit(") as ");
            reveal_strlit(" ID");
            assert("select distinct "@ =~= seq!['s', 'e', 'l', 'e', 'c', 't', ' ', 'd', 'i', 's', 't', 'i', 'n', 'c', 't', ' ']);
            assert(", "@ =~= seq![',', ' ']);
            assert(" from "@ =~= seq![' ', 'f', 'r', 'o', 'm', ' ']);
            assert(" order by "@ =~= seq![' ', 'o', 'r', 'd', 'e', 'r', ' ', 'b', 'y', ' ']);
            assert("("@ =~= seq!['(']);
            assert(") as "@ =~= seq![')', ' ', 'a', 's', ' ']);
            assert(" ID"@ =~= seq![' ', 'I', 'D']);
        }
        let hier = &cube.dimensions[d].hierarchies[h];
        let l = &hier.levels[i];
        let mut sql = cat("select distinct ", l.key_column.as_str());
        let mut headers: Vec<String> = Vec::new();
        match &l.name_column {
            Some(n) => {
                sql.append(", ");
                sql.append(n.as_str());
                headers.push(cat(l.name.as_str(), " ID"));
                headers.push(l.name.clone());
            },
            None => {
                headers.push(l.name.clone());
            },
        }
        sql.append(" from ");
        match &hier.inline_table {
            Some(it) => {
                sql.append("(");
                sql.append(it.sql_string().as_str());
                sql.append(") as ");
                sql.append(it.alias.as_str());
            },
            None => {
                sql.append(hier.table.full_name().as_str());
            },
        }
        sql.append(" order by ");
        sql.append(l.key_column.as_str());
        proof {
            assert(sql@ =~= members_sql_spec(cube, d as int, h as int, i as int));
            assert(headers.deep_view() =~= level_headers(*l));
        }
        Ok((sql, headers))
    }
}

} // verus!
