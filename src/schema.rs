//! Physical pieces of the cube model: tables, inline tables and aggregators.

use vstd::prelude::*;
use crate::names::{LevelName, LevelNameView, Measure, Property, PropertyView};
use crate::compiler::level_column_of;
use crate::query_ir::LevelColumn;
use crate::sql::columns_distinct;
use crate::text::{cat, join_strings, joined, owned};

verus! {

/// A table of the store, optionally qualified by a schema.
#[derive(Debug)]
pub struct Table {
    pub name: String,
    pub schema: Option<String>,
    pub primary_key: Option<String>,
}

pub open spec fn table_full_name(t: &Table) -> Seq<char> {
    match t.schema {
        Some(s) => s@ + seq!['.'] + t.name@,
        None => t.name@,
    }
}

impl Clone for Table {
    fn clone(&self) -> (r: Self)
        ensures
            r == *self,
    {
        Table {
            name: self.name.clone(),
            schema: match &self.schema {
                Some(s) => Some(s.clone()),
                None => None,
            },
            primary_key: match &self.primary_key {
                Some(s) => Some(s.clone()),
                None => None,
            },
        }
    }
}

impl Table {
    /// `schema.name`, or the bare name where no schema is given.
    pub fn full_name(&self) -> (r: String)
        ensures
            r@ == table_full_name(self),
    {
        match &self.schema {
            Some(s) => {
                proof {
                    reveal_strlit(".");
                    assert("."@ =~= seq!['.']);
                }
                let mut r = cat(s.as_str(), ".");
                r.append(self.name.as_str());
                r
            },
            None => self.name.clone(),
        }
    }
}

/// Whether members of a level are written as text (quoted) or not.
#[derive(Debug, Clone, Copy, PartialEq, Eq, Structural)]
pub enum MemberType {
    Text,
    NonText,
}

/// A column of an inline table.
#[derive(Debug)]
pub struct InlineColumn {
    pub name: String,
    pub key_type: MemberType,
}

impl Clone for InlineColumn {
    fn clone(&self) -> (r: Self)
        ensures
            r == *self,
    {
        InlineColumn { name: self.name.clone(), key_type: self.key_type }
    }
}

/// A small table written out in the schema instead of stored in the database.
#[derive(Debug)]
pub struct InlineTable {
    pub alias: String,
    pub column_definitions: Vec<InlineColumn>,
    pub rows: Vec<Vec<String>>,
}

/// A value as SQL writes it: quoted for a text column.
pub open spec fn sql_value(v: Seq<char>, t: MemberType) -> Seq<char> {
    match t {
        MemberType::Text => seq!['\''] + v + seq!['\''],
        MemberType::NonText => v,
    }
}

/// `v as c` for the `i`th value of a row.
pub open spec fn inline_cell(it: &InlineTable, row: Seq<Seq<char>>, i: int) -> Seq<char> {
    sql_value(row[i], it.column_definitions@[i].key_type) + seq![' ', 'a', 's', ' ']
        + it.column_definitions@[i].name@
}

/// `select v1 as c1, v2 as c2, ...` for one row.
pub open spec fn inline_row_sql(it: &InlineTable, row: Seq<Seq<char>>) -> Seq<char> {
    seq!['s', 'e', 'l', 'e', 'c', 't', ' '] + joined(
        Seq::new(it.column_definitions@.len(), |i: int| inline_cell(it, row, i)),
        seq![',', ' '],
    )
}

/// The rows as one `select` each, joined by `union all`.
pub open spec fn inline_table_sql(it: &InlineTable) -> Seq<char> {
    joined(
        Seq::new(it.rows@.len(), |j: int| inline_row_sql(it, it.rows.deep_view()[j])),
        seq![' ', 'u', 'n', 'i', 'o', 'n', ' ', 'a', 'l', 'l', ' '],
    )
}

impl Clone for InlineTable {
    fn clone(&self) -> (r: Self)
        ensures
            r.same(self),
    {
        let column_definitions = self.column_definitions.clone();
        let rows = self.rows.clone();
        proof {
            assert(column_definitions@ =~= self.column_definitions@);
            assert forall|j: int| 0 <= j < rows@.len() implies rows.deep_view()[j] == self.rows.deep_view()[j] by {
                assert(rows@[j].deep_view() =~= self.rows@[j].deep_view());
            }
            assert(rows.deep_view() =~= self.rows.deep_view());
        }
        InlineTable { alias: self.alias.clone(), column_definitions, rows }
    }
}

impl InlineTable {
    /// The same alias, columns and rows.
    pub open spec fn same(&self, o: &InlineTable) -> bool {
        self.alias == o.alias && self.column_definitions@ == o.column_definitions@
            && self.rows.deep_view() == o.rows.deep_view()
    }

    /// A well-formed inline table: every row has one value per column.
    pub open spec fn wf(&self) -> bool {
        forall|j: int|
            0 <= j < self.rows.deep_view().len() ==> (#[trigger] self.rows.deep_view()[j]).len()
                == self.column_definitions@.len()
    }

    /// Whether every row has one value per column.
    pub fn check_wf(&self) -> (r: bool)
        ensures
            r == self.wf(),
    {
        let mut j: usize = 0;
        while j < self.rows.len()
            invariant
                j <= self.rows@.len(),
                forall|k: int| 0 <= k < j ==> (#[trigger] self.rows.deep_view()[k]).len()
                    == self.column_definitions@.len(),
            decreases self.rows@.len() - j,
        {
            proof {
                assert(self.rows.deep_view()[j as int] == self.rows@[j as int].deep_view());
            }
            if self.rows[j].len() != self.column_definitions.len() {
                return false;
            }
            j = j + 1;
        }
        true
    }

    fn row_sql(&self, row: &Vec<String>) -> (r: String)
        requires
            row@.len() == self.column_definitions@.len(),
        ensures
            r@ == inline_row_sql(self, row.deep_view()),
    {
        let mut cells: Vec<String> = Vec::new();
        let mut i: usize = 0;
        proof {
            reveal_strlit("'");
            reveal_strlit(" as ");
            assert("'"@ =~= seq!['\'']);
            assert(" as "@ =~= seq![' ', 'a', 's', ' ']);
        }
        while i < self.column_definitions.len()
            invariant
                i <= self.column_definitions@.len() == row@.len(),
                cells.deep_view() =~= Seq::new(i as nat, |k: int| inline_cell(self, row.deep_view(), k)),
            decreases self.column_definitions@.len() - i,
        {
            proof {
                reveal_strlit("'");
                reveal_strlit(" as ");
                assert("'"@ =~= seq!['\'']);
                assert(" as "@ =~= seq![' ', 'a', 's', ' ']);
            }
            let col = &self.column_definitions[i];
            let v = row[i].as_str();
            let mut cell = match col.key_type {
                MemberType::Text => {
                    let mut q = cat("'", v);
                    q.append("'");
                    q
                },
                MemberType::NonText => owned(v),
            };
            cell.append(" as ");
            cell.append(col.name.as_str());
            let ghost prev = cells.deep_view();
            proof {
                assert(row.deep_view()[i as int] == row@[i as int]@);
                assert(cell@ =~= inline_cell(self, row.deep_view(), i as int));
            }
            cells.push(cell);
            proof {
                assert(cells.deep_view() =~= prev.push(cell@));
            }
            i = i + 1;
        }
        let body = join_strings(&cells, ", ");
        proof {
            reveal_strlit(", ");
            reveal_strlit("select ");
            assert(", "@ =~= seq![',', ' ']);
            assert("select "@ =~= seq!['s', 'e', 'l', 'e', 'c', 't', ' ']);
        }
        cat("select ", body.as_str())
    }

    /// The table as SQL: one `select` of literal values per row, joined by `union all`.
    pub fn sql_string(&self) -> (r: String)
        requires
            self.wf(),
        ensures
            r@ == inline_table_sql(self),
    {
        let mut selects: Vec<String> = Vec::new();
        let mut j: usize = 0;
        while j < self.rows.len()
            invariant
                self.wf(),
                j <= self.rows@.len(),
                selects.deep_view() =~= Seq::new(
                    j as nat,
                    |k: int| inline_row_sql(self, self.rows.deep_view()[k]),
                ),
            decreases self.rows@.len() - j,
        {
            proof {
                assert(self.rows.deep_view()[j as int] == self.rows@[j as int].deep_view());
            }
            let s = self.row_sql(&self.rows[j]);
            let ghost prev = selects.deep_view();
            let ghost sv = s@;
            selects.push(s);
            proof {
                assert(selects.deep_view() =~= prev.push(sv));
            }
            j = j + 1;
        }
        proof {
            reveal_strlit(" union all ");
            assert(" union all "@ =~= seq![' ', 'u', 'n', 'i', 'o', 'n', ' ', 'a', 'l', 'l', ' ']);
        }
        join_strings(&selects, " union all ")
    }
}

/// How a measure's column is aggregated.
#[derive(Debug)]
pub enum Aggregator {
    Sum,
    Count,
    Average,
    Max,
    Min,
    DistinctCount,
    Median,
    /// `sum(column * weight) / sum(weight)`.
    BasicWeightedAverage { weight_column: String },
}

impl Clone for Aggregator {
    fn clone(&self) -> (r: Self)
        ensures
            r == *self,
    {
        match self {
            Aggregator::Sum => Aggregator::Sum,
            Aggregator::Count => Aggregator::Count,
            Aggregator::Average => Aggregator::Average,
            Aggregator::Max => Aggregator::Max,
            Aggregator::Min => Aggregator::Min,
            Aggregator::DistinctCount => Aggregator::DistinctCount,
            Aggregator::Median => Aggregator::Median,
            Aggregator::BasicWeightedAverage { weight_column } => Aggregator::BasicWeightedAverage {
                weight_column: weight_column.clone(),
            },
        }
    }
}


/// A property column of a level.
#[derive(Debug)]
pub struct PropertyDef {
    pub name: String,
    pub column: String,
}

/// A level: its key column, an optional name column, and its properties.
#[derive(Debug)]
pub struct Level {
    pub name: String,
    pub key_column: String,
    pub name_column: Option<String>,
    pub key_type: MemberType,
    pub properties: Vec<PropertyDef>,
}

/// An ordered list of levels, coarsest first, read from one table.
#[derive(Debug)]
pub struct Hierarchy {
    pub name: String,
    pub table: Table,
    pub primary_key: String,
    pub inline_table: Option<InlineTable>,
    pub levels: Vec<Level>,
}

/// A dimension, joined to the fact table through `foreign_key`.
#[derive(Debug)]
pub struct Dimension {
    pub name: String,
    pub foreign_key: String,
    pub hierarchies: Vec<Hierarchy>,
}

/// A measure: a column of the fact table and how it aggregates.
#[derive(Debug)]
pub struct MeasureDef {
    pub name: String,
    pub column: String,
    pub aggregator: Aggregator,
}

/// A fact table with its dimensions and measures.
#[derive(Debug)]
pub struct Cube {
    pub name: String,
    pub table: Table,
    pub dimensions: Vec<Dimension>,
    pub measures: Vec<MeasureDef>,
}

/// Where the schema is read from.
#[derive(Debug)]
pub enum SchemaSource {
    LocalSchema { filepath: String },
    DbSchema { tablepath: String },
    RemoteSchema { endpoint: String },
}

impl Clone for SchemaSource {
    fn clone(&self) -> (r: Self)
        ensures
            r == *self,
    {
        match self {
            SchemaSource::LocalSchema { filepath } => SchemaSource::LocalSchema {
                filepath: filepath.clone(),
            },
            SchemaSource::DbSchema { tablepath } => SchemaSource::DbSchema {
                tablepath: tablepath.clone(),
            },
            SchemaSource::RemoteSchema { endpoint } => SchemaSource::RemoteSchema {
                endpoint: endpoint.clone(),
            },
        }
    }
}

/// The catalog of cubes.
#[derive(Debug)]
pub struct Schema {
    pub name: String,
    pub cubes: Vec<Cube>,
}

pub open spec fn dimension_names_distinct(ds: Seq<Dimension>) -> bool {
    forall|a: int, b: int|
        0 <= a < ds.len() && 0 <= b < ds.len() && a != b ==> (#[trigger] ds[a]).name@ != (
        #[trigger] ds[b]).name@
}

pub open spec fn hierarchy_names_distinct(hs: Seq<Hierarchy>) -> bool {
    forall|a: int, b: int|
        0 <= a < hs.len() && 0 <= b < hs.len() && a != b ==> (#[trigger] hs[a]).name@ != (
        #[trigger] hs[b]).name@
}

pub open spec fn level_names_distinct(ls: Seq<Level>) -> bool {
    forall|a: int, b: int|
        0 <= a < ls.len() && 0 <= b < ls.len() && a != b ==> (#[trigger] ls[a]).name@ != (
        #[trigger] ls[b]).name@
}

pub open spec fn property_names_distinct(ps: Seq<PropertyDef>) -> bool {
    forall|a: int, b: int|
        0 <= a < ps.len() && 0 <= b < ps.len() && a != b ==> (#[trigger] ps[a]).name@ != (
        #[trigger] ps[b]).name@
}

pub open spec fn measure_names_distinct(ms: Seq<MeasureDef>) -> bool {
    forall|a: int, b: int|
        0 <= a < ms.len() && 0 <= b < ms.len() && a != b ==> (#[trigger] ms[a]).name@ != (
        #[trigger] ms[b]).name@
}

/// A hierarchy with a level, distinct level names, property names distinct within
/// each level, distinct key and name columns, and a well-formed inline table.
pub open spec fn hierarchy_wf(h: Hierarchy) -> bool {
    &&& h.levels@.len() >= 1
    &&& level_names_distinct(h.levels@)
    &&& forall|i: int| 0 <= i < h.levels@.len() ==> property_names_distinct((#[trigger] h.levels@[i]).properties@)
    &&& columns_distinct(h.levels@.map_values(|l: Level| level_column_of(l)))
    &&& match h.inline_table {
        Some(it) => it.wf(),
        None => true,
    }
}

pub open spec fn dimension_wf(d: Dimension) -> bool {
    &&& hierarchy_names_distinct(d.hierarchies@)
    &&& forall|h: int| 0 <= h < d.hierarchies@.len() ==> hierarchy_wf(#[trigger] d.hierarchies@[h])
}

/// The level at indices `(d, h, i)` of `c` exists and has the name `l`.
pub open spec fn level_matches(c: &Cube, d: int, h: int, i: int, l: LevelNameView) -> bool {
    &&& 0 <= d < c.dimensions@.len()
    &&& 0 <= h < c.dimensions@[d].hierarchies@.len()
    &&& 0 <= i < c.dimensions@[d].hierarchies@[h].levels@.len()
    &&& c.dimensions@[d].name@ == l.dimension
    &&& c.dimensions@[d].hierarchies@[h].name@ == l.hierarchy
    &&& c.dimensions@[d].hierarchies@[h].levels@[i].name@ == l.level
}

pub open spec fn has_level(c: &Cube, l: LevelNameView) -> bool {
    exists|d: int, h: int, i: int| level_matches(c, d, h, i, l)
}

/// The property at indices `(d, h, i, q)` of `c` exists and is the one `p` names.
pub open spec fn property_matches(c: &Cube, d: int, h: int, i: int, q: int, p: PropertyView) -> bool {
    &&& level_matches(c, d, h, i, p.level)
    &&& 0 <= q < c.dimensions@[d].hierarchies@[h].levels@[i].properties@.len()
    &&& c.dimensions@[d].hierarchies@[h].levels@[i].properties@[q].name@ == p.property
}

pub open spec fn has_property(c: &Cube, p: PropertyView) -> bool {
    exists|d: int, h: int, i: int, q: int| property_matches(c, d, h, i, q, p)
}

pub open spec fn has_measure(c: &Cube, m: Seq<char>) -> bool {
    exists|j: int| 0 <= j < c.measures@.len() && (#[trigger] c.measures@[j]).name@ == m
}

impl Cube {
    /// Names identify levels and measures, every hierarchy has a level, and every
    /// inline table has one value per column in each row.
    pub open spec fn wf(&self) -> bool {
        &&& forall|d: int, h: int|
            0 <= d < self.dimensions@.len() && 0 <= h < self.dimensions@[d].hierarchies@.len()
                ==> (#[trigger] self.dimensions@[d].hierarchies@[h]).levels@.len() >= 1
        &&& forall|d: int, h: int|
            0 <= d < self.dimensions@.len() && 0 <= h < self.dimensions@[d].hierarchies@.len()
                ==> match (#[trigger] self.dimensions@[d].hierarchies@[h]).inline_table {
                Some(it) => it.wf(),
                None => true,
            }
        &&& forall|d1: int, h1: int, i1: int, d2: int, h2: int, i2: int, l: LevelNameView|
            #![trigger level_matches(self, d1, h1, i1, l), level_matches(self, d2, h2, i2, l)]
            level_matches(self, d1, h1, i1, l) && level_matches(self, d2, h2, i2, l) ==> d1 == d2
                && h1 == h2 && i1 == i2
        &&& forall|j1: int, j2: int|
            0 <= j1 < self.measures@.len() && 0 <= j2 < self.measures@.len() && (
            #[trigger] self.measures@[j1]).name@ == (#[trigger] self.measures@[j2]).name@ ==> j1
                == j2
        &&& forall|d: int, h: int, i: int, q1: int, q2: int, p: PropertyView|
            #![trigger property_matches(self, d, h, i, q1, p), property_matches(self, d, h, i, q2, p)]
            property_matches(self, d, h, i, q1, p) && property_matches(self, d, h, i, q2, p) ==> q1
                == q2
        &&& dimension_names_distinct(self.dimensions@)
        &&& forall|d: int|
            0 <= d < self.dimensions@.len() ==> dimension_wf(#[trigger] self.dimensions@[d])
    }

    /// The indices of the level and of the property that `p` names.
    pub fn find_property(&self, p: &Property) -> (r: Option<(usize, usize, usize, usize)>)
        requires
            self.wf(),
        ensures
            match r {
                Some((d, h, i, q)) => property_matches(
                    self,
                    d as int,
                    h as int,
                    i as int,
                    q as int,
                    p@,
                ),
                None => !has_property(self, p@),
            },
    {
        match self.find_level(&p.level_name) {
            None => None,
            Some((d, h, i)) => {
                let props = &self.dimensions[d].hierarchies[h].levels[i].properties;
                let mut q: usize = 0;
                while q < props.len()
                    invariant
                        level_matches(self, d as int, h as int, i as int, p.level_name@),
                        *props == self.dimensions@[d as int].hierarchies@[h as int].levels@[i as int].properties,
                        q <= props@.len(),
                        forall|k: int| 0 <= k < q ==> (#[trigger] props@[k]).name@ != p.property@,
                    decreases props@.len() - q,
                {
                    if props[q].name == p.property {
                        return Some((d, h, i, q));
                    }
                    q = q + 1;
                }
                proof {
                    assert forall|d1: int, h1: int, i1: int, q1: int|
                        !property_matches(self, d1, h1, i1, q1, p@) by {
                        if property_matches(self, d1, h1, i1, q1, p@) {
                            assert(level_matches(self, d1, h1, i1, p.level_name@));
                            assert(d1 == d && h1 == h && i1 == i);
                            assert(props@[q1].name@ == p.property@);
                        }
                    }
                }
                None
            },
        }
    }

    /// The indices of the level named `l`.
    pub fn find_level(&self, l: &LevelName) -> (r: Option<(usize, usize, usize)>)
        ensures
            match r {
                Some((d, h, i)) => level_matches(self, d as int, h as int, i as int, l@),
                None => !has_level(self, l@),
            },
    {
        let mut d: usize = 0;
        while d < self.dimensions.len()
            invariant
                d <= self.dimensions@.len(),
                forall|d1: int, h1: int, i1: int|
                    0 <= d1 < d ==> !level_matches(self, d1, h1, i1, l@),
            decreases self.dimensions@.len() - d,
        {
            let dim = &self.dimensions[d];
            if dim.name == l.dimension {
                let mut h: usize = 0;
                while h < dim.hierarchies.len()
                    invariant
                        d < self.dimensions@.len(),
                        *dim == self.dimensions@[d as int],
                        dim.name@ == l.dimension@,
                        h <= dim.hierarchies@.len(),
                        forall|d1: int, h1: int, i1: int|
                            0 <= d1 < d ==> !level_matches(self, d1, h1, i1, l@),
                        forall|h1: int, i1: int|
                            0 <= h1 < h ==> !level_matches(self, d as int, h1, i1, l@),
                    decreases dim.hierarchies@.len() - h,
                {
                    let hier = &dim.hierarchies[h];
                    if hier.name == l.hierarchy {
                        let mut i: usize = 0;
                        while i < hier.levels.len()
                            invariant
                                d < self.dimensions@.len(),
                                *dim == self.dimensions@[d as int],
                                h < dim.hierarchies@.len(),
                                *hier == dim.hierarchies@[h as int],
                                dim.name@ == l.dimension@,
                                hier.name@ == l.hierarchy@,
                                i <= hier.levels@.len(),
                                forall|i1: int|
                                    0 <= i1 < i ==> !level_matches(self, d as int, h as int, i1, l@),
                            decreases hier.levels@.len() - i,
                        {
                            if hier.levels[i].name == l.level {
                                return Some((d, h, i));
                            }
                            i = i + 1;
                        }
                    }
                    h = h + 1;
                }
            }
            d = d + 1;
        }
        None
    }

    /// The index of the measure named `m`.
    pub fn find_measure(&self, m: &Measure) -> (r: Option<usize>)
        ensures
            match r {
                Some(j) => j < self.measures@.len() && self.measures@[j as int].name@ == m@,
                None => !has_measure(self, m@),
            },
    {
        let mut j: usize = 0;
        while j < self.measures.len()
            invariant
                j <= self.measures@.len(),
                forall|k: int| 0 <= k < j ==> (#[trigger] self.measures@[k]).name@ != m@,
            decreases self.measures@.len() - j,
        {
            if self.measures[j].name == m.0 {
                return Some(j);
            }
            j = j + 1;
        }
        None
    }
}

impl Schema {
    pub open spec fn wf(&self) -> bool {
        forall|i: int| 0 <= i < self.cubes@.len() ==> (#[trigger] self.cubes@[i]).wf()
    }

    /// The first cube named `name`.
    pub fn find_cube(&self, name: &str) -> (r: Option<usize>)
        ensures
            match r {
                Some(i) => i < self.cubes@.len() && self.cubes@[i as int].name@ == name@ && forall|
                    k: int,
                | 0 <= k < i ==> (#[trigger] self.cubes@[k]).name@ != name@,
                None => forall|k: int|
                    0 <= k < self.cubes@.len() ==> (#[trigger] self.cubes@[k]).name@ != name@,
            },
    {
        let target = owned(name);
        let mut i: usize = 0;
        while i < self.cubes.len()
            invariant
                i <= self.cubes@.len(),
                target@ == name@,
                forall|k: int| 0 <= k < i ==> (#[trigger] self.cubes@[k]).name@ != name@,
            decreases self.cubes@.len() - i,
        {
            if self.cubes[i].name == target {
                return Some(i);
            }
            i = i + 1;
        }
        None
    }
}


/// Whether the strings of `v` are pairwise distinct.
fn strings_distinct(v: &Vec<String>) -> (r: bool)
    ensures
        r == forall|a: int, b: int|
            0 <= a < v@.len() && 0 <= b < v@.len() && a != b ==> (#[trigger] v@[a])@ != (
            #[trigger] v@[b])@,
{
    let n = v.len();
    let mut i: usize = 0;
    while i < n
        invariant
            n == v@.len(),
            i <= n,
            forall|a: int, b: int| 0 <= a < i && a < b < n ==> (#[trigger] v@[a])@ != (#[trigger] v@[b])@,
        decreases n - i,
    {
        let mut j: usize = i + 1;
        while j < n
            invariant
                n == v@.len(),
                i < n,
                i + 1 <= j <= n,
                forall|a: int, b: int| 0 <= a < i && a < b < n ==> (#[trigger] v@[a])@ != (#[trigger] v@[b])@,
                forall|b: int| i < b < j ==> v@[i as int]@ != (#[trigger] v@[b])@,
            decreases n - j,
        {
            if v[i] == v[j] {
                return false;
            }
            j = j + 1;
        }
        i = i + 1;
    }
    proof {
        assert forall|a: int, b: int|
            0 <= a < v@.len() && 0 <= b < v@.len() && a != b implies (#[trigger] v@[a])@ != (
            #[trigger] v@[b])@ by {
            if a > b {
                assert(v@[b]@ != v@[a]@);
            }
        }
    }
    true
}

/// Whether the names of `xs` are pairwise distinct.
fn dimension_names_apart(xs: &Vec<Dimension>) -> (r: bool)
    ensures
        r == dimension_names_distinct(xs@),
{
    let mut names: Vec<String> = Vec::new();
    let mut k: usize = 0;
    while k < xs.len()
        invariant
            k <= xs@.len(),
            names@.len() == k,
            forall|a: int| 0 <= a < k ==> #[trigger] names@[a]@ == xs@[a].name@,
        decreases xs@.len() - k,
    {
        names.push(xs[k].name.clone());
        k = k + 1;
    }
    let r = strings_distinct(&names);
    proof {
        if r {
            assert forall|a: int, b: int|
                0 <= a < xs@.len() && 0 <= b < xs@.len() && a != b implies (#[trigger] xs@[a]).name@
                    != (#[trigger] xs@[b]).name@ by {
                assert(names@[a]@ != names@[b]@);
            }
        } else {
            let (a, b) = choose|a: int, b: int|
                0 <= a < names@.len() && 0 <= b < names@.len() && a != b && (#[trigger] names@[a])@
                    == (#[trigger] names@[b])@;
            assert(xs@[a].name@ == xs@[b].name@);
        }
    }
    r
}

/// Whether the names of `xs` are pairwise distinct.
fn hierarchy_names_apart(xs: &Vec<Hierarchy>) -> (r: bool)
    ensures
        r == hierarchy_names_distinct(xs@),
{
    let mut names: Vec<String> = Vec::new();
    let mut k: usize = 0;
    while k < xs.len()
        invariant
            k <= xs@.len(),
            names@.len() == k,
            forall|a: int| 0 <= a < k ==> #[trigger] names@[a]@ == xs@[a].name@,
        decreases xs@.len() - k,
    {
        names.push(xs[k].name.clone());
        k = k + 1;
    }
    let r = strings_distinct(&names);
    proof {
        if r {
            assert forall|a: int, b: int|
                0 <= a < xs@.len() && 0 <= b < xs@.len() && a != b implies (#[trigger] xs@[a]).name@
                    != (#[trigger] xs@[b]).name@ by {
                assert(names@[a]@ != names@[b]@);
            }
        } else {
            let (a, b) = choose|a: int, b: int|
                0 <= a < names@.len() && 0 <= b < names@.len() && a != b && (#[trigger] names@[a])@
                    == (#[trigger] names@[b])@;
            assert(xs@[a].name@ == xs@[b].name@);
        }
    }
    r
}

/// Whether the names of `xs` are pairwise distinct.
fn level_names_apart(xs: &Vec<Level>) -> (r: bool)
    ensures
        r == level_names_distinct(xs@),
{
    let mut names: Vec<String> = Vec::new();
    let mut k: usize = 0;
    while k < xs.len()
        invariant
            k <= xs@.len(),
            names@.len() == k,
            forall|a: int| 0 <= a < k ==> #[trigger] names@[a]@ == xs@[a].name@,
        decreases xs@.len() - k,
    {
        names.push(xs[k].name.clone());
        k = k + 1;
    }
    let r = strings_distinct(&names);
    proof {
        if r {
            assert forall|a: int, b: int|
                0 <= a < xs@.len() && 0 <= b < xs@.len() && a != b implies (#[trigger] xs@[a]).name@
                    != (#[trigger] xs@[b]).name@ by {
                assert(names@[a]@ != names@[b]@);
            }
        } else {
            let (a, b) = choose|a: int, b: int|
                0 <= a < names@.len() && 0 <= b < names@.len() && a != b && (#[trigger] names@[a])@
                    == (#[trigger] names@[b])@;
            assert(xs@[a].name@ == xs@[b].name@);
        }
    }
    r
}

/// Whether the names of `xs` are pairwise distinct.
fn property_names_apart(xs: &Vec<PropertyDef>) -> (r: bool)
    ensures
        r == property_names_distinct(xs@),
{
    let mut names: Vec<String> = Vec::new();
    let mut k: usize = 0;
    while k < xs.len()
        invariant
            k <= xs@.len(),
            names@.len() == k,
            forall|a: int| 0 <= a < k ==> #[trigger] names@[a]@ == xs@[a].name@,
        decreases xs@.len() - k,
    {
        names.push(xs[k].name.clone());
        k = k + 1;
    }
    let r = strings_distinct(&names);
    proof {
        if r {
            assert forall|a: int, b: int|
                0 <= a < xs@.len() && 0 <= b < xs@.len() && a != b implies (#[trigger] xs@[a]).name@
                    != (#[trigger] xs@[b]).name@ by {
                assert(names@[a]@ != names@[b]@);
            }
        } else {
            let (a, b) = choose|a: int, b: int|
                0 <= a < names@.len() && 0 <= b < names@.len() && a != b && (#[trigger] names@[a])@
                    == (#[trigger] names@[b])@;
            assert(xs@[a].name@ == xs@[b].name@);
        }
    }
    r
}

/// Whether the names of `xs` are pairwise distinct.
fn measure_names_apart(xs: &Vec<MeasureDef>) -> (r: bool)
    ensures
        r == measure_names_distinct(xs@),
{
    let mut names: Vec<String> = Vec::new();
    let mut k: usize = 0;
    while k < xs.len()
        invariant
            k <= xs@.len(),
            names@.len() == k,
            forall|a: int| 0 <= a < k ==> #[trigger] names@[a]@ == xs@[a].name@,
        decreases xs@.len() - k,
    {
        names.push(xs[k].name.clone());
        k = k + 1;
    }
    let r = strings_distinct(&names);
    proof {
        if r {
            assert forall|a: int, b: int|
                0 <= a < xs@.len() && 0 <= b < xs@.len() && a != b implies (#[trigger] xs@[a]).name@
                    != (#[trigger] xs@[b]).name@ by {
                assert(names@[a]@ != names@[b]@);
            }
        } else {
            let (a, b) = choose|a: int, b: int|
                0 <= a < names@.len() && 0 <= b < names@.len() && a != b && (#[trigger] names@[a])@
                    == (#[trigger] names@[b])@;
            assert(xs@[a].name@ == xs@[b].name@);
        }
    }
    r
}

/// The key and name columns of `a` and `b` do not clash.
pub open spec fn columns_apart(cols: Seq<LevelColumn>, a: int, b: int) -> bool {
    &&& a != b ==> cols[a].key_column@ != cols[b].key_column@
    &&& (a != b && cols[a].name_column is Some && cols[b].name_column is Some) ==> cols[a].name_column.unwrap()@
        != cols[b].name_column.unwrap()@
    &&& cols[b].name_column is Some ==> cols[a].key_column@ != cols[b].name_column.unwrap()@
}

fn option_eq(a: &Option<String>, b: &Option<String>) -> (r: bool)
    ensures
        r == (a is Some && b is Some && a.unwrap()@ == b.unwrap()@),
{
    match (a, b) {
        (Some(x), Some(y)) => *x == *y,
        _ => false,
    }
}

/// Whether the key and name columns of `levels` are distinct.
fn level_columns_distinct(levels: &Vec<Level>) -> (r: bool)
    ensures
        r == columns_distinct(levels@.map_values(|l: Level| level_column_of(l))),
{
    let ghost cols = levels@.map_values(|l: Level| level_column_of(l));
    let n = levels.len();
    let mut i: usize = 0;
    while i < n
        invariant
            n == levels@.len(),
            cols == levels@.map_values(|l: Level| level_column_of(l)),
            i <= n,
            forall|a: int, b: int| 0 <= a < i && 0 <= b < n ==> #[trigger] columns_apart(cols, a, b),
        decreases n - i,
    {
        let mut j: usize = 0;
        while j < n
            invariant
                n == levels@.len(),
                cols == levels@.map_values(|l: Level| level_column_of(l)),
                i < n,
                j <= n,
                forall|a: int, b: int| 0 <= a < i && 0 <= b < n ==> #[trigger] columns_apart(cols, a, b),
                forall|b: int| 0 <= b < j ==> #[trigger] columns_apart(cols, i as int, b),
            decreases n - j,
        {
            let li = &levels[i];
            let lj = &levels[j];
            let bad = (i != j && li.key_column == lj.key_column) || (i != j && option_eq(&li.name_column, &lj.name_column))
                || match &lj.name_column {
                Some(nm) => li.key_column == *nm,
                None => false,
            };
            if bad {
                proof {
                    assert(!columns_apart(cols, i as int, j as int));
                }
                return false;
            }
            proof {
                assert(columns_apart(cols, i as int, j as int));
            }
            j = j + 1;
        }
        i = i + 1;
    }
    proof {
        assert forall|a: int, b: int|
            0 <= a < cols.len() && 0 <= b < cols.len() && a != b implies (#[trigger] cols[a]).key_column@
                != (#[trigger] cols[b]).key_column@ by {
            assert(columns_apart(cols, a, b));
        }
        assert forall|a: int, b: int|
            0 <= a < cols.len() && 0 <= b < cols.len() && a != b && (#[trigger] cols[a]).name_column is Some
                && (#[trigger] cols[b]).name_column is Some implies cols[a].name_column.unwrap()@
                != cols[b].name_column.unwrap()@ by {
            assert(columns_apart(cols, a, b));
        }
        assert forall|a: int, b: int|
            0 <= a < cols.len() && 0 <= b < cols.len() && (#[trigger] cols[b]).name_column is Some
                implies (#[trigger] cols[a]).key_column@ != cols[b].name_column.unwrap()@ by {
            assert(columns_apart(cols, a, b));
        }
    }
    true
}

/// Whether a hierarchy is well formed.
fn hierarchy_ok(h: &Hierarchy) -> (r: bool)
    ensures
        r == hierarchy_wf(*h),
{
    if h.levels.len() == 0 || !level_names_apart(&h.levels) || !level_columns_distinct(&h.levels) {
        return false;
    }
    let mut i: usize = 0;
    while i < h.levels.len()
        invariant
            i <= h.levels@.len(),
            forall|k: int| 0 <= k < i ==> property_names_distinct((#[trigger] h.levels@[k]).properties@),
        decreases h.levels@.len() - i,
    {
        if !property_names_apart(&h.levels[i].properties) {
            return false;
        }
        i = i + 1;
    }
    match &h.inline_table {
        Some(it) => it.check_wf(),
        None => true,
    }
}

/// Whether a dimension is well formed.
fn dimension_ok(d: &Dimension) -> (r: bool)
    ensures
        r == dimension_wf(*d),
{
    if !hierarchy_names_apart(&d.hierarchies) {
        return false;
    }
    let mut h: usize = 0;
    while h < d.hierarchies.len()
        invariant
            h <= d.hierarchies@.len(),
            forall|k: int| 0 <= k < h ==> hierarchy_wf(#[trigger] d.hierarchies@[k]),
        decreases d.hierarchies@.len() - h,
    {
        if !hierarchy_ok(&d.hierarchies[h]) {
            return false;
        }
        h = h + 1;
    }
    true
}

impl Cube {
    /// Whether the cube is well formed.
    pub fn is_wf(&self) -> (r: bool)
        ensures
            r == self.wf(),
    {
        if !dimension_names_apart(&self.dimensions) || !measure_names_apart(&self.measures) {
            proof {
                if !measure_names_distinct(self.measures@) {
                    let (a, b) = choose|a: int, b: int|
                        0 <= a < self.measures@.len() && 0 <= b < self.measures@.len() && a != b && (
                        #[trigger] self.measures@[a]).name@ == (#[trigger] self.measures@[b]).name@;
                    assert(self.measures@[a].name@ == self.measures@[b].name@);
                }
            }
            return false;
        }
        let mut d: usize = 0;
        while d < self.dimensions.len()
            invariant
                d <= self.dimensions@.len(),
                forall|k: int| 0 <= k < d ==> dimension_wf(#[trigger] self.dimensions@[k]),
            decreases self.dimensions@.len() - d,
        {
            if !dimension_ok(&self.dimensions[d]) {
                return false;
            }
            d = d + 1;
        }
        proof {
            assert forall|d: int, h: int|
                0 <= d < self.dimensions@.len() && 0 <= h < self.dimensions@[d].hierarchies@.len()
                    implies hierarchy_wf(#[trigger] self.dimensions@[d].hierarchies@[h]) by {
                assert(dimension_wf(self.dimensions@[d]));
            }
            assert forall|d1: int, h1: int, i1: int, d2: int, h2: int, i2: int, l: LevelNameView|
                level_matches(self, d1, h1, i1, l) && level_matches(self, d2, h2, i2, l) implies d1 == d2
                    && h1 == h2 && i1 == i2 by {
                assert(self.dimensions@[d1].name@ == self.dimensions@[d2].name@);
                assert(d1 == d2);
                assert(dimension_wf(self.dimensions@[d1]));
                let hs = self.dimensions@[d1].hierarchies@;
                assert(hs[h1].name@ == hs[h2].name@);
                assert(h1 == h2);
                assert(hierarchy_wf(hs[h1]));
                assert(hs[h1].levels@[i1].name@ == hs[h1].levels@[i2].name@);
            }
            assert forall|d: int, h: int, i: int, q1: int, q2: int, p: PropertyView|
                property_matches(self, d, h, i, q1, p) && property_matches(self, d, h, i, q2, p)
                    implies q1 == q2 by {
                assert(dimension_wf(self.dimensions@[d]));
                let hier = self.dimensions@[d].hierarchies@[h];
                assert(hierarchy_wf(hier));
                assert(property_names_distinct(hier.levels@[i].properties@));
                assert(hier.levels@[i].properties@[q1].name@ == hier.levels@[i].properties@[q2].name@);
            }
            assert forall|j1: int, j2: int|
                0 <= j1 < self.measures@.len() && 0 <= j2 < self.measures@.len() && (
                #[trigger] self.measures@[j1]).name@ == (#[trigger] self.measures@[j2]).name@ implies j1
                == j2 by {
                if j1 != j2 {
                    assert(self.measures@[j1].name@ != self.measures@[j2].name@);
                }
            }
        }
        true
    }
}

impl Schema {
    /// Whether every cube is well formed, as the compiler requires.
    pub fn is_wf(&self) -> (r: bool)
        ensures
            r == self.wf(),
    {
        let mut i: usize = 0;
        while i < self.cubes.len()
            invariant
                i <= self.cubes@.len(),
                forall|k: int| 0 <= k < i ==> (#[trigger] self.cubes@[k]).wf(),
            decreases self.cubes@.len() - i,
        {
            if !self.cubes[i].is_wf() {
                return false;
            }
            i = i + 1;
        }
        true
    }
}

} // verus!
