//! The physical plan that the compiler derives from a query and a schema, and the
//! column lists and fragments that the SQL writer takes from it.

use vstd::prelude::*;
use crate::names::Mask;
use crate::query::{Constraint, LimitQuery, Operator, SortDirection};
use crate::schema::{table_full_name, Aggregator, InlineTable, MemberType, Table, inline_table_sql};
use crate::text::{cat, join_strings, joined, owned};

verus! {

pub open spec fn sep_comma() -> Seq<char> {
    seq![',', ' ']
}

pub open spec fn kw_as() -> Seq<char> {
    seq![' ', 'a', 's', ' ']
}

/// `col_postfix`: the alias of a column within one drilldown.
pub open spec fn postfixed(col: Seq<char>, postfix: Seq<char>) -> Seq<char> {
    col + seq!['_'] + postfix
}

/// `expr as col_postfix`.
pub open spec fn aliased(expr: Seq<char>, col: Seq<char>, postfix: Seq<char>) -> Seq<char> {
    expr + kw_as() + postfixed(col, postfix)
}

pub fn postfixed_exec(col: &str, postfix: &str) -> (r: String)
    ensures
        r@ == postfixed(col@, postfix@),
{
    proof {
        reveal_strlit("_");
        assert("_"@ =~= seq!['_']);
    }
    let mut r = cat(col, "_");
    r.append(postfix);
    r
}

fn aliased_exec(expr: &str, col: &str, postfix: &str) -> (r: String)
    ensures
        r@ == aliased(expr@, col@, postfix@),
{
    proof {
        reveal_strlit(" as ");
        assert(" as "@ =~= kw_as());
    }
    let mut r = cat(expr, " as ");
    r.append(postfixed_exec(col, postfix).as_str());
    proof {
        assert(r@ =~= aliased(expr@, col@, postfix@));
    }
    r
}

pub fn comma_join(parts: &Vec<String>) -> (r: String)
    ensures
        r@ == joined(parts.deep_view(), sep_comma()),
{
    proof {
        reveal_strlit(", ");
        assert(", "@ =~= sep_comma());
    }
    join_strings(parts, ", ")
}

/// `a, b`.
fn comma_pair(a: &str, b: &str) -> (r: String)
    ensures
        r@ == a@ + sep_comma() + b@,
{
    proof {
        reveal_strlit(", ");
        assert(", "@ =~= sep_comma());
    }
    let mut r = cat(a, ", ");
    r.append(b);
    r
}

/// `t.c`.
fn qualified(t: &str, c: &str) -> (r: String)
    ensures
        r@ == t@ + seq!['.'] + c@,
{
    proof {
        reveal_strlit(".");
        assert("."@ =~= seq!['.']);
    }
    let mut r = cat(t, ".");
    r.append(c);
    r
}

/// The plan of one request.
#[derive(Debug)]
pub struct QueryIr {
    pub table: TableSql,
    pub cuts: Vec<CutSql>,
    pub drills: Vec<DrilldownSql>,
    pub meas: Vec<MeasureSql>,
    pub hidden_drills: Vec<HiddenDrilldownSql>,
    pub filters: Vec<FilterSql>,
    pub top: Option<TopSql>,
    pub top_where: Option<TopWhereSql>,
    pub sort: Option<SortSql>,
    pub limit: Option<LimitSql>,
    pub rca: Option<RcaSql>,
    pub growth: Option<GrowthSql>,
    pub rate: Option<RateSql>,
    pub sparse: bool,
    /// The names of the result columns, in order.
    pub headers: Vec<String>,
}

/// The fact table.
#[derive(Debug)]
pub struct TableSql {
    pub name: String,
    pub primary_key: Option<String>,
}

/// The key column of a level, and its name column if it has one.
#[derive(Debug)]
pub struct LevelColumn {
    pub key_column: String,
    pub name_column: Option<String>,
}

impl Clone for LevelColumn {
    fn clone(&self) -> (r: Self)
        ensures
            r == *self,
    {
        LevelColumn {
            key_column: self.key_column.clone(),
            name_column: match &self.name_column {
                Some(n) => Some(n.clone()),
                None => None,
            },
        }
    }
}

/// A drilldown bound to its dimension table.
#[derive(Debug)]
pub struct DrilldownSql {
    pub alias_postfix: String,
    pub table: Table,
    pub primary_key: String,
    pub foreign_key: String,
    pub level_columns: Vec<LevelColumn>,
    pub property_columns: Vec<String>,
    pub inline_table: Option<InlineTable>,
}

/// The selection of one level's columns under their aliases; `prefix` qualifies
/// the key column.
pub open spec fn level_alias_item(l: LevelColumn, postfix: Seq<char>, prefix: Seq<char>) -> Seq<
    char,
> {
    match l.name_column {
        Some(n) => aliased(prefix + l.key_column@, l.key_column@, postfix) + sep_comma() + aliased(
            n@,
            n@,
            postfix,
        ),
        None => aliased(prefix + l.key_column@, l.key_column@, postfix),
    }
}

/// The property columns as one entry, where there are any.
pub open spec fn property_tail(props: Seq<Seq<char>>) -> Seq<Seq<char>> {
    if props.len() == 0 {
        Seq::empty()
    } else {
        seq![joined(props, sep_comma())]
    }
}

/// The aliases of a list of level columns: the key's, then the name's if any.
pub open spec fn level_aliases(levels: Seq<LevelColumn>, postfix: Seq<char>) -> Seq<Seq<char>>
    decreases levels.len(),
{
    if levels.len() == 0 {
        Seq::empty()
    } else {
        let l = levels.last();
        level_aliases(levels.drop_last(), postfix) + match l.name_column {
            Some(n) => seq![postfixed(l.key_column@, postfix), postfixed(n@, postfix)],
            None => seq![postfixed(l.key_column@, postfix)],
        }
    }
}

/// The columns of one level, qualified by table name.
pub open spec fn level_qual_item(l: LevelColumn, table: Seq<char>) -> Seq<char> {
    match l.name_column {
        Some(n) => table + seq!['.'] + l.key_column@ + sep_comma() + table + seq!['.'] + n@,
        None => table + seq!['.'] + l.key_column@,
    }
}

impl DrilldownSql {
    pub open spec fn alias_vec_spec(&self, prefix: Seq<char>) -> Seq<Seq<char>> {
        Seq::new(
            self.level_columns@.len(),
            |i: int| level_alias_item(self.level_columns@[i], self.alias_postfix@, prefix),
        ) + property_tail(self.property_columns.deep_view())
    }

    pub open spec fn alias_only_spec(&self) -> Seq<Seq<char>> {
        level_aliases(self.level_columns@, self.alias_postfix@) + property_tail(
            self.property_columns.deep_view(),
        )
    }

    pub open spec fn qual_vec_spec(&self) -> Seq<Seq<char>> {
        let t = self.table.name@;
        Seq::new(self.level_columns@.len(), |i: int| level_qual_item(self.level_columns@[i], t))
            + property_tail(
            Seq::new(
                self.property_columns@.len(),
                |i: int| t + seq!['.'] + self.property_columns@[i]@,
            ),
        )
    }

    fn alias_vec_with(&self, prefix: &str) -> (r: Vec<String>)
        ensures
            r.deep_view() =~= self.alias_vec_spec(prefix@),
    {
        let mut cols: Vec<String> = Vec::new();
        let pf = self.alias_postfix.as_str();
        let mut i: usize = 0;
        while i < self.level_columns.len()
            invariant
                i <= self.level_columns@.len(),
                pf@ == self.alias_postfix@,
                cols.deep_view() =~= Seq::new(
                    i as nat,
                    |k: int| level_alias_item(self.level_columns@[k], self.alias_postfix@, prefix@),
                ),
            decreases self.level_columns@.len() - i,
        {
            let l = &self.level_columns[i];
            let key = cat(prefix, l.key_column.as_str());
            let key_item = aliased_exec(key.as_str(), l.key_column.as_str(), pf);
            let item = match &l.name_column {
                Some(n) => {
                    let name_item = aliased_exec(n.as_str(), n.as_str(), pf);
                    comma_pair(key_item.as_str(), name_item.as_str())
                },
                None => key_item,
            };
            let ghost prev = cols.deep_view();
            proof {
                assert(item@ == level_alias_item(*l, self.alias_postfix@, prefix@));
            }
            cols.push(item);
            proof {
                assert(cols.deep_view() =~= prev.push(
                    level_alias_item(self.level_columns@[i as int], self.alias_postfix@, prefix@),
                ));
            }
            i = i + 1;
        }
        if self.property_columns.len() != 0 {
            let props = comma_join(&self.property_columns);
            let ghost prev = cols.deep_view();
            let ghost pv = props@;
            cols.push(props);
            proof {
                assert(cols.deep_view() =~= prev.push(pv));
            }
        }
        cols
    }

    /// The level columns under their aliases (`key as key_postfix`), then the property
    /// columns, for the dimension subquery.
    pub fn col_alias_string(&self) -> (r: String)
        ensures
            r@ == joined(self.alias_vec_spec(Seq::empty()), sep_comma()),
    {
        proof {
            reveal_strlit("");
            assert(""@ =~= Seq::<char>::empty());
        }
        let cols = self.alias_vec_with("");
        comma_join(&cols)
    }

    /// As `col_alias_string`, with each key column qualified by the table name.
    pub fn col_alias_string2(&self) -> (r: String)
        ensures
            r@ == joined(self.alias_vec_spec(self.table.name@ + seq!['.']), sep_comma()),
    {
        proof {
            reveal_strlit(".");
            assert("."@ =~= seq!['.']);
        }
        let prefix = cat(self.table.name.as_str(), ".");
        let cols = self.alias_vec_with(prefix.as_str());
        comma_join(&cols)
    }

    /// The aliases alone, comma-separated.
    pub fn col_alias_only_string(&self) -> (r: String)
        ensures
            r@ == joined(self.alias_only_spec(), sep_comma()),
    {
        let cols = self.col_alias_only_vec();
        comma_join(&cols)
    }

    /// The aliases of the level columns: for each level its key's, then its name's if
    /// any.
    pub fn level_alias_vec(&self) -> (r: Vec<String>)
        ensures
            r.deep_view() =~= level_aliases(self.level_columns@, self.alias_postfix@),
    {
        let mut cols: Vec<String> = Vec::new();
        let pf = self.alias_postfix.as_str();
        let mut i: usize = 0;
        while i < self.level_columns.len()
            invariant
                i <= self.level_columns@.len(),
                pf@ == self.alias_postfix@,
                cols.deep_view() =~= level_aliases(
                    self.level_columns@.take(i as int),
                    self.alias_postfix@,
                ),
            decreases self.level_columns@.len() - i,
        {
            let l = &self.level_columns[i];
            let ghost prev = cols.deep_view();
            proof {
                assert(self.level_columns@.take(i + 1).drop_last() =~= self.level_columns@.take(
                    i as int,
                ));
                assert(self.level_columns@.take(i + 1).last() == *l);
            }
            let key = postfixed_exec(l.key_column.as_str(), pf);
            let ghost kv = key@;
            cols.push(key);
            match &l.name_column {
                Some(n) => {
                    let name = postfixed_exec(n.as_str(), pf);
                    let ghost nv = name@;
                    cols.push(name);
                    proof {
                        assert(cols.deep_view() =~= prev + seq![kv, nv]);
                    }
                },
                None => {
                    proof {
                        assert(cols.deep_view() =~= prev + seq![kv]);
                    }
                },
            }
            i = i + 1;
        }
        proof {
            assert(self.level_columns@.take(self.level_columns@.len() as int)
                =~= self.level_columns@);
        }
        cols
    }

    /// The aliases alone: for each level its key's, then its name's if any; then the
    /// property columns as one entry.
    pub fn col_alias_only_vec(&self) -> (r: Vec<String>)
        ensures
            r.deep_view() =~= self.alias_only_spec(),
    {
        let mut cols = self.level_alias_vec();
        if self.property_columns.len() != 0 {
            let props = comma_join(&self.property_columns);
            let ghost prev = cols.deep_view();
            let ghost pv = props@;
            cols.push(props);
            proof {
                assert(cols.deep_view() =~= prev.push(pv));
            }
        }
        cols
    }

    /// The level and property columns, each qualified by the table name.
    pub fn col_qual_string(&self) -> (r: String)
        ensures
            r@ == joined(self.qual_vec_spec(), sep_comma()),
    {
        let cols = self.col_qual_vec();
        comma_join(&cols)
    }

    fn col_qual_vec(&self) -> (r: Vec<String>)
        ensures
            r.deep_view() =~= self.qual_vec_spec(),
    {
        let t = self.table.name.as_str();
        let mut cols: Vec<String> = Vec::new();
        let mut i: usize = 0;
        while i < self.level_columns.len()
            invariant
                i <= self.level_columns@.len(),
                t@ == self.table.name@,
                cols.deep_view() =~= Seq::new(
                    i as nat,
                    |k: int| level_qual_item(self.level_columns@[k], self.table.name@),
                ),
            decreases self.level_columns@.len() - i,
        {
            let l = &self.level_columns[i];
            let key = qualified(t, l.key_column.as_str());
            let item = match &l.name_column {
                Some(n) => {
                    let name = qualified(t, n.as_str());
                    comma_pair(key.as_str(), name.as_str())
                },
                None => key,
            };
            let ghost prev = cols.deep_view();
            proof {
                assert(item@ =~= level_qual_item(*l, self.table.name@));
            }
            cols.push(item);
            proof {
                assert(cols.deep_view() =~= prev.push(
                    level_qual_item(self.level_columns@[i as int], self.table.name@),
                ));
            }
            i = i + 1;
        }
        if self.property_columns.len() != 0 {
            let mut quals: Vec<String> = Vec::new();
            let mut j: usize = 0;
            while j < self.property_columns.len()
                invariant
                    j <= self.property_columns@.len(),
                    t@ == self.table.name@,
                    quals.deep_view() =~= Seq::new(
                        j as nat,
                        |k: int| self.table.name@ + seq!['.'] + self.property_columns@[k]@,
                    ),
                decreases self.property_columns@.len() - j,
            {
                let q = qualified(t, self.property_columns[j].as_str());
                let ghost prev = quals.deep_view();
                let ghost qv = q@;
                quals.push(q);
                proof {
                    assert(quals.deep_view() =~= prev.push(qv));
                }
                j = j + 1;
            }
            let props = comma_join(&quals);
            let ghost prev = cols.deep_view();
            let ghost pv = props@;
            cols.push(props);
            proof {
                assert(cols.deep_view() =~= prev.push(pv));
            }
        }
        cols
    }
}

/// A drilldown that the plan joins but does not show.
#[derive(Debug)]
pub struct HiddenDrilldownSql {
    pub drilldown_sql: DrilldownSql,
}


/// A cut bound to the table and column of its level.
#[derive(Debug)]
pub struct CutSql {
    pub table: Table,
    pub primary_key: String,
    pub foreign_key: String,
    pub column: String,
    pub members: Vec<String>,
    pub member_type: MemberType,
    /// Whether the members are kept or dropped.
    pub mask: Mask,
    /// Whether the members are matched as substrings, with `like`.
    pub for_match: bool,
    pub inline_table: Option<InlineTable>,
}

pub open spec fn quoted(m: Seq<char>) -> Seq<char> {
    seq!['\''] + m + seq!['\'']
}

pub open spec fn mask_in_spec(mask: Mask) -> Seq<char> {
    match mask {
        Mask::Include => seq!['i', 'n'],
        Mask::Exclude => seq!['n', 'o', 't', ' ', 'i', 'n'],
    }
}

pub open spec fn mask_like_spec(mask: Mask) -> Seq<char> {
    match mask {
        Mask::Include => seq!['l', 'i', 'k', 'e'],
        Mask::Exclude => seq!['n', 'o', 't', ' ', 'l', 'i', 'k', 'e'],
    }
}

impl CutSql {
    /// The members as an SQL list, quoted where they are text.
    pub open spec fn members_spec(&self) -> Seq<char> {
        match self.member_type {
            MemberType::NonText => joined(self.members.deep_view(), sep_comma()),
            MemberType::Text => joined(
                Seq::new(self.members@.len(), |i: int| quoted(self.members@[i]@)),
                sep_comma(),
            ),
        }
    }

    /// `column like '%m%'` (or `not like`) for one member; unquoted, without
    /// wildcards, where the members are not text.
    pub open spec fn like_item(&self, m: Seq<char>) -> Seq<char> {
        let head = self.column@ + seq![' '] + mask_like_spec(self.mask) + seq![' '];
        match self.member_type {
            MemberType::NonText => head + m,
            MemberType::Text => head + seq!['\'', '%'] + m + seq!['%', '\''],
        }
    }

    /// The `like` tests of all members: any of them for an inclusion, all of them
    /// for an exclusion.
    pub open spec fn members_like_spec(&self) -> Seq<char> {
        let items = Seq::new(self.members@.len(), |i: int| self.like_item(self.members@[i]@));
        match self.mask {
            Mask::Include => seq!['('] + joined(items, seq![' ', 'o', 'r', ' ']) + seq![')'],
            Mask::Exclude => joined(items, seq![' ', 'a', 'n', 'd', ' ']),
        }
    }

    pub fn members_string(&self) -> (r: String)
        ensures
            r@ == self.members_spec(),
    {
        match self.member_type {
            MemberType::NonText => comma_join(&self.members),
            MemberType::Text => {
                let mut quoted_members: Vec<String> = Vec::new();
                let mut i: usize = 0;
                while i < self.members.len()
                    invariant
                        i <= self.members@.len(),
                        quoted_members.deep_view() =~= Seq::new(
                            i as nat,
                            |k: int| quoted(self.members@[k]@),
                        ),
                    decreases self.members@.len() - i,
                {
                    proof {
                        reveal_strlit("'");
                        assert("'"@ =~= seq!['\'']);
                    }
                    let mut q = cat("'", self.members[i].as_str());
                    q.append("'");
                    let ghost prev = quoted_members.deep_view();
                    let ghost qv = q@;
                    quoted_members.push(q);
                    proof {
                        assert(qv =~= quoted(self.members@[i as int]@));
                        assert(quoted_members.deep_view() =~= prev.push(qv));
                    }
                    i = i + 1;
                }
                comma_join(&quoted_members)
            },
        }
    }

    pub fn members_like_string(&self) -> (r: String)
        ensures
            r@ == self.members_like_spec(),
    {
        let like = self.mask_sql_like_string();
        let mut items: Vec<String> = Vec::new();
        let mut i: usize = 0;
        while i < self.members.len()
            invariant
                i <= self.members@.len(),
                like@ == mask_like_spec(self.mask),
                items.deep_view() =~= Seq::new(i as nat, |k: int| self.like_item(self.members@[k]@)),
            decreases self.members@.len() - i,
        {
            proof {
                reveal_strlit(" ");
                reveal_strlit(" '%");
                reveal_strlit("%'");
                assert(" "@ =~= seq![' ']);
                assert(" '%"@ =~= seq![' ', '\'', '%']);
                assert("%'"@ =~= seq!['%', '\'']);
            }
            let m = self.members[i].as_str();
            let mut item = cat(self.column.as_str(), " ");
            item.append(like.as_str());
            match self.member_type {
                MemberType::NonText => {
                    item.append(" ");
                    item.append(m);
                },
                MemberType::Text => {
                    item.append(" '%");
                    item.append(m);
                    item.append("%'");
                },
            }
            let ghost prev = items.deep_view();
            let ghost iv = item@;
            items.push(item);
            proof {
                assert(iv =~= self.like_item(self.members@[i as int]@));
                assert(items.deep_view() =~= prev.push(iv));
            }
            i = i + 1;
        }
        match self.mask {
            Mask::Include => {
                proof {
                    reveal_strlit(" or ");
                    reveal_strlit("(");
                    reveal_strlit(")");
                    assert(" or "@ =~= seq![' ', 'o', 'r', ' ']);
                    assert("("@ =~= seq!['(']);
                    assert(")"@ =~= seq![')']);
                }
                let mut r = owned("(");
                r.append(join_strings(&items, " or ").as_str());
                r.append(")");
                r
            },
            Mask::Exclude => {
                proof {
                    reveal_strlit(" and ");
                    assert(" and "@ =~= seq![' ', 'a', 'n', 'd', ' ']);
                }
                join_strings(&items, " and ")
            },
        }
    }

    /// `table.column`.
    pub fn col_qual_string(&self) -> (r: String)
        ensures
            r@ == self.table.name@ + seq!['.'] + self.column@,
    {
        qualified(self.table.name.as_str(), self.column.as_str())
    }

    /// `in`, or `not in` for an exclusion.
    pub fn mask_sql_in_string(&self) -> (r: String)
        ensures
            r@ == mask_in_spec(self.mask),
    {
        proof {
            reveal_strlit("in");
            reveal_strlit("not in");
            assert("in"@ =~= mask_in_spec(Mask::Include));
            assert("not in"@ =~= mask_in_spec(Mask::Exclude));
        }
        match self.mask {
            Mask::Include => owned("in"),
            Mask::Exclude => owned("not in"),
        }
    }

    /// `like`, or `not like` for an exclusion.
    pub fn mask_sql_like_string(&self) -> (r: String)
        ensures
            r@ == mask_like_spec(self.mask),
    {
        proof {
            reveal_strlit("like");
            reveal_strlit("not like");
            assert("like"@ =~= mask_like_spec(Mask::Include));
            assert("not like"@ =~= mask_like_spec(Mask::Exclude));
        }
        match self.mask {
            Mask::Include => owned("like"),
            Mask::Exclude => owned("not like"),
        }
    }
}

/// A measure bound to its column.
#[derive(Debug)]
pub struct MeasureSql {
    pub aggregator: Aggregator,
    pub column: String,
    /// The name of the measure, which names its column in the result.
    pub name: String,
}

/// The top rows of each group of `by_column`.
#[derive(Debug)]
pub struct TopSql {
    pub n: u64,
    pub by_column: String,
    pub sort_columns: Vec<String>,
    pub sort_direction: SortDirection,
}

/// A constraint applied before the top rows are chosen.
#[derive(Debug)]
pub struct TopWhereSql {
    pub by_column: String,
    pub constraint: Constraint,
}

/// A constraint applied after aggregation, alone or with a second one.
#[derive(Debug)]
pub struct FilterSql {
    pub by_column: String,
    pub constraint: Constraint,
    pub operator: Option<Operator>,
    pub constraint2: Option<Constraint>,
}

#[derive(Debug, Clone, Copy, PartialEq, Eq, Structural)]
pub struct LimitSql {
    pub offset: Option<u64>,
    pub n: u64,
}

impl From<LimitQuery> for LimitSql {
    fn from(l: LimitQuery) -> (r: Self) {
        LimitSql { offset: l.offset, n: l.n }
    }
}

impl vstd::std_specs::convert::FromSpecImpl<LimitQuery> for LimitSql {
    open spec fn obeys_from_spec() -> bool {
        true
    }

    open spec fn from_spec(l: LimitQuery) -> LimitSql {
        LimitSql { offset: l.offset, n: l.n }
    }
}

/// Order the results by one column.
#[derive(Debug)]
pub struct SortSql {
    pub direction: SortDirection,
    pub column: String,
}

#[derive(Debug)]
pub struct RcaSql {
    /// The level columns of the first dimension.
    pub drill_1: Vec<DrilldownSql>,
    /// The level columns of the second dimension.
    pub drill_2: Vec<DrilldownSql>,
    pub mea: MeasureSql,
    pub debug: bool,
}

#[derive(Debug)]
pub struct GrowthSql {
    pub time_drill: DrilldownSql,
    pub mea: String,
}

#[derive(Debug)]
pub struct RateSql {
    pub drilldown_sql: DrilldownSql,
    pub members: Vec<String>,
}

/// The subquery that joins one dimension table to the fact table.
#[derive(Debug)]
pub struct DimSubquery {
    pub sql: String,
    pub foreign_key: String,
    pub dim_cols: Option<String>,
}

/// The table that a drilldown's subquery reads: the inline table's SQL under its
/// alias, or the table's full name.
pub open spec fn drill_table_spec(d: &DrilldownSql) -> Seq<char> {
    match d.inline_table {
        Some(it) => seq!['('] + inline_table_sql(&it) + seq![')'] + kw_as() + it.alias@,
        None => table_full_name(&d.table),
    }
}

pub open spec fn kw_select() -> Seq<char> {
    seq!['s', 'e', 'l', 'e', 'c', 't', ' ']
}

pub open spec fn kw_from() -> Seq<char> {
    seq![' ', 'f', 'r', 'o', 'm', ' ']
}

/// What `dim_subquery` builds.
pub open spec fn dim_subquery_spec(drill: Option<&DrilldownSql>, cut: Option<&CutSql>) -> (
    Seq<char>,
    Seq<char>,
    Option<Seq<char>>,
) {
    match drill {
        Some(d) => (
            kw_select() + joined(d.alias_vec_spec(Seq::empty()), sep_comma()) + sep_comma()
                + d.primary_key@ + kw_as() + d.foreign_key@ + kw_from() + drill_table_spec(d),
            d.foreign_key@,
            Some(joined(d.alias_only_spec(), sep_comma())),
        ),
        None => match cut {
            Some(c) => (
                kw_select() + c.primary_key@ + kw_as() + c.foreign_key@ + kw_from()
                    + table_full_name(&c.table) + seq![' ', 'w', 'h', 'e', 'r', 'e', ' ']
                    + c.column@ + seq![' '] + mask_in_spec(c.mask) + seq![' ', '('] + c.members_spec()
                    + seq![')'],
                c.foreign_key@,
                None,
            ),
            None => (Seq::empty(), Seq::empty(), None),
        },
    }
}

pub open spec fn drill_inline_wf(drill: Option<&DrilldownSql>) -> bool {
    match drill {
        Some(d) => match d.inline_table {
            Some(it) => it.wf(),
            None => true,
        },
        None => true,
    }
}

/// The subquery that joins a drilldown's dimension table (its columns under their
/// aliases, its primary key renamed to the foreign key); without a drilldown, the
/// keys of the members that the cut keeps (`in`) or that pass its exclusion
/// (`not in`).
pub fn dim_subquery(drill: Option<&DrilldownSql>, cut: Option<&CutSql>) -> (r: DimSubquery)
    requires
        drill_inline_wf(drill),
    ensures
        (r.sql@, r.foreign_key@, match r.dim_cols {
            Some(c) => Some(c@),
            None => None,
        }) == dim_subquery_spec(drill, cut),
{
    proof {
        reveal_strlit("select ");
        reveal_strlit(" as ");
        reveal_strlit(" from ");
        reveal_strlit(", ");
        reveal_strlit("(");
        reveal_strlit(")");
        reveal_strlit(") as ");
        reveal_strlit(" where ");
        reveal_strlit(" (");
        reveal_strlit(" ");
        reveal_strlit("");
        assert("select "@ =~= kw_select());
        assert(" as "@ =~= kw_as());
        assert(" from "@ =~= kw_from());
        assert(", "@ =~= sep_comma());
        assert("("@ =~= seq!['(']);
        assert(")"@ =~= seq![')']);
        assert(") as "@ =~= seq![')'] + kw_as());
        assert(" where "@ =~= seq![' ', 'w', 'h', 'e', 'r', 'e', ' ']);
        assert(" ("@ =~= seq![' ', '(']);
        assert(" "@ =~= seq![' ']);
        assert(""@ =~= Seq::<char>::empty());
    }
    match drill {
        Some(drill) => {
            let drill_table = match &drill.inline_table {
                Some(it) => {
                    let mut t = owned("(");
                    t.append(it.sql_string().as_str());
                    t.append(") as ");
                    t.append(it.alias.as_str());
                    proof {
                        assert(t@ =~= drill_table_spec(drill));
                    }
                    t
                },
                None => drill.table.full_name(),
            };
            let mut sql = owned("select ");
            sql.append(drill.col_alias_string().as_str());
            sql.append(", ");
            sql.append(drill.primary_key.as_str());
            sql.append(" as ");
            sql.append(drill.foreign_key.as_str());
            sql.append(" from ");
            sql.append(drill_table.as_str());
            let dim_cols = drill.col_alias_only_string();
            proof {
                assert(sql@ =~= dim_subquery_spec(Some(drill), cut).0);
            }
            DimSubquery { sql, foreign_key: drill.foreign_key.clone(), dim_cols: Some(dim_cols) }
        },
        None => {
            match cut {
                Some(cut) => {
                    let mut sql = owned("select ");
                    sql.append(cut.primary_key.as_str());
                    sql.append(" as ");
                    sql.append(cut.foreign_key.as_str());
                    sql.append(" from ");
                    sql.append(cut.table.full_name().as_str());
                    sql.append(" where ");
                    sql.append(cut.column.as_str());
                    sql.append(" ");
                    sql.append(cut.mask_sql_in_string().as_str());
                    sql.append(" (");
                    sql.append(cut.members_string().as_str());
                    sql.append(")");
                    proof {
                        assert(sql@ =~= dim_subquery_spec(None, Some(cut)).0);
                    }
                    DimSubquery { sql, foreign_key: cut.foreign_key.clone(), dim_cols: None }
                },
                None => DimSubquery { sql: owned(""), foreign_key: owned(""), dim_cols: None },
            }
        },
    }
}

} // verus!
