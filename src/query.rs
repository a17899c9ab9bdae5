//! The typed analytic request and the parsers of its scalar parameters.

use vstd::prelude::*;
use crate::error::{ParseError, TokenKind, ValidationError};
use crate::names::{
    lemma_joined_no_char, lemma_level_name_round_trip, level_name_from_parts, level_name_of_parts,
    parse_level_name_spec, parse_measure_spec, segment_ok, Cut, Drilldown, LevelName,
    LevelNameView, Measure, Property,
};
use crate::text::{
    decimal, i64_decimal, is_digit, joined, lemma_decimal, lemma_parse_i64_decimal,
    lemma_parse_u64_decimal, lemma_split_after_sep, lemma_split_joined, lemma_split_no_sep, owned,
    parse_i64, parse_i64_spec, parse_u64, parse_u64_spec, signed_decimal, split_on, split_str,
};

verus! {

/// The built-in calculations that `top`, `top_where` and `filter` can name.
#[derive(Debug, Clone, Copy, PartialEq, Eq, Structural)]
pub enum Calculation {
    Rca,
    Growth,
}

/// The calculation that an already lower-cased token names.
pub open spec fn calculation_of(t: Seq<char>) -> Option<Calculation> {
    if t == seq!['r', 'c', 'a'] {
        Some(Calculation::Rca)
    } else if t == seq!['g', 'r', 'o', 'w', 't', 'h'] {
        Some(Calculation::Growth)
    } else {
        None
    }
}

/// What `str::to_lowercase` returns for `s`.
pub uninterp spec fn lower_of(s: Seq<char>) -> Seq<char>;

/// Relies on str::to_lowercase: the Unicode lower-case form of the characters of `s`,
/// which depends on those characters alone.
#[verifier::external_body]
fn lowercase(s: &str) -> (r: String)
    ensures
        r@ == lower_of(s@),
{
    s.to_lowercase()
}

impl Calculation {
    /// The column that the calculation produces.
    pub fn sql_string(&self) -> (r: String)
        ensures
            r@ == match self {
                Calculation::Rca => seq!['r', 'c', 'a'],
                Calculation::Growth => seq!['g', 'r', 'o', 'w', 't', 'h'],
            },
    {
        match self {
            Calculation::Rca => {
                proof {
                    reveal_strlit("rca");
                }
                owned("rca")
            },
            Calculation::Growth => {
                proof {
                    reveal_strlit("growth");
                }
                owned("growth")
            },
        }
    }

    /// The calculation that a lower-cased token names.
    pub fn from_folded(t: &str) -> (r: Option<Calculation>)
        ensures
            r == calculation_of(t@),
    {
        proof {
            reveal_strlit("rca");
            reveal_strlit("growth");
            assert("rca"@ =~= seq!['r', 'c', 'a']);
            assert("growth"@ =~= seq!['g', 'r', 'o', 'w', 't', 'h']);
        }
        let t = owned(t);
        if t == owned("rca") {
            Some(Calculation::Rca)
        } else if t == owned("growth") {
            Some(Calculation::Growth)
        } else {
            None
        }
    }

    /// Reads `rca` or `growth`, in any case.
    pub fn parse(s: &str) -> (r: Result<Calculation, ParseError>)
        ensures
            match r {
                Ok(c) => calculation_of(lower_of(s@)) == Some(c),
                Err(e) => calculation_of(lower_of(s@)) is None && e.kind == TokenKind::Calculation
                    && e.token@ == s@,
            },
    {
        let folded = lowercase(s);
        match Calculation::from_folded(folded.as_str()) {
            Some(c) => Ok(c),
            None => Err(ParseError::new(TokenKind::Calculation, s)),
        }
    }
}

pub enum MeaOrCalcView {
    Mea(Seq<char>),
    Calc(Calculation),
}

/// A measure, or a built-in calculation; the calculations' names are reserved.
#[derive(Debug)]
pub enum MeaOrCalc {
    Mea(Measure),
    Calc(Calculation),
}

impl View for MeaOrCalc {
    type V = MeaOrCalcView;

    open spec fn view(&self) -> MeaOrCalcView {
        match self {
            MeaOrCalc::Mea(m) => MeaOrCalcView::Mea(m@),
            MeaOrCalc::Calc(c) => MeaOrCalcView::Calc(*c),
        }
    }
}

impl Clone for MeaOrCalc {
    fn clone(&self) -> (r: Self)
        ensures
            r == *self,
    {
        match self {
            MeaOrCalc::Mea(m) => MeaOrCalc::Mea(m.clone()),
            MeaOrCalc::Calc(c) => MeaOrCalc::Calc(*c),
        }
    }
}

/// A calculation where the lower-cased token `folded` names one, else the measure `s`.
pub open spec fn mea_or_calc_of(s: Seq<char>, folded: Seq<char>) -> Option<MeaOrCalcView> {
    match calculation_of(folded) {
        Some(c) => Some(MeaOrCalcView::Calc(c)),
        None => match parse_measure_spec(s) {
            Some(m) => Some(MeaOrCalcView::Mea(m)),
            None => None,
        },
    }
}

pub open spec fn parse_mea_or_calc_spec(s: Seq<char>) -> Option<MeaOrCalcView> {
    mea_or_calc_of(s, lower_of(s))
}

impl MeaOrCalc {
    /// Reads the token `s` whose lower-case form is `folded`: a calculation where
    /// `folded` names one, else the measure `s`.
    pub fn from_folded(s: &str, folded: &str) -> (r: Result<MeaOrCalc, ParseError>)
        ensures
            match r {
                Ok(v) => mea_or_calc_of(s@, folded@) == Some(v@),
                Err(e) => mea_or_calc_of(s@, folded@) is None && e.kind == TokenKind::MeaOrCalc
                    && e.token@ == s@,
            },
    {
        match Calculation::from_folded(folded) {
            Some(c) => Ok(MeaOrCalc::Calc(c)),
            None => match Measure::parse(s) {
                Ok(m) => Ok(MeaOrCalc::Mea(m)),
                Err(_) => Err(ParseError::new(TokenKind::MeaOrCalc, s)),
            },
        }
    }

    /// Reads a calculation name, in any case, or else a measure name.
    pub fn parse(s: &str) -> (r: Result<MeaOrCalc, ParseError>)
        ensures
            match r {
                Ok(v) => parse_mea_or_calc_spec(s@) == Some(v@),
                Err(e) => parse_mea_or_calc_spec(s@) is None && e.kind == TokenKind::MeaOrCalc
                    && e.token@ == s@,
            },
    {
        let folded = lowercase(s);
        MeaOrCalc::from_folded(s, folded.as_str())
    }

    /// The post-aggregation column that this names: the calculation's column, or the
    /// measure's name.
    pub fn sql_string(&self) -> (r: String)
        ensures
            r@ == match self@ {
                MeaOrCalcView::Mea(m) => m,
                MeaOrCalcView::Calc(Calculation::Rca) => seq!['r', 'c', 'a'],
                MeaOrCalcView::Calc(Calculation::Growth) => seq!['g', 'r', 'o', 'w', 't', 'h'],
            },
    {
        match self {
            MeaOrCalc::Mea(m) => m.0.clone(),
            MeaOrCalc::Calc(c) => c.sql_string(),
        }
    }
}

/// Direction of a sort.
#[derive(Debug, Clone, Copy, PartialEq, Eq, Structural)]
pub enum SortDirection {
    Asc,
    Desc,
}

pub open spec fn sort_direction_token(d: SortDirection) -> Seq<char> {
    match d {
        SortDirection::Asc => seq!['a', 's', 'c'],
        SortDirection::Desc => seq!['d', 'e', 's', 'c'],
    }
}

pub open spec fn parse_sort_direction_spec(s: Seq<char>) -> Option<SortDirection> {
    if s == sort_direction_token(SortDirection::Asc) {
        Some(SortDirection::Asc)
    } else if s == sort_direction_token(SortDirection::Desc) {
        Some(SortDirection::Desc)
    } else {
        None
    }
}

impl SortDirection {
    /// `asc` or `desc`, as SQL writes it.
    pub fn sql_string(&self) -> (r: String)
        ensures
            r@ == sort_direction_token(*self),
    {
        proof {
            reveal_strlit("asc");
            reveal_strlit("desc");
        }
        match *self {
            SortDirection::Asc => owned("asc"),
            SortDirection::Desc => owned("desc"),
        }
    }

    /// Reads `asc` or `desc`; the tokens are case-sensitive.
    pub fn parse(s: &str) -> (r: Result<SortDirection, ParseError>)
        ensures
            match r {
                Ok(d) => parse_sort_direction_spec(s@) == Some(d),
                Err(e) => parse_sort_direction_spec(s@) is None && e.kind == TokenKind::SortDirection
                    && e.token@ == s@,
            },
    {
        proof {
            reveal_strlit("asc");
            reveal_strlit("desc");
            assert("asc"@ =~= seq!['a', 's', 'c']);
            assert("desc"@ =~= seq!['d', 'e', 's', 'c']);
        }
        let t = owned(s);
        if t == owned("asc") {
            Ok(SortDirection::Asc)
        } else if t == owned("desc") {
            Ok(SortDirection::Desc)
        } else {
            Err(ParseError::new(TokenKind::SortDirection, s))
        }
    }
}

/// A comparison operator.
#[derive(Debug, Clone, Copy, PartialEq, Eq, Structural)]
pub enum Comparison {
    Equal,
    NotEqual,
    LessThan,
    LessThanOrEqual,
    GreaterThan,
    GreaterThanOrEqual,
}

pub open spec fn comparison_token(c: Comparison) -> Seq<char> {
    match c {
        Comparison::Equal => seq!['e', 'q'],
        Comparison::NotEqual => seq!['n', 'e', 'q'],
        Comparison::LessThan => seq!['l', 't'],
        Comparison::LessThanOrEqual => seq!['l', 't', 'e'],
        Comparison::GreaterThan => seq!['g', 't'],
        Comparison::GreaterThanOrEqual => seq!['g', 't', 'e'],
    }
}

pub open spec fn comparison_sql(c: Comparison) -> Seq<char> {
    match c {
        Comparison::Equal => seq!['='],
        Comparison::NotEqual => seq!['<', '>'],
        Comparison::LessThan => seq!['<'],
        Comparison::LessThanOrEqual => seq!['<', '='],
        Comparison::GreaterThan => seq!['>'],
        Comparison::GreaterThanOrEqual => seq!['>', '='],
    }
}

pub open spec fn parse_comparison_spec(s: Seq<char>) -> Option<Comparison> {
    if s == comparison_token(Comparison::Equal) {
        Some(Comparison::Equal)
    } else if s == comparison_token(Comparison::NotEqual) {
        Some(Comparison::NotEqual)
    } else if s == comparison_token(Comparison::LessThan) {
        Some(Comparison::LessThan)
    } else if s == comparison_token(Comparison::LessThanOrEqual) {
        Some(Comparison::LessThanOrEqual)
    } else if s == comparison_token(Comparison::GreaterThan) {
        Some(Comparison::GreaterThan)
    } else if s == comparison_token(Comparison::GreaterThanOrEqual) {
        Some(Comparison::GreaterThanOrEqual)
    } else {
        None
    }
}

impl Comparison {
    /// The SQL operator: `=`, `<>`, `<`, `<=`, `>` or `>=`.
    pub fn sql_string(&self) -> (r: String)
        ensures
            r@ == comparison_sql(*self),
    {
        proof {
            reveal_strlit("=");
            reveal_strlit("<>");
            reveal_strlit("<");
            reveal_strlit("<=");
            reveal_strlit(">");
            reveal_strlit(">=");
        }
        match self {
            Comparison::Equal => owned("="),
            Comparison::NotEqual => owned("<>"),
            Comparison::LessThan => owned("<"),
            Comparison::LessThanOrEqual => owned("<="),
            Comparison::GreaterThan => owned(">"),
            Comparison::GreaterThanOrEqual => owned(">="),
        }
    }

    /// Reads `eq`, `neq`, `lt`, `lte`, `gt` or `gte`.
    pub fn parse(s: &str) -> (r: Result<Comparison, ParseError>)
        ensures
            match r {
                Ok(c) => parse_comparison_spec(s@) == Some(c),
                Err(e) => parse_comparison_spec(s@) is None && e.kind == TokenKind::Comparison
                    && e.token@ == s@,
            },
    {
        proof {
            reveal_strlit("eq");
            reveal_strlit("neq");
            reveal_strlit("lt");
            reveal_strlit("lte");
            reveal_strlit("gt");
            reveal_strlit("gte");
            assert("eq"@ =~= seq!['e', 'q']);
            assert("neq"@ =~= seq!['n', 'e', 'q']);
            assert("lt"@ =~= seq!['l', 't']);
            assert("lte"@ =~= seq!['l', 't', 'e']);
            assert("gt"@ =~= seq!['g', 't']);
            assert("gte"@ =~= seq!['g', 't', 'e']);
        }
        let t = owned(s);
        if t == owned("eq") {
            Ok(Comparison::Equal)
        } else if t == owned("neq") {
            Ok(Comparison::NotEqual)
        } else if t == owned("lt") {
            Ok(Comparison::LessThan)
        } else if t == owned("lte") {
            Ok(Comparison::LessThanOrEqual)
        } else if t == owned("gt") {
            Ok(Comparison::GreaterThan)
        } else if t == owned("gte") {
            Ok(Comparison::GreaterThanOrEqual)
        } else {
            Err(ParseError::new(TokenKind::Comparison, s))
        }
    }
}

/// The column name of each calculation, once lower-cased, reads back as that
/// calculation.
pub proof fn lemma_calculation_round_trip(c: Calculation)
    ensures
        calculation_of(calculation_token(c)) == Some(c),
{
    assert(seq!['r', 'c', 'a'].len() != seq!['g', 'r', 'o', 'w', 't', 'h'].len());
}

/// `rca` or `growth`.
pub open spec fn calculation_token(c: Calculation) -> Seq<char> {
    match c {
        Calculation::Rca => seq!['r', 'c', 'a'],
        Calculation::Growth => seq!['g', 'r', 'o', 'w', 't', 'h'],
    }
}

/// Every comparison token reads back as its comparison.
pub proof fn lemma_comparison_round_trip(c: Comparison)
    ensures
        parse_comparison_spec(comparison_token(c)) == Some(c),
{
    assert(comparison_token(Comparison::Equal).len() == 2);
    assert(comparison_token(Comparison::Equal)[0] == 'e');
    assert(comparison_token(Comparison::NotEqual).len() == 3);
    assert(comparison_token(Comparison::NotEqual)[0] == 'n');
    assert(comparison_token(Comparison::LessThan).len() == 2);
    assert(comparison_token(Comparison::LessThan)[0] == 'l');
    assert(comparison_token(Comparison::LessThanOrEqual).len() == 3);
    assert(comparison_token(Comparison::LessThanOrEqual)[0] == 'l');
    assert(comparison_token(Comparison::GreaterThan).len() == 2);
    assert(comparison_token(Comparison::GreaterThan)[0] == 'g');
    assert(comparison_token(Comparison::GreaterThanOrEqual).len() == 3);
    assert(comparison_token(Comparison::GreaterThanOrEqual)[0] == 'g');
    match c {
        Comparison::Equal => {
        },
        Comparison::NotEqual => {
            assert(comparison_token(Comparison::NotEqual) != comparison_token(Comparison::Equal));
        },
        Comparison::LessThan => {
            assert(comparison_token(Comparison::LessThan) != comparison_token(Comparison::Equal));
            assert(comparison_token(Comparison::LessThan) != comparison_token(Comparison::NotEqual));
        },
        Comparison::LessThanOrEqual => {
            assert(comparison_token(Comparison::LessThanOrEqual) != comparison_token(Comparison::Equal));
            assert(comparison_token(Comparison::LessThanOrEqual) != comparison_token(Comparison::NotEqual));
            assert(comparison_token(Comparison::LessThanOrEqual) != comparison_token(Comparison::LessThan));
        },
        Comparison::GreaterThan => {
            assert(comparison_token(Comparison::GreaterThan) != comparison_token(Comparison::Equal));
            assert(comparison_token(Comparison::GreaterThan) != comparison_token(Comparison::NotEqual));
            assert(comparison_token(Comparison::GreaterThan) != comparison_token(Comparison::LessThan));
            assert(comparison_token(Comparison::GreaterThan) != comparison_token(Comparison::LessThanOrEqual));
        },
        Comparison::GreaterThanOrEqual => {
            assert(comparison_token(Comparison::GreaterThanOrEqual) != comparison_token(Comparison::Equal));
            assert(comparison_token(Comparison::GreaterThanOrEqual) != comparison_token(Comparison::NotEqual));
            assert(comparison_token(Comparison::GreaterThanOrEqual) != comparison_token(Comparison::LessThan));
            assert(comparison_token(Comparison::GreaterThanOrEqual) != comparison_token(Comparison::LessThanOrEqual));
            assert(comparison_token(Comparison::GreaterThanOrEqual) != comparison_token(Comparison::GreaterThan));
        },
    }
}

/// Every direction token reads back as its direction.
pub proof fn lemma_sort_direction_round_trip(d: SortDirection)
    ensures
        parse_sort_direction_spec(sort_direction_token(d)) == Some(d),
{
    assert(seq!['a', 's', 'c'][0] == 'a');
    assert(seq!['d', 'e', 's', 'c'][0] == 'd');
}


/// A bound on a measure or calculation: `<comparison> n`.
#[derive(Debug, Clone, Copy, PartialEq, Eq, Structural)]
pub struct Constraint {
    pub comparison: Comparison,
    pub n: i64,
}

pub open spec fn parse_constraint_spec(s: Seq<char>) -> Option<Constraint> {
    let p = split_on(s, '.');
    if p.len() == 2 {
        match (parse_comparison_spec(p[0]), parse_i64_spec(p[1])) {
            (Some(comparison), Some(n)) => Some(Constraint { comparison, n }),
            _ => None,
        }
    } else {
        None
    }
}

/// The canonical token of a constraint, such as `gt.100`.
pub open spec fn constraint_token(c: Constraint) -> Seq<char> {
    comparison_token(c.comparison) + seq!['.'] + signed_decimal(c.n as int)
}

/// The SQL form of a constraint, such as `> 100`.
pub open spec fn constraint_sql(c: Constraint) -> Seq<char> {
    comparison_sql(c.comparison) + seq![' '] + signed_decimal(c.n as int)
}

impl Constraint {
    pub fn sql_string(&self) -> (r: String)
        ensures
            r@ == constraint_sql(*self),
    {
        let mut r = self.comparison.sql_string();
        proof {
            reveal_strlit(" ");
            assert(" "@ =~= seq![' ']);
        }
        r.append(" ");
        r.append(i64_decimal(self.n).as_str());
        r
    }

    /// Reads `<comparison>.<integer>`, such as `gt.100`.
    pub fn parse(s: &str) -> (r: Result<Constraint, ParseError>)
        ensures
            match r {
                Ok(c) => parse_constraint_spec(s@) == Some(c),
                Err(e) => parse_constraint_spec(s@) is None && e.kind == TokenKind::Constraint
                    && e.token@ == s@,
            },
    {
        let parts = split_str(s, '.');
        if parts.len() != 2 {
            return Err(ParseError::new(TokenKind::Constraint, s));
        }
        proof {
            assert(parts.deep_view()[0] == parts[0]@);
            assert(parts.deep_view()[1] == parts[1]@);
        }
        match (Comparison::parse(parts[0].as_str()), parse_i64(parts[1].as_str())) {
            (Ok(comparison), Some(n)) => Ok(Constraint { comparison, n }),
            _ => Err(ParseError::new(TokenKind::Constraint, s)),
        }
    }
}

/// The canonical token of a constraint reads back as that constraint.
pub proof fn lemma_constraint_round_trip(c: Constraint)
    ensures
        parse_constraint_spec(constraint_token(c)) == Some(c),
{
    let t = comparison_token(c.comparison);
    let d = signed_decimal(c.n as int);
    lemma_comparison_round_trip(c.comparison);
    lemma_parse_i64_decimal(c.n);
    assert(!t.contains('.'));
    assert(!d.contains('.')) by {
        if c.n < 0 {
            lemma_decimal((-c.n) as nat);
        } else {
            lemma_decimal(c.n as nat);
        }
        if d.contains('.') {
            let k = choose|k: int| 0 <= k < d.len() && d[k] == '.';
            if c.n < 0 {
                assert(k > 0);
                assert(is_digit(decimal((-c.n) as nat)[k - 1]));
            } else {
                assert(is_digit(decimal(c.n as nat)[k]));
            }
        }
    }
    lemma_split_no_sep(t, '.');
    lemma_split_after_sep(t, d, '.');
    assert(split_on(constraint_token(c), '.') =~= seq![t, d]);
}

/// How two constraints of a filter combine.
#[derive(Debug, Clone, Copy, PartialEq, Eq, Structural)]
pub enum Operator {
    And,
    Or,
}

impl Operator {
    pub fn sql_string(&self) -> (r: String)
        ensures
            r@ == match self {
                Operator::And => seq!['a', 'n', 'd'],
                Operator::Or => seq!['o', 'r'],
            },
    {
        proof {
            reveal_strlit("and");
            reveal_strlit("or");
            assert("and"@ =~= seq!['a', 'n', 'd']);
            assert("or"@ =~= seq!['o', 'r']);
        }
        match self {
            Operator::And => owned("and"),
            Operator::Or => owned("or"),
        }
    }
}

pub struct TopQueryView {
    pub n: u64,
    pub by_dimension: LevelNameView,
    pub sort_mea_or_calc: Seq<MeaOrCalcView>,
    pub sort_direction: SortDirection,
}

pub open spec fn parse_top_spec(s: Seq<char>) -> Option<TopQueryView> {
    let p = split_on(s, ',');
    if p.len() == 4 {
        match (
            parse_u64_spec(p[0]),
            parse_level_name_spec(p[1]),
            parse_mea_or_calc_spec(p[2]),
            parse_sort_direction_spec(p[3]),
        ) {
            (Some(n), Some(by_dimension), Some(m), Some(sort_direction)) => Some(
                TopQueryView { n, by_dimension, sort_mea_or_calc: seq![m], sort_direction },
            ),
            _ => None,
        }
    } else {
        None
    }
}

pub open spec fn mea_or_calc_views(v: Seq<MeaOrCalc>) -> Seq<MeaOrCalcView> {
    v.map_values(|m: MeaOrCalc| m@)
}

/// The `n` best rows of each group of `by_dimension`, ranked by `sort_mea_or_calc`.
#[derive(Debug)]
pub struct TopQuery {
    pub n: u64,
    pub by_dimension: LevelName,
    pub sort_mea_or_calc: Vec<MeaOrCalc>,
    pub sort_direction: SortDirection,
}

impl View for TopQuery {
    type V = TopQueryView;

    open spec fn view(&self) -> TopQueryView {
        TopQueryView {
            n: self.n,
            by_dimension: self.by_dimension@,
            sort_mea_or_calc: mea_or_calc_views(self.sort_mea_or_calc@),
            sort_direction: self.sort_direction,
        }
    }
}

impl TopQuery {
    pub fn new(
        n: u64,
        by_dimension: LevelName,
        sort_mea_or_calc: Vec<MeaOrCalc>,
        sort_direction: SortDirection,
    ) -> (r: Self)
        ensures
            r.n == n,
            r.by_dimension == by_dimension,
            r.sort_mea_or_calc == sort_mea_or_calc,
            r.sort_direction == sort_direction,
    {
        TopQuery { n, by_dimension, sort_mea_or_calc, sort_direction }
    }

    /// Reads `n,LevelName,measure-or-calculation,direction`.
    pub fn parse(s: &str) -> (r: Result<TopQuery, ParseError>)
        ensures
            match r {
                Ok(t) => parse_top_spec(s@) == Some(t@),
                Err(e) => parse_top_spec(s@) is None && e.kind == TokenKind::TopQuery && e.token@
                    == s@,
            },
    {
        let parts = split_str(s, ',');
        if parts.len() != 4 {
            return Err(ParseError::new(TokenKind::TopQuery, s));
        }
        proof {
            assert(parts.deep_view()[0] == parts[0]@);
            assert(parts.deep_view()[1] == parts[1]@);
            assert(parts.deep_view()[2] == parts[2]@);
            assert(parts.deep_view()[3] == parts[3]@);
        }
        match (
            parse_u64(parts[0].as_str()),
            LevelName::parse(parts[1].as_str()),
            MeaOrCalc::parse(parts[2].as_str()),
            SortDirection::parse(parts[3].as_str()),
        ) {
            (Some(n), Ok(by_dimension), Ok(m), Ok(sort_direction)) => {
                let sort_mea_or_calc = vec![m];
                proof {
                    assert(mea_or_calc_views(sort_mea_or_calc@) =~= seq![m@]);
                }
                Ok(TopQuery { n, by_dimension, sort_mea_or_calc, sort_direction })
            },
            _ => Err(ParseError::new(TokenKind::TopQuery, s)),
        }
    }
}

/// A measure or calculation held to a constraint.
pub struct ConditionView {
    pub by_mea_or_calc: MeaOrCalcView,
    pub constraint: Constraint,
}

pub open spec fn parse_condition_spec(s: Seq<char>) -> Option<ConditionView> {
    let p = split_on(s, ',');
    if p.len() == 2 {
        match (parse_mea_or_calc_spec(p[0]), parse_constraint_spec(p[1])) {
            (Some(by_mea_or_calc), Some(constraint)) => Some(
                ConditionView { by_mea_or_calc, constraint },
            ),
            _ => None,
        }
    } else {
        None
    }
}

/// Reads `measure-or-calculation,constraint`.
fn parse_condition(s: &str) -> (r: Option<(MeaOrCalc, Constraint)>)
    ensures
        match r {
            Some((m, c)) => parse_condition_spec(s@) == Some(
                ConditionView { by_mea_or_calc: m@, constraint: c },
            ),
            None => parse_condition_spec(s@) is None,
        },
{
    let parts = split_str(s, ',');
    if parts.len() != 2 {
        return None;
    }
    proof {
        assert(parts.deep_view()[0] == parts[0]@);
        assert(parts.deep_view()[1] == parts[1]@);
    }
    match (MeaOrCalc::parse(parts[0].as_str()), Constraint::parse(parts[1].as_str())) {
        (Ok(m), Ok(c)) => Some((m, c)),
        _ => None,
    }
}

/// A constraint on a measure or calculation, applied before the top rows are chosen.
#[derive(Debug)]
pub struct TopWhereQuery {
    pub by_mea_or_calc: MeaOrCalc,
    pub constraint: Constraint,
}

impl View for TopWhereQuery {
    type V = ConditionView;

    open spec fn view(&self) -> ConditionView {
        ConditionView { by_mea_or_calc: self.by_mea_or_calc@, constraint: self.constraint }
    }
}

impl TopWhereQuery {
    /// Reads `measure-or-calculation,constraint`.
    pub fn parse(s: &str) -> (r: Result<TopWhereQuery, ParseError>)
        ensures
            match r {
                Ok(t) => parse_condition_spec(s@) == Some(t@),
                Err(e) => parse_condition_spec(s@) is None && e.kind == TokenKind::TopWhereQuery
                    && e.token@ == s@,
            },
    {
        match parse_condition(s) {
            Some((by_mea_or_calc, constraint)) => Ok(TopWhereQuery { by_mea_or_calc, constraint }),
            None => Err(ParseError::new(TokenKind::TopWhereQuery, s)),
        }
    }
}

/// A constraint on a measure or calculation, applied after the final aggregation.
#[derive(Debug)]
pub struct FilterQuery {
    pub by_mea_or_calc: MeaOrCalc,
    pub constraint: Constraint,
}

impl View for FilterQuery {
    type V = ConditionView;

    open spec fn view(&self) -> ConditionView {
        ConditionView { by_mea_or_calc: self.by_mea_or_calc@, constraint: self.constraint }
    }
}

impl FilterQuery {
    /// Reads `measure-or-calculation,constraint`.
    pub fn parse(s: &str) -> (r: Result<FilterQuery, ParseError>)
        ensures
            match r {
                Ok(t) => parse_condition_spec(s@) == Some(t@),
                Err(e) => parse_condition_spec(s@) is None && e.kind == TokenKind::FilterQuery
                    && e.token@ == s@,
            },
    {
        match parse_condition(s) {
            Some((by_mea_or_calc, constraint)) => Ok(FilterQuery { by_mea_or_calc, constraint }),
            None => Err(ParseError::new(TokenKind::FilterQuery, s)),
        }
    }
}

/// At most `n` rows, after skipping `offset` of them.
#[derive(Debug, Clone, Copy, PartialEq, Eq, Structural)]
pub struct LimitQuery {
    pub offset: Option<u64>,
    pub n: u64,
}

pub open spec fn parse_limit_spec(s: Seq<char>) -> Option<LimitQuery> {
    let p = split_on(s, ',');
    if p.len() == 2 {
        match (parse_u64_spec(p[0]), parse_u64_spec(p[1])) {
            (Some(offset), Some(n)) => Some(LimitQuery { offset: Some(offset), n }),
            _ => None,
        }
    } else if p.len() == 1 {
        match parse_u64_spec(p[0]) {
            Some(n) => Some(LimitQuery { offset: None, n }),
            None => None,
        }
    } else {
        None
    }
}

impl LimitQuery {
    /// Reads `n` or `offset,n`.
    pub fn parse(s: &str) -> (r: Result<LimitQuery, ParseError>)
        ensures
            match r {
                Ok(l) => parse_limit_spec(s@) == Some(l),
                Err(e) => parse_limit_spec(s@) is None && e.kind == TokenKind::LimitQuery && e.token@
                    == s@,
            },
    {
        let parts = split_str(s, ',');
        proof {
            if parts.len() >= 1 {
                assert(parts.deep_view()[0] == parts[0]@);
            }
            if parts.len() >= 2 {
                assert(parts.deep_view()[1] == parts[1]@);
            }
        }
        if parts.len() == 2 {
            match (parse_u64(parts[0].as_str()), parse_u64(parts[1].as_str())) {
                (Some(offset), Some(n)) => Ok(LimitQuery { offset: Some(offset), n }),
                _ => Err(ParseError::new(TokenKind::LimitQuery, s)),
            }
        } else if parts.len() == 1 {
            match parse_u64(parts[0].as_str()) {
                Some(n) => Ok(LimitQuery { offset: None, n }),
                None => Err(ParseError::new(TokenKind::LimitQuery, s)),
            }
        } else {
            Err(ParseError::new(TokenKind::LimitQuery, s))
        }
    }
}

pub struct SortQueryView {
    pub direction: SortDirection,
    pub measure: Seq<char>,
}

pub open spec fn parse_sort_spec(s: Seq<char>) -> Option<SortQueryView> {
    let p = split_on(s, '.');
    if p.len() == 2 {
        match (parse_measure_spec(p[0]), parse_sort_direction_spec(p[1])) {
            (Some(measure), Some(direction)) => Some(SortQueryView { direction, measure }),
            _ => None,
        }
    } else {
        None
    }
}

/// Order the results by one measure.
#[derive(Debug)]
pub struct SortQuery {
    pub direction: SortDirection,
    pub measure: Measure,
}

impl View for SortQuery {
    type V = SortQueryView;

    open spec fn view(&self) -> SortQueryView {
        SortQueryView { direction: self.direction, measure: self.measure@ }
    }
}

impl SortQuery {
    /// Reads `measure.direction`.
    pub fn parse(s: &str) -> (r: Result<SortQuery, ParseError>)
        ensures
            match r {
                Ok(q) => parse_sort_spec(s@) == Some(q@),
                Err(e) => parse_sort_spec(s@) is None && e.kind == TokenKind::SortQuery && e.token@
                    == s@,
            },
    {
        let parts = split_str(s, '.');
        if parts.len() != 2 {
            return Err(ParseError::new(TokenKind::SortQuery, s));
        }
        proof {
            assert(parts.deep_view()[0] == parts[0]@);
            assert(parts.deep_view()[1] == parts[1]@);
        }
        match (Measure::parse(parts[0].as_str()), SortDirection::parse(parts[1].as_str())) {
            (Ok(measure), Ok(direction)) => Ok(SortQuery { direction, measure }),
            _ => Err(ParseError::new(TokenKind::SortQuery, s)),
        }
    }
}


pub struct RcaQueryView {
    pub drill_1: LevelNameView,
    pub drill_2: LevelNameView,
    pub mea: Seq<char>,
}

pub open spec fn parse_rca_spec(s: Seq<char>) -> Option<RcaQueryView> {
    let p = split_on(s, ',');
    if p.len() == 3 {
        match (parse_level_name_spec(p[0]), parse_level_name_spec(p[1]), parse_measure_spec(p[2])) {
            (Some(drill_1), Some(drill_2), Some(mea)) => Some(RcaQueryView { drill_1, drill_2, mea }),
            _ => None,
        }
    } else {
        None
    }
}

/// Revealed comparative advantage of the members of `drill_1` across `drill_2`, on `mea`.
#[derive(Debug)]
pub struct RcaQuery {
    pub drill_1: Drilldown,
    pub drill_2: Drilldown,
    pub mea: Measure,
}

impl View for RcaQuery {
    type V = RcaQueryView;

    open spec fn view(&self) -> RcaQueryView {
        RcaQueryView { drill_1: self.drill_1@, drill_2: self.drill_2@, mea: self.mea@ }
    }
}

impl Clone for RcaQuery {
    fn clone(&self) -> (r: Self)
        ensures
            r == *self,
    {
        RcaQuery { drill_1: self.drill_1.clone(), drill_2: self.drill_2.clone(), mea: self.mea.clone() }
    }
}

impl RcaQuery {
    pub fn new(
        dim_1: &str,
        hier_1: &str,
        level_1: &str,
        dim_2: &str,
        hier_2: &str,
        level_2: &str,
        measure: &str,
    ) -> (r: Self)
        ensures
            r@ == (RcaQueryView {
                drill_1: LevelNameView { dimension: dim_1@, hierarchy: hier_1@, level: level_1@ },
                drill_2: LevelNameView { dimension: dim_2@, hierarchy: hier_2@, level: level_2@ },
                mea: measure@,
            }),
    {
        let drill_1 = Drilldown::new(dim_1, hier_1, level_1);
        let drill_2 = Drilldown::new(dim_2, hier_2, level_2);
        let mea = Measure::new(measure);
        RcaQuery { drill_1, drill_2, mea }
    }

    /// Reads `Drilldown1,Drilldown2,Measure`.
    pub fn parse(s: &str) -> (r: Result<RcaQuery, ParseError>)
        ensures
            match r {
                Ok(q) => parse_rca_spec(s@) == Some(q@),
                Err(e) => parse_rca_spec(s@) is None && e.kind == TokenKind::RcaQuery && e.token@
                    == s@,
            },
    {
        let parts = split_str(s, ',');
        if parts.len() != 3 {
            return Err(ParseError::new(TokenKind::RcaQuery, s));
        }
        proof {
            assert(parts.deep_view()[0] == parts[0]@);
            assert(parts.deep_view()[1] == parts[1]@);
            assert(parts.deep_view()[2] == parts[2]@);
        }
        match (
            Drilldown::parse(parts[0].as_str()),
            Drilldown::parse(parts[1].as_str()),
            Measure::parse(parts[2].as_str()),
        ) {
            (Ok(drill_1), Ok(drill_2), Ok(mea)) => Ok(RcaQuery { drill_1, drill_2, mea }),
            _ => Err(ParseError::new(TokenKind::RcaQuery, s)),
        }
    }
}

pub struct GrowthQueryView {
    pub time_drill: LevelNameView,
    pub mea: Seq<char>,
}

pub open spec fn parse_growth_spec(s: Seq<char>) -> Option<GrowthQueryView> {
    let p = split_on(s, ',');
    if p.len() == 2 {
        match (parse_level_name_spec(p[0]), parse_measure_spec(p[1])) {
            (Some(time_drill), Some(mea)) => Some(GrowthQueryView { time_drill, mea }),
            _ => None,
        }
    } else {
        None
    }
}

/// Period-over-period growth of `mea` along the time level `time_drill`.
#[derive(Debug)]
pub struct GrowthQuery {
    pub time_drill: Drilldown,
    pub mea: Measure,
}

impl View for GrowthQuery {
    type V = GrowthQueryView;

    open spec fn view(&self) -> GrowthQueryView {
        GrowthQueryView { time_drill: self.time_drill@, mea: self.mea@ }
    }
}

impl GrowthQuery {
    pub fn new(dimension: &str, hierarchy: &str, level: &str, measure: &str) -> (r: Self)
        ensures
            r@ == (GrowthQueryView {
                time_drill: LevelNameView {
                    dimension: dimension@,
                    hierarchy: hierarchy@,
                    level: level@,
                },
                mea: measure@,
            }),
    {
        let time_drill = Drilldown::new(dimension, hierarchy, level);
        let mea = Measure::new(measure);
        GrowthQuery { time_drill, mea }
    }

    /// Reads `TimeDrilldown,Measure`.
    pub fn parse(s: &str) -> (r: Result<GrowthQuery, ParseError>)
        ensures
            match r {
                Ok(q) => parse_growth_spec(s@) == Some(q@),
                Err(e) => parse_growth_spec(s@) is None && e.kind == TokenKind::GrowthQuery
                    && e.token@ == s@,
            },
    {
        let parts = split_str(s, ',');
        if parts.len() != 2 {
            return Err(ParseError::new(TokenKind::GrowthQuery, s));
        }
        proof {
            assert(parts.deep_view()[0] == parts[0]@);
            assert(parts.deep_view()[1] == parts[1]@);
        }
        match (Drilldown::parse(parts[0].as_str()), Measure::parse(parts[1].as_str())) {
            (Ok(time_drill), Ok(mea)) => Ok(GrowthQuery { time_drill, mea }),
            _ => Err(ParseError::new(TokenKind::GrowthQuery, s)),
        }
    }
}

pub struct RateQueryView {
    pub level_name: LevelNameView,
    pub values: Seq<Seq<char>>,
}

/// What `Dim.Hier.Lvl.v1,v2,...` (or `Dim.Lvl.v1,...`) describes: the level before the
/// last dot, the comma-separated values after it.
pub open spec fn parse_rate_spec(s: Seq<char>) -> Option<RateQueryView> {
    let p = split_on(s, '.');
    if p.len() == 3 || p.len() == 4 {
        match level_name_of_parts(p.drop_last()) {
            Some(level_name) => Some(
                RateQueryView { level_name, values: split_on(p.last(), ',') },
            ),
            None => None,
        }
    } else {
        None
    }
}

/// The share of each group that the members `values` of a level make up.
#[derive(Debug)]
pub struct RateQuery {
    pub level_name: LevelName,
    pub values: Vec<String>,
}

impl View for RateQuery {
    type V = RateQueryView;

    open spec fn view(&self) -> RateQueryView {
        RateQueryView { level_name: self.level_name@, values: self.values.deep_view() }
    }
}

impl RateQuery {
    pub fn new(level_name: LevelName, values: Vec<String>) -> (r: Self)
        ensures
            r.level_name == level_name,
            r.values == values,
    {
        RateQuery { level_name, values }
    }

    /// Reads `LevelName.v1,v2,...`.
    pub fn parse(s: &str) -> (r: Result<RateQuery, ParseError>)
        ensures
            match r {
                Ok(q) => parse_rate_spec(s@) == Some(q@),
                Err(e) => parse_rate_spec(s@) is None && e.kind == TokenKind::RateQuery && e.token@
                    == s@,
            },
    {
        let mut parts = split_str(s, '.');
        let ghost all = parts.deep_view();
        if parts.len() != 3 && parts.len() != 4 {
            return Err(ParseError::new(TokenKind::RateQuery, s));
        }
        let last = parts.pop().unwrap();
        proof {
            assert(parts.deep_view() =~= all.drop_last());
            assert(all.last() == last@);
        }
        match level_name_from_parts(&parts) {
            Some(level_name) => {
                let values = split_str(last.as_str(), ',');
                Ok(RateQuery { level_name, values })
            },
            None => Err(ParseError::new(TokenKind::RateQuery, s)),
        }
    }
}

/// A drilldown that the RCA of `q` names too.
pub open spec fn rca_duplicate(q: &Query, d: LevelNameView) -> bool {
    match q.rca {
        Some(rca) => d == rca.drill_1@ || d == rca.drill_2@,
        None => false,
    }
}

/// An analytic request, as names only.
#[derive(Debug)]
pub struct Query {
    pub cuts: Vec<Cut>,
    pub drilldowns: Vec<Drilldown>,
    pub measures: Vec<Measure>,
    pub properties: Vec<Property>,
    pub filters: Vec<FilterQuery>,
    pub captions: Vec<Property>,
    pub parents: bool,
    pub top: Option<TopQuery>,
    pub top_where: Option<TopWhereQuery>,
    pub sort: Option<SortQuery>,
    pub limit: Option<LimitQuery>,
    pub rca: Option<RcaQuery>,
    pub growth: Option<GrowthQuery>,
    pub rate: Option<RateQuery>,
    pub debug: bool,
    pub sparse: bool,
    pub exclude_default_members: bool,
}

impl Query {
    /// The empty request.
    pub fn new() -> (r: Self)
        ensures
            r.cuts@.len() == 0,
            r.drilldowns@.len() == 0,
            r.measures@.len() == 0,
            r.properties@.len() == 0,
            r.filters@.len() == 0,
            r.captions@.len() == 0,
            !r.parents,
            r.top is None,
            r.top_where is None,
            r.sort is None,
            r.limit is None,
            r.rca is None,
            r.growth is None,
            r.rate is None,
            !r.debug,
            !r.sparse,
            !r.exclude_default_members,
    {
        Query {
            drilldowns: vec![],
            cuts: vec![],
            measures: vec![],
            properties: vec![],
            filters: vec![],
            captions: vec![],
            parents: false,
            top: None,
            top_where: None,
            sort: None,
            limit: None,
            rca: None,
            growth: None,
            rate: None,
            debug: false,
            sparse: false,
            exclude_default_members: false,
        }
    }

    /// Refuses a request whose RCA drilldowns stand among its drilldowns; names the
    /// first such drilldown.
    pub fn validate(&self) -> (r: Result<(), ValidationError>)
        ensures
            r is Ok <==> !exists|i: int|
                0 <= i < self.drilldowns@.len() && rca_duplicate(self, #[trigger] self.drilldowns@[i]@),
            r matches Err(ValidationError::DuplicateRcaDrilldown(d)) ==> exists|i: int|
                0 <= i < self.drilldowns@.len() && rca_duplicate(self, #[trigger] self.drilldowns@[i]@)
                    && d@ == self.drilldowns@[i]@ && forall|j: int|
                    0 <= j < i ==> !rca_duplicate(self, #[trigger] self.drilldowns@[j]@),
    {
        let rca = match &self.rca {
            None => {
                return Ok(());
            },
            Some(rca) => rca,
        };
        let mut i: usize = 0;
        while i < self.drilldowns.len()
            invariant
                self.rca == Some(*rca),
                i <= self.drilldowns@.len(),
                forall|j: int| 0 <= j < i ==> !rca_duplicate(self, #[trigger] self.drilldowns@[j]@),
            decreases self.drilldowns@.len() - i,
        {
            let d = &self.drilldowns[i];
            if rca.drill_1 == *d || rca.drill_2 == *d {
                return Err(ValidationError::DuplicateRcaDrilldown(d.clone()));
            }
            i = i + 1;
        }
        Ok(())
    }
}


/// A piece of a token that holds none of `.`, `,` and `:`.
pub open spec fn plain(s: Seq<char>) -> bool {
    !s.contains('.') && !s.contains(',') && !s.contains(':')
}

/// A level name whose segments are plain and not empty.
pub open spec fn plain_level(l: LevelNameView) -> bool {
    l.wf() && plain(l.dimension) && plain(l.hierarchy) && plain(l.level)
}

proof fn lemma_level_text_no_comma(l: LevelNameView)
    requires
        plain_level(l),
    ensures
        !l.text().contains(','),
{
    let parts = seq![l.dimension, l.hierarchy, l.level];
    assert forall|i: int| 0 <= i < parts.len() implies !(#[trigger] parts[i]).contains(',') by {}
    assert(!seq!['.'].contains(',')) by {
        assert(seq!['.'][0] == '.');
    }
    lemma_joined_no_char(parts, seq!['.'], ',');
}

proof fn lemma_decimal_plain(n: nat)
    ensures
        plain(decimal(n)),
{
    lemma_decimal(n);
    let d = decimal(n);
    assert forall|c: char| d.contains(c) implies is_digit(c) by {
        let k = choose|k: int| 0 <= k < d.len() && d[k] == c;
    }
}

/// `measure.direction`.
pub open spec fn sort_token(q: SortQueryView) -> Seq<char> {
    joined(seq![q.measure, sort_direction_token(q.direction)], seq!['.'])
}

/// A sort on a plain measure name reads back from its token.
pub proof fn lemma_sort_round_trip(q: SortQueryView)
    requires
        segment_ok(q.measure),
        plain(q.measure),
    ensures
        parse_sort_spec(sort_token(q)) == Some(q),
{
    let parts = seq![q.measure, sort_direction_token(q.direction)];
    assert(!sort_direction_token(q.direction).contains('.')) by {
        let t = sort_direction_token(q.direction);
        if t.contains('.') {
            let k = choose|k: int| 0 <= k < t.len() && t[k] == '.';
        }
    }
    assert forall|i: int| 0 <= i < parts.len() implies !(#[trigger] parts[i]).contains('.') by {}
    lemma_split_joined(parts, '.');
    lemma_sort_direction_round_trip(q.direction);
}

/// `n`, or `offset,n`.
pub open spec fn limit_token(l: LimitQuery) -> Seq<char> {
    match l.offset {
        Some(o) => joined(seq![decimal(o as nat), decimal(l.n as nat)], seq![',']),
        None => decimal(l.n as nat),
    }
}

/// Every limit reads back from its token.
pub proof fn lemma_limit_round_trip(l: LimitQuery)
    ensures
        parse_limit_spec(limit_token(l)) == Some(l),
{
    lemma_decimal_plain(l.n as nat);
    lemma_parse_u64_decimal(l.n);
    match l.offset {
        Some(o) => {
            lemma_decimal_plain(o as nat);
            lemma_parse_u64_decimal(o);
            let parts = seq![decimal(o as nat), decimal(l.n as nat)];
            assert forall|i: int| 0 <= i < parts.len() implies !(#[trigger] parts[i]).contains(',') by {}
            lemma_split_joined(parts, ',');
        },
        None => {
            let parts = seq![decimal(l.n as nat)];
            assert forall|i: int| 0 <= i < parts.len() implies !(#[trigger] parts[i]).contains(',') by {}
            lemma_split_joined(parts, ',');
            assert(joined(parts, seq![',']) == decimal(l.n as nat));
        },
    }
}

/// `TimeLevel,measure`.
pub open spec fn growth_token(g: GrowthQueryView) -> Seq<char> {
    joined(seq![g.time_drill.text(), g.mea], seq![','])
}

/// A growth over a plain level and measure reads back from its token.
pub proof fn lemma_growth_round_trip(g: GrowthQueryView)
    requires
        plain_level(g.time_drill),
        segment_ok(g.mea),
        plain(g.mea),
    ensures
        parse_growth_spec(growth_token(g)) == Some(g),
{
    lemma_level_text_no_comma(g.time_drill);
    lemma_level_name_round_trip(g.time_drill);
    let parts = seq![g.time_drill.text(), g.mea];
    assert forall|i: int| 0 <= i < parts.len() implies !(#[trigger] parts[i]).contains(',') by {}
    lemma_split_joined(parts, ',');
}

/// `Level1,Level2,measure`.
pub open spec fn rca_token(r: RcaQueryView) -> Seq<char> {
    joined(seq![r.drill_1.text(), r.drill_2.text(), r.mea], seq![','])
}

/// An RCA over plain levels and measure reads back from its token.
pub proof fn lemma_rca_round_trip(r: RcaQueryView)
    requires
        plain_level(r.drill_1),
        plain_level(r.drill_2),
        segment_ok(r.mea),
        plain(r.mea),
    ensures
        parse_rca_spec(rca_token(r)) == Some(r),
{
    lemma_level_text_no_comma(r.drill_1);
    lemma_level_text_no_comma(r.drill_2);
    lemma_level_name_round_trip(r.drill_1);
    lemma_level_name_round_trip(r.drill_2);
    let parts = seq![r.drill_1.text(), r.drill_2.text(), r.mea];
    assert forall|i: int| 0 <= i < parts.len() implies !(#[trigger] parts[i]).contains(',') by {}
    lemma_split_joined(parts, ',');
}

/// `Dim.Hier.Lvl.v1,v2,...`.
pub open spec fn rate_token(r: RateQueryView) -> Seq<char> {
    joined(
        seq![r.level_name.dimension, r.level_name.hierarchy, r.level_name.level, joined(r.values, seq![','])],
        seq!['.'],
    )
}

/// A rate over a plain level and at least one plain value reads back from its token.
pub proof fn lemma_rate_round_trip(r: RateQueryView)
    requires
        plain_level(r.level_name),
        r.values.len() >= 1,
        forall|i: int| 0 <= i < r.values.len() ==> plain(#[trigger] r.values[i]),
    ensures
        parse_rate_spec(rate_token(r)) == Some(r),
{
    let vs = joined(r.values, seq![',']);
    assert(!vs.contains('.')) by {
        assert forall|i: int| 0 <= i < r.values.len() implies !(#[trigger] r.values[i]).contains('.') by {
            assert(plain(r.values[i]));
        }
        assert(!seq![','].contains('.')) by {
            assert(seq![','][0] == ',');
        }
        lemma_joined_no_char(r.values, seq![','], '.');
    }
    let parts = seq![r.level_name.dimension, r.level_name.hierarchy, r.level_name.level, vs];
    assert forall|i: int| 0 <= i < parts.len() implies !(#[trigger] parts[i]).contains('.') by {}
    lemma_split_joined(parts, '.');
    assert forall|i: int| 0 <= i < r.values.len() implies !(#[trigger] r.values[i]).contains(',') by {
        assert(plain(r.values[i]));
    }
    lemma_split_joined(r.values, ',');
    assert(parts.drop_last() =~= seq![r.level_name.dimension, r.level_name.hierarchy, r.level_name.level]);
}

} // verus!
