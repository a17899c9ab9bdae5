//! Error values of the parsers and of the compiler.

use vstd::prelude::*;
use crate::names::Drilldown;
use crate::text::cat;

verus! {

/// Which token a parser was reading when it gave up.
#[derive(Debug, Clone, Copy, PartialEq, Eq, Structural)]
pub enum TokenKind {
    LevelName,
    Measure,
    Property,
    Cut,
    Calculation,
    MeaOrCalc,
    SortDirection,
    Comparison,
    Constraint,
    TopQuery,
    TopWhereQuery,
    FilterQuery,
    LimitQuery,
    SortQuery,
    RcaQuery,
    GrowthQuery,
    RateQuery,
    Flag,
}

/// A token that does not follow its grammar.
#[derive(Debug)]
pub struct ParseError {
    pub kind: TokenKind,
    pub token: String,
}

impl ParseError {
    pub fn new(kind: TokenKind, token: &str) -> (r: ParseError)
        ensures
            r.kind == kind,
            r.token@ == token@,
    {
        ParseError { kind, token: token.to_owned() }
    }
}

/// A request that is well formed but asks for something contradictory.
#[derive(Debug)]
pub enum ValidationError {
    /// A drilldown of the RCA stands among the drilldowns too.
    DuplicateRcaDrilldown(Drilldown),
}

impl ValidationError {
    /// A sentence that names the offending drilldown.
    pub fn message(&self) -> (r: String)
        ensures
            match self {
                ValidationError::DuplicateRcaDrilldown(d) => r@ == "Duplicated drilldown in RCA and drilldowns: "@
                    + d@.text(),
            },
    {
        match self {
            ValidationError::DuplicateRcaDrilldown(d) => cat(
                "Duplicated drilldown in RCA and drilldowns: ",
                d.to_string().as_str(),
            ),
        }
    }
}

} // verus!
