//! The options of an aggregation request as they arrive, and their reading into a
//! query.

use vstd::prelude::*;
use crate::error::ParseError;
use crate::names::{
    parse_cut_spec, parse_level_name_spec, parse_property_spec, Cut, Drilldown, Measure, Property,
    parse_measure_spec,
};
use crate::query::{
    parse_condition_spec, parse_growth_spec, parse_limit_spec, parse_rate_spec, parse_rca_spec,
    parse_sort_spec, parse_top_spec, FilterQuery, GrowthQuery, LimitQuery, Query, RateQuery,
    RcaQuery, SortQuery, TopQuery, TopWhereQuery,
};

verus! {

/// The options of an aggregation request, each still a token.
#[derive(Debug)]
pub struct AggregateQueryOpt {
    pub drilldowns: Option<Vec<String>>,
    pub cuts: Option<Vec<String>>,
    pub measures: Option<Vec<String>>,
    pub properties: Option<Vec<String>>,
    pub parents: Option<bool>,
    pub top: Option<String>,
    pub top_where: Option<String>,
    pub sort: Option<String>,
    pub limit: Option<String>,
    pub growth: Option<String>,
    pub rca: Option<String>,
    pub rate: Option<String>,
    pub filter: Option<String>,
    pub debug: Option<bool>,
    pub sparse: Option<bool>,
    pub exclude_default_members: Option<bool>,
}

/// The tokens of a repeated option; none where it is absent.
pub open spec fn tokens(v: Option<Vec<String>>) -> Seq<Seq<char>> {
    match v {
        Some(v) => v.deep_view(),
        None => Seq::empty(),
    }
}

pub open spec fn flag(v: Option<bool>) -> bool {
    match v {
        Some(b) => b,
        None => false,
    }
}

/// A token of the option that its parser refuses.
pub open spec fn bad_token(o: &AggregateQueryOpt) -> bool {
    ||| exists|i: int|
        0 <= i < tokens(o.drilldowns).len() && parse_level_name_spec(#[trigger] tokens(o.drilldowns)[i])
            is None
    ||| exists|i: int|
        0 <= i < tokens(o.cuts).len() && parse_cut_spec(#[trigger] tokens(o.cuts)[i]) is None
    ||| exists|i: int|
        0 <= i < tokens(o.measures).len() && parse_measure_spec(#[trigger] tokens(o.measures)[i])
            is None
    ||| exists|i: int|
        0 <= i < tokens(o.properties).len() && parse_property_spec(
            #[trigger] tokens(o.properties)[i],
        ) is None
    ||| o.top matches Some(t) && parse_top_spec(t@) is None
    ||| o.top_where matches Some(t) && parse_condition_spec(t@) is None
    ||| o.sort matches Some(t) && parse_sort_spec(t@) is None
    ||| o.limit matches Some(t) && parse_limit_spec(t@) is None
    ||| o.growth matches Some(t) && parse_growth_spec(t@) is None
    ||| o.rca matches Some(t) && parse_rca_spec(t@) is None
    ||| o.rate matches Some(t) && parse_rate_spec(t@) is None
    ||| o.filter matches Some(t) && parse_condition_spec(t@) is None
}

/// `q` is what the options `o` read as.
pub open spec fn reads_as(o: &AggregateQueryOpt, q: &Query) -> bool {
    &&& q.drilldowns@.len() == tokens(o.drilldowns).len()
    &&& forall|i: int|
        0 <= i < q.drilldowns@.len() ==> parse_level_name_spec(tokens(o.drilldowns)[i]) == Some(
            (#[trigger] q.drilldowns@[i])@,
        )
    &&& q.cuts@.len() == tokens(o.cuts).len()
    &&& forall|i: int|
        0 <= i < q.cuts@.len() ==> parse_cut_spec(tokens(o.cuts)[i]) == Some((#[trigger] q.cuts@[i])@)
    &&& q.measures@.len() == tokens(o.measures).len()
    &&& forall|i: int|
        0 <= i < q.measures@.len() ==> parse_measure_spec(tokens(o.measures)[i]) == Some(
            (#[trigger] q.measures@[i])@,
        )
    &&& q.properties@.len() == tokens(o.properties).len()
    &&& forall|i: int|
        0 <= i < q.properties@.len() ==> parse_property_spec(tokens(o.properties)[i]) == Some(
            (#[trigger] q.properties@[i])@,
        )
    &&& q.captions@.len() == 0
    &&& q.parents == flag(o.parents)
    &&& q.debug == flag(o.debug)
    &&& q.sparse == flag(o.sparse)
    &&& q.exclude_default_members == flag(o.exclude_default_members)
    &&& match o.top {
        Some(t) => q.top matches Some(x) && parse_top_spec(t@) == Some(x@),
        None => q.top is None,
    }
    &&& match o.top_where {
        Some(t) => q.top_where matches Some(x) && parse_condition_spec(t@) == Some(x@),
        None => q.top_where is None,
    }
    &&& match o.sort {
        Some(t) => q.sort matches Some(x) && parse_sort_spec(t@) == Some(x@),
        None => q.sort is None,
    }
    &&& match o.limit {
        Some(t) => q.limit matches Some(x) && parse_limit_spec(t@) == Some(x),
        None => q.limit is None,
    }
    &&& match o.growth {
        Some(t) => q.growth matches Some(x) && parse_growth_spec(t@) == Some(x@),
        None => q.growth is None,
    }
    &&& match o.rca {
        Some(t) => q.rca matches Some(x) && parse_rca_spec(t@) == Some(x@),
        None => q.rca is None,
    }
    &&& match o.rate {
        Some(t) => q.rate matches Some(x) && parse_rate_spec(t@) == Some(x@),
        None => q.rate is None,
    }
    &&& match o.filter {
        Some(t) => q.filters@.len() == 1 && parse_condition_spec(t@) == Some(q.filters@[0]@),
        None => q.filters@.len() == 0,
    }
}

fn opt_tokens(v: &Option<Vec<String>>) -> (r: &[String])
    ensures
        r@.map_values(|s: String| s@) == tokens(*v),
{
    match v {
        Some(v) => {
            proof {
                assert(v@.map_values(|s: String| s@) =~= v.deep_view());
            }
            v.as_slice()
        },
        None => {
            let e: &[String] = &[];
            proof {
                assert(e@.map_values(|s: String| s@) =~= Seq::<Seq<char>>::empty());
            }
            e
        },
    }
}

fn opt_flag(v: Option<bool>) -> (r: bool)
    ensures
        r == flag(v),
{
    match v {
        Some(b) => b,
        None => false,
    }
}

fn read_drilldowns(v: &Option<Vec<String>>) -> (r: Result<Vec<Drilldown>, ParseError>)
    ensures
        r is Ok <==> forall|i: int|
            0 <= i < tokens(*v).len() ==> parse_level_name_spec(#[trigger] tokens(*v)[i]) is Some,
        r matches Ok(out) ==> out@.len() == tokens(*v).len() && forall|i: int|
            0 <= i < out@.len() ==> parse_level_name_spec(tokens(*v)[i]) == Some((#[trigger] out@[i])@),
{
    let ts = opt_tokens(v);
    let mut out: Vec<Drilldown> = Vec::new();
    let mut i: usize = 0;
    while i < ts.len()
        invariant
            ts@.map_values(|s: String| s@) == tokens(*v),
            i <= ts@.len(),
            out@.len() == i,
            forall|j: int| 0 <= j < i ==> parse_level_name_spec(tokens(*v)[j]) == Some((#[trigger] out@[j])@),
        decreases ts@.len() - i,
    {
        proof {
            assert(tokens(*v)[i as int] == ts@[i as int]@);
        }
        match Drilldown::parse(ts[i].as_str()) {
            Ok(x) => out.push(x),
            Err(e) => {
                return Err(e);
            },
        }
        i = i + 1;
    }
    proof {
        assert forall|j: int| 0 <= j < tokens(*v).len() implies parse_level_name_spec(
            #[trigger] tokens(*v)[j],
        ) is Some by {
            assert(parse_level_name_spec(tokens(*v)[j]) == Some(out@[j]@));
        }
    }
    Ok(out)
}

fn read_cuts(v: &Option<Vec<String>>) -> (r: Result<Vec<Cut>, ParseError>)
    ensures
        r is Ok <==> forall|i: int|
            0 <= i < tokens(*v).len() ==> parse_cut_spec(#[trigger] tokens(*v)[i]) is Some,
        r matches Ok(out) ==> out@.len() == tokens(*v).len() && forall|i: int|
            0 <= i < out@.len() ==> parse_cut_spec(tokens(*v)[i]) == Some((#[trigger] out@[i])@),
{
    let ts = opt_tokens(v);
    let mut out: Vec<Cut> = Vec::new();
    let mut i: usize = 0;
    while i < ts.len()
        invariant
            ts@.map_values(|s: String| s@) == tokens(*v),
            i <= ts@.len(),
            out@.len() == i,
            forall|j: int| 0 <= j < i ==> parse_cut_spec(tokens(*v)[j]) == Some((#[trigger] out@[j])@),
        decreases ts@.len() - i,
    {
        proof {
            assert(tokens(*v)[i as int] == ts@[i as int]@);
        }
        match Cut::parse(ts[i].as_str()) {
            Ok(x) => out.push(x),
            Err(e) => {
                return Err(e);
            },
        }
        i = i + 1;
    }
    proof {
        assert forall|j: int| 0 <= j < tokens(*v).len() implies parse_cut_spec(
            #[trigger] tokens(*v)[j],
        ) is Some by {
            assert(parse_cut_spec(tokens(*v)[j]) == Some(out@[j]@));
        }
    }
    Ok(out)
}

fn read_measures(v: &Option<Vec<String>>) -> (r: Result<Vec<Measure>, ParseError>)
    ensures
        r is Ok <==> forall|i: int|
            0 <= i < tokens(*v).len() ==> parse_measure_spec(#[trigger] tokens(*v)[i]) is Some,
        r matches Ok(out) ==> out@.len() == tokens(*v).len() && forall|i: int|
            0 <= i < out@.len() ==> parse_measure_spec(tokens(*v)[i]) == Some((#[trigger] out@[i])@),
{
    let ts = opt_tokens(v);
    let mut out: Vec<Measure> = Vec::new();
    let mut i: usize = 0;
    while i < ts.len()
        invariant
            ts@.map_values(|s: String| s@) == tokens(*v),
            i <= ts@.len(),
            out@.len() == i,
            forall|j: int| 0 <= j < i ==> parse_measure_spec(tokens(*v)[j]) == Some((#[trigger] out@[j])@),
        decreases ts@.len() - i,
    {
        proof {
            assert(tokens(*v)[i as int] == ts@[i as int]@);
        }
        match Measure::parse(ts[i].as_str()) {
            Ok(x) => out.push(x),
            Err(e) => {
                return Err(e);
            },
        }
        i = i + 1;
    }
    proof {
        assert forall|j: int| 0 <= j < tokens(*v).len() implies parse_measure_spec(
            #[trigger] tokens(*v)[j],
        ) is Some by {
            assert(parse_measure_spec(tokens(*v)[j]) == Some(out@[j]@));
        }
    }
    Ok(out)
}

fn read_properties(v: &Option<Vec<String>>) -> (r: Result<Vec<Property>, ParseError>)
    ensures
        r is Ok <==> forall|i: int|
            0 <= i < tokens(*v).len() ==> parse_property_spec(#[trigger] tokens(*v)[i]) is Some,
        r matches Ok(out) ==> out@.len() == tokens(*v).len() && forall|i: int|
            0 <= i < out@.len() ==> parse_property_spec(tokens(*v)[i]) == Some((#[trigger] out@[i])@),
{
    let ts = opt_tokens(v);
    let mut out: Vec<Property> = Vec::new();
    let mut i: usize = 0;
    while i < ts.len()
        invariant
            ts@.map_values(|s: String| s@) == tokens(*v),
            i <= ts@.len(),
            out@.len() == i,
            forall|j: int| 0 <= j < i ==> parse_property_spec(tokens(*v)[j]) == Some((#[trigger] out@[j])@),
        decreases ts@.len() - i,
    {
        proof {
            assert(tokens(*v)[i as int] == ts@[i as int]@);
        }
        match Property::parse(ts[i].as_str()) {
            Ok(x) => out.push(x),
            Err(e) => {
                return Err(e);
            },
        }
        i = i + 1;
    }
    proof {
        assert forall|j: int| 0 <= j < tokens(*v).len() implies parse_property_spec(
            #[trigger] tokens(*v)[j],
        ) is Some by {
            assert(parse_property_spec(tokens(*v)[j]) == Some(out@[j]@));
        }
    }
    Ok(out)
}

impl AggregateQueryOpt {
    /// Reads every option with its parser; fails on the first token that a parser
    /// refuses.
    #[verifier::rlimit(30)]
    pub fn to_query(&self) -> (r: Result<Query, ParseError>)
        ensures
            r is Ok <==> !bad_token(self),
            r matches Ok(q) ==> reads_as(self, &q),
    {
        let drilldowns = read_drilldowns(&self.drilldowns)?;
        let cuts = read_cuts(&self.cuts)?;
        let measures = read_measures(&self.measures)?;
        let properties = read_properties(&self.properties)?;
        let top = match &self.top {
            Some(t) => Some(TopQuery::parse(t.as_str())?),
            None => None,
        };
        let top_where = match &self.top_where {
            Some(t) => Some(TopWhereQuery::parse(t.as_str())?),
            None => None,
        };
        let sort = match &self.sort {
            Some(t) => Some(SortQuery::parse(t.as_str())?),
            None => None,
        };
        let limit = match &self.limit {
            Some(t) => Some(LimitQuery::parse(t.as_str())?),
            None => None,
        };
        let growth = match &self.growth {
            Some(t) => Some(GrowthQuery::parse(t.as_str())?),
            None => None,
        };
        let rca = match &self.rca {
            Some(t) => Some(RcaQuery::parse(t.as_str())?),
            None => None,
        };
        let rate = match &self.rate {
            Some(t) => Some(RateQuery::parse(t.as_str())?),
            None => None,
        };
        let mut filters: Vec<FilterQuery> = Vec::new();
        if let Some(t) = &self.filter {
            filters.push(FilterQuery::parse(t.as_str())?);
        }
        Ok(
            Query {
                cuts,
                drilldowns,
                measures,
                properties,
                filters,
                captions: Vec::new(),
                parents: opt_flag(self.parents),
                top,
                top_where,
                sort,
                limit,
                rca,
                growth,
                rate,
                debug: opt_flag(self.debug),
                sparse: opt_flag(self.sparse),
                exclude_default_members: opt_flag(self.exclude_default_members),
            },
        )
    }
}

} // verus!
