//! The names that a cube shows to its callers.

use vstd::prelude::*;
use crate::compiler::{cube_pos, has_cube};
use crate::schema::{Aggregator, Cube, Dimension, Hierarchy, Level, MeasureDef, PropertyDef, Schema};

verus! {

#[derive(Debug)]
pub struct LevelMetadata {
    pub name: String,
    pub properties: Vec<String>,
}

#[derive(Debug)]
pub struct HierarchyMetadata {
    pub name: String,
    pub levels: Vec<LevelMetadata>,
}

#[derive(Debug)]
pub struct DimensionMetadata {
    pub name: String,
    pub hierarchies: Vec<HierarchyMetadata>,
}

#[derive(Debug)]
pub struct MeasureMetadata {
    pub name: String,
    pub aggregator: Aggregator,
}

/// A cube's names: its dimensions, hierarchies, levels with their properties, and
/// measures with their aggregators, in schema order.
#[derive(Debug)]
pub struct CubeMetadata {
    pub name: String,
    pub dimensions: Vec<DimensionMetadata>,
    pub measures: Vec<MeasureMetadata>,
}

pub open spec fn level_describes(m: LevelMetadata, l: Level) -> bool {
    &&& m.name == l.name
    &&& m.properties@.len() == l.properties@.len()
    &&& forall|i: int| 0 <= i < m.properties@.len() ==> #[trigger] m.properties@[i] == l.properties@[i].name
}

pub open spec fn hierarchy_describes(m: HierarchyMetadata, h: Hierarchy) -> bool {
    &&& m.name == h.name
    &&& m.levels@.len() == h.levels@.len()
    &&& forall|i: int| 0 <= i < m.levels@.len() ==> level_describes(#[trigger] m.levels@[i], h.levels@[i])
}

pub open spec fn dimension_describes(m: DimensionMetadata, d: Dimension) -> bool {
    &&& m.name == d.name
    &&& m.hierarchies@.len() == d.hierarchies@.len()
    &&& forall|i: int|
        0 <= i < m.hierarchies@.len() ==> hierarchy_describes(#[trigger] m.hierarchies@[i], d.hierarchies@[i])
}

pub open spec fn measure_describes(m: MeasureMetadata, d: MeasureDef) -> bool {
    m.name == d.name && m.aggregator == d.aggregator
}

/// `m` names what `c` holds, in the same order.
pub open spec fn cube_describes(m: &CubeMetadata, c: &Cube) -> bool {
    &&& m.name == c.name
    &&& m.dimensions@.len() == c.dimensions@.len()
    &&& forall|i: int|
        0 <= i < m.dimensions@.len() ==> dimension_describes(#[trigger] m.dimensions@[i], c.dimensions@[i])
    &&& m.measures@.len() == c.measures@.len()
    &&& forall|i: int| 0 <= i < m.measures@.len() ==> measure_describes(#[trigger] m.measures@[i], c.measures@[i])
}

fn level_metadata(l: &Level) -> (r: LevelMetadata)
    ensures
        level_describes(r, *l),
{
    let mut properties: Vec<String> = Vec::new();
    let mut i: usize = 0;
    while i < l.properties.len()
        invariant
            i <= l.properties@.len(),
            properties@.len() == i,
            forall|k: int| 0 <= k < i ==> #[trigger] properties@[k] == l.properties@[k].name,
        decreases l.properties@.len() - i,
    {
        properties.push(l.properties[i].name.clone());
        i = i + 1;
    }
    LevelMetadata { name: l.name.clone(), properties }
}

fn hierarchy_metadata(h: &Hierarchy) -> (r: HierarchyMetadata)
    ensures
        hierarchy_describes(r, *h),
{
    let mut levels: Vec<LevelMetadata> = Vec::new();
    let mut i: usize = 0;
    while i < h.levels.len()
        invariant
            i <= h.levels@.len(),
            levels@.len() == i,
            forall|k: int| 0 <= k < i ==> level_describes(#[trigger] levels@[k], h.levels@[k]),
        decreases h.levels@.len() - i,
    {
        levels.push(level_metadata(&h.levels[i]));
        i = i + 1;
    }
    HierarchyMetadata { name: h.name.clone(), levels }
}

fn dimension_metadata(d: &Dimension) -> (r: DimensionMetadata)
    ensures
        dimension_describes(r, *d),
{
    let mut hierarchies: Vec<HierarchyMetadata> = Vec::new();
    let mut i: usize = 0;
    while i < d.hierarchies.len()
        invariant
            i <= d.hierarchies@.len(),
            hierarchies@.len() == i,
            forall|k: int| 0 <= k < i ==> hierarchy_describes(#[trigger] hierarchies@[k], d.hierarchies@[k]),
        decreases d.hierarchies@.len() - i,
    {
        hierarchies.push(hierarchy_metadata(&d.hierarchies[i]));
        i = i + 1;
    }
    DimensionMetadata { name: d.name.clone(), hierarchies }
}

impl Cube {
    /// The names of the cube.
    pub fn metadata(&self) -> (r: CubeMetadata)
        ensures
            cube_describes(&r, self),
    {
        let mut dimensions: Vec<DimensionMetadata> = Vec::new();
        let mut i: usize = 0;
        while i < self.dimensions.len()
            invariant
                i <= self.dimensions@.len(),
                dimensions@.len() == i,
                forall|k: int| 0 <= k < i ==> dimension_describes(#[trigger] dimensions@[k], self.dimensions@[k]),
            decreases self.dimensions@.len() - i,
        {
            dimensions.push(dimension_metadata(&self.dimensions[i]));
            i = i + 1;
        }
        let mut measures: Vec<MeasureMetadata> = Vec::new();
        let mut j: usize = 0;
        while j < self.measures.len()
            invariant
                j <= self.measures@.len(),
                measures@.len() == j,
                forall|k: int| 0 <= k < j ==> measure_describes(#[trigger] measures@[k], self.measures@[k]),
            decreases self.measures@.len() - j,
        {
            let m = &self.measures[j];
            measures.push(MeasureMetadata { name: m.name.clone(), aggregator: m.aggregator.clone() });
            j = j + 1;
        }
        CubeMetadata { name: self.name.clone(), dimensions, measures }
    }
}

impl Schema {
    /// The names of the cube named `cube_name`, if there is one.
    pub fn cube_metadata(&self, cube_name: &str) -> (r: Option<CubeMetadata>)
        ensures
            match r {
                Some(m) => has_cube(self, cube_name@) && cube_describes(
                    &m,
                    &self.cubes@[cube_pos(self, cube_name@)],
                ),
                None => !has_cube(self, cube_name@),
            },
    {
        match self.find_cube(cube_name) {
            Some(ci) => {
                proof {
                    assert(has_cube(self, cube_name@));
                    let p = cube_pos(self, cube_name@);
                    if p < ci {
                        assert(self.cubes@[p].name@ != cube_name@);
                    } else if p > ci {
                        assert(self.cubes@[ci as int].name@ != cube_name@);
                    }
                }
                Some(self.cubes[ci].metadata())
            },
            None => None,
        }
    }
}


/// A level's short name, then the short names of its properties.
pub open spec fn level_short_names(l: Level) -> Seq<Seq<char>> {
    seq![l.name@] + l.properties@.map_values(|p: PropertyDef| p.name@)
}

pub open spec fn levels_short_names(ls: Seq<Level>) -> Seq<Seq<char>>
    decreases ls.len(),
{
    if ls.len() == 0 {
        Seq::empty()
    } else {
        levels_short_names(ls.drop_last()) + level_short_names(ls.last())
    }
}

pub open spec fn hierarchies_short_names(hs: Seq<Hierarchy>) -> Seq<Seq<char>>
    decreases hs.len(),
{
    if hs.len() == 0 {
        Seq::empty()
    } else {
        hierarchies_short_names(hs.drop_last()) + levels_short_names(hs.last().levels@)
    }
}

pub open spec fn dimensions_short_names(ds: Seq<Dimension>) -> Seq<Seq<char>>
    decreases ds.len(),
{
    if ds.len() == 0 {
        Seq::empty()
    } else {
        dimensions_short_names(ds.drop_last()) + hierarchies_short_names(ds.last().hierarchies@)
    }
}

fn push_level_names(out: &mut Vec<String>, l: &Level)
    ensures
        final(out).deep_view() == old(out).deep_view() + level_short_names(*l),
{
    let ghost start = out.deep_view();
    out.push(l.name.clone());
    let mut i: usize = 0;
    while i < l.properties.len()
        invariant
            i <= l.properties@.len(),
            out.deep_view() =~= start + seq![l.name@] + l.properties@.take(i as int).map_values(
                |p: PropertyDef| p.name@,
            ),
        decreases l.properties@.len() - i,
    {
        let ghost prev = out.deep_view();
        out.push(l.properties[i].name.clone());
        proof {
            assert(out.deep_view() =~= prev.push(l.properties@[i as int].name@));
            assert(l.properties@.take(i + 1).map_values(|p: PropertyDef| p.name@)
                =~= l.properties@.take(i as int).map_values(|p: PropertyDef| p.name@).push(
                l.properties@[i as int].name@,
            ));
        }
        i = i + 1;
    }
    proof {
        assert(l.properties@.take(l.properties@.len() as int) =~= l.properties@);
    }
}

impl Cube {
    /// The short names of the cube's levels and properties, in schema order.
    pub fn short_names(&self) -> (r: Vec<String>)
        ensures
            r.deep_view() == dimensions_short_names(self.dimensions@),
    {
        let mut out: Vec<String> = Vec::new();
        let mut d: usize = 0;
        while d < self.dimensions.len()
            invariant
                d <= self.dimensions@.len(),
                out.deep_view() =~= dimensions_short_names(self.dimensions@.take(d as int)),
            decreases self.dimensions@.len() - d,
        {
            let dim = &self.dimensions[d];
            let ghost before_d = out.deep_view();
            let mut h: usize = 0;
            while h < dim.hierarchies.len()
                invariant
                    h <= dim.hierarchies@.len(),
                    out.deep_view() =~= before_d + hierarchies_short_names(
                        dim.hierarchies@.take(h as int),
                    ),
                decreases dim.hierarchies@.len() - h,
            {
                let hier = &dim.hierarchies[h];
                let ghost before_h = out.deep_view();
                let mut i: usize = 0;
                while i < hier.levels.len()
                    invariant
                        i <= hier.levels@.len(),
                        out.deep_view() =~= before_h + levels_short_names(hier.levels@.take(i as int)),
                    decreases hier.levels@.len() - i,
                {
                    push_level_names(&mut out, &hier.levels[i]);
                    proof {
                        assert(hier.levels@.take(i + 1).drop_last() =~= hier.levels@.take(i as int));
                        assert(hier.levels@.take(i + 1).last() == hier.levels@[i as int]);
                    }
                    i = i + 1;
                }
                proof {
                    assert(hier.levels@.take(hier.levels@.len() as int) =~= hier.levels@);
                    assert(dim.hierarchies@.take(h + 1).drop_last() =~= dim.hierarchies@.take(h as int));
                    assert(dim.hierarchies@.take(h + 1).last() == *hier);
                }
                h = h + 1;
            }
            proof {
                assert(dim.hierarchies@.take(dim.hierarchies@.len() as int) =~= dim.hierarchies@);
                assert(self.dimensions@.take(d + 1).drop_last() =~= self.dimensions@.take(d as int));
                assert(self.dimensions@.take(d + 1).last() == *dim);
            }
            d = d + 1;
        }
        proof {
            assert(self.dimensions@.take(self.dimensions@.len() as int) =~= self.dimensions@);
        }
        out
    }

    /// Whether no two levels or properties of the cube share a short name, so that a
    /// short name alone identifies one of them.
    pub fn has_unique_levels_and_properties(&self) -> (r: bool)
        ensures
            r == dimensions_short_names(self.dimensions@).no_duplicates(),
    {
        let names = self.short_names();
        let ghost v = names.deep_view();
        let n = names.len();
        let mut i: usize = 0;
        while i < n
            invariant
                n == v.len(),
                v == names.deep_view(),
                v == dimensions_short_names(self.dimensions@),
                i <= n,
                forall|a: int, b: int| 0 <= a < i && a < b < n ==> v[a] != v[b],
            decreases n - i,
        {
            let mut j: usize = i + 1;
            while j < n
                invariant
                    n == v.len(),
                    v == names.deep_view(),
                    v == dimensions_short_names(self.dimensions@),
                    i < n,
                    i + 1 <= j <= n,
                    forall|a: int, b: int| 0 <= a < i && a < b < n ==> v[a] != v[b],
                    forall|b: int| i < b < j ==> v[i as int] != v[b],
                decreases n - j,
            {
                proof {
                    assert(v[i as int] == names@[i as int]@);
                    assert(v[j as int] == names@[j as int]@);
                }
                if names[i] == names[j] {
                    proof {
                        assert(v[i as int] == v[j as int]);
                        assert(!v.no_duplicates());
                    }
                    return false;
                }
                j = j + 1;
            }
            i = i + 1;
        }
        proof {
            assert forall|a: int, b: int| 0 <= a < v.len() && 0 <= b < v.len() && a != b implies v[a]
                != v[b] by {
                if a > b {
                    assert(v[b] != v[a]);
                }
            }
        }
        true
    }
}

} // verus!
