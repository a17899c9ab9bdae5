//! User-facing names: levels, drilldowns, measures, properties and cuts, with their
//! dotted token forms.

use vstd::prelude::*;
use crate::error::{ParseError, TokenKind};
use crate::text::{
    contains_char, joined, join_strings, lemma_joined_starts_with_first, lemma_split_after_sep,
    lemma_split_joined, lemma_split_no_sep, owned, split_on, split_str,
};

verus! {

/// A segment of a dotted name: not empty, and free of dots.
pub open spec fn segment_ok(s: Seq<char>) -> bool {
    s.len() > 0 && !s.contains('.')
}

pub struct LevelNameView {
    pub dimension: Seq<char>,
    pub hierarchy: Seq<char>,
    pub level: Seq<char>,
}

impl LevelNameView {
    pub open spec fn wf(self) -> bool {
        segment_ok(self.dimension) && segment_ok(self.hierarchy) && segment_ok(self.level)
    }

    /// The canonical form `Dim.Hier.Lvl`.
    pub open spec fn text(self) -> Seq<char> {
        joined(seq![self.dimension, self.hierarchy, self.level], seq!['.'])
    }
}

/// What `Dim.Hier.Lvl` or `Dim.Lvl`, cut at its dots into `parts`, names.
pub open spec fn level_name_of_parts(parts: Seq<Seq<char>>) -> Option<LevelNameView> {
    if parts.len() == 3 && parts[0].len() > 0 && parts[1].len() > 0 && parts[2].len() > 0 {
        Some(LevelNameView { dimension: parts[0], hierarchy: parts[1], level: parts[2] })
    } else if parts.len() == 2 && parts[0].len() > 0 && parts[1].len() > 0 {
        Some(LevelNameView { dimension: parts[0], hierarchy: parts[0], level: parts[1] })
    } else {
        None
    }
}

pub open spec fn parse_level_name_spec(s: Seq<char>) -> Option<LevelNameView> {
    level_name_of_parts(split_on(s, '.'))
}

/// A level, named by dimension, hierarchy and level.
#[derive(Debug)]
pub struct LevelName {
    pub dimension: String,
    pub hierarchy: String,
    pub level: String,
}

impl View for LevelName {
    type V = LevelNameView;

    open spec fn view(&self) -> LevelNameView {
        LevelNameView {
            dimension: self.dimension@,
            hierarchy: self.hierarchy@,
            level: self.level@,
        }
    }
}

impl Clone for LevelName {
    fn clone(&self) -> (r: Self)
        ensures
            r == *self,
    {
        LevelName {
            dimension: self.dimension.clone(),
            hierarchy: self.hierarchy.clone(),
            level: self.level.clone(),
        }
    }
}

impl PartialEq for LevelName {
    fn eq(&self, o: &LevelName) -> (r: bool) {
        self.dimension == o.dimension && self.hierarchy == o.hierarchy && self.level == o.level
    }
}

impl vstd::std_specs::cmp::PartialEqSpecImpl for LevelName {
    open spec fn obeys_eq_spec() -> bool {
        true
    }

    open spec fn eq_spec(&self, o: &LevelName) -> bool {
        self@ == o@
    }
}

/// The pieces of `parts`, at most three, as a level name; `None` for any other shape.
pub(crate) fn level_name_from_parts(parts: &Vec<String>) -> (r: Option<LevelName>)
    ensures
        match (r, level_name_of_parts(parts.deep_view())) {
            (Some(l), Some(v)) => l@ == v,
            (None, None) => true,
            _ => false,
        },
{
    let ghost p = parts.deep_view();
    proof {
        if parts.len() >= 1 {
            assert(p[0] == parts[0]@);
        }
        if parts.len() >= 2 {
            assert(p[1] == parts[1]@);
        }
        if parts.len() >= 3 {
            assert(p[2] == parts[2]@);
        }
    }
    if parts.len() == 3 && parts[0].as_str().unicode_len() > 0 && parts[1].as_str().unicode_len() > 0
        && parts[2].as_str().unicode_len() > 0 {
        Some(
            LevelName {
                dimension: parts[0].clone(),
                hierarchy: parts[1].clone(),
                level: parts[2].clone(),
            },
        )
    } else if parts.len() == 2 && parts[0].as_str().unicode_len() > 0 && parts[1].as_str().unicode_len()
        > 0 {
        Some(
            LevelName {
                dimension: parts[0].clone(),
                hierarchy: parts[0].clone(),
                level: parts[1].clone(),
            },
        )
    } else {
        None
    }
}

impl LevelName {
    pub fn new(dimension: &str, hierarchy: &str, level: &str) -> (r: LevelName)
        ensures
            r.dimension@ == dimension@,
            r.hierarchy@ == hierarchy@,
            r.level@ == level@,
    {
        LevelName {
            dimension: owned(dimension),
            hierarchy: owned(hierarchy),
            level: owned(level),
        }
    }

    /// Reads `Dim.Hier.Lvl`, or `Dim.Lvl` for the hierarchy named after its dimension.
    pub fn parse(s: &str) -> (r: Result<LevelName, ParseError>)
        ensures
            match r {
                Ok(l) => parse_level_name_spec(s@) == Some(l@),
                Err(e) => parse_level_name_spec(s@) is None && e.kind == TokenKind::LevelName
                    && e.token@ == s@,
            },
    {
        let parts = split_str(s, '.');
        match level_name_from_parts(&parts) {
            Some(l) => Ok(l),
            None => Err(ParseError::new(TokenKind::LevelName, s)),
        }
    }

    /// The canonical form `Dim.Hier.Lvl`.
    pub fn to_string(&self) -> (r: String)
        ensures
            r@ == self@.text(),
    {
        let parts = vec![self.dimension.clone(), self.hierarchy.clone(), self.level.clone()];
        proof {
            assert(parts.deep_view() =~= seq![self.dimension@, self.hierarchy@, self.level@]);
        }
        let r = join_strings(&parts, ".");
        proof {
            reveal_strlit(".");
            assert(".".view() =~= seq!['.']);
        }
        r
    }
}

/// The canonical form of a well-formed level name reads back as that name.
pub proof fn lemma_level_name_round_trip(l: LevelNameView)
    requires
        l.wf(),
    ensures
        parse_level_name_spec(l.text()) == Some(l),
{
    let parts = seq![l.dimension, l.hierarchy, l.level];
    assert forall|i: int| 0 <= i < parts.len() implies !(#[trigger] parts[i]).contains('.') by {}
    lemma_split_joined(parts, '.');
}


/// A drilldown: a request to group the results by a level.
#[derive(Debug)]
pub struct Drilldown(pub LevelName);

impl View for Drilldown {
    type V = LevelNameView;

    open spec fn view(&self) -> LevelNameView {
        self.0@
    }
}

impl Clone for Drilldown {
    fn clone(&self) -> (r: Self)
        ensures
            r == *self,
    {
        Drilldown(self.0.clone())
    }
}

impl PartialEq for Drilldown {
    fn eq(&self, o: &Drilldown) -> (r: bool) {
        self.0 == o.0
    }
}

impl vstd::std_specs::cmp::PartialEqSpecImpl for Drilldown {
    open spec fn obeys_eq_spec() -> bool {
        true
    }

    open spec fn eq_spec(&self, o: &Drilldown) -> bool {
        self@ == o@
    }
}

impl Drilldown {
    pub fn new(dimension: &str, hierarchy: &str, level: &str) -> (r: Drilldown)
        ensures
            r@ == (LevelNameView { dimension: dimension@, hierarchy: hierarchy@, level: level@ }),
    {
        Drilldown(LevelName::new(dimension, hierarchy, level))
    }

    /// Reads a drilldown, which has the grammar of a level name.
    pub fn parse(s: &str) -> (r: Result<Drilldown, ParseError>)
        ensures
            match r {
                Ok(d) => parse_level_name_spec(s@) == Some(d@),
                Err(e) => parse_level_name_spec(s@) is None && e.kind == TokenKind::LevelName
                    && e.token@ == s@,
            },
    {
        match LevelName::parse(s) {
            Ok(l) => Ok(Drilldown(l)),
            Err(e) => Err(e),
        }
    }

    pub fn to_string(&self) -> (r: String)
        ensures
            r@ == self@.text(),
    {
        self.0.to_string()
    }
}

pub open spec fn parse_measure_spec(s: Seq<char>) -> Option<Seq<char>> {
    if segment_ok(s) {
        Some(s)
    } else {
        None
    }
}

/// A measure, by name.
#[derive(Debug)]
pub struct Measure(pub String);

impl View for Measure {
    type V = Seq<char>;

    open spec fn view(&self) -> Seq<char> {
        self.0@
    }
}

impl Clone for Measure {
    fn clone(&self) -> (r: Self)
        ensures
            r == *self,
    {
        Measure(self.0.clone())
    }
}

impl PartialEq for Measure {
    fn eq(&self, o: &Measure) -> (r: bool) {
        self.0 == o.0
    }
}

impl vstd::std_specs::cmp::PartialEqSpecImpl for Measure {
    open spec fn obeys_eq_spec() -> bool {
        true
    }

    open spec fn eq_spec(&self, o: &Measure) -> bool {
        self@ == o@
    }
}

impl Measure {
    pub fn new(name: &str) -> (r: Measure)
        ensures
            r@ == name@,
    {
        Measure(owned(name))
    }

    /// Reads a measure name: not empty, without dots.
    pub fn parse(s: &str) -> (r: Result<Measure, ParseError>)
        ensures
            match r {
                Ok(m) => parse_measure_spec(s@) == Some(m@),
                Err(e) => parse_measure_spec(s@) is None && e.kind == TokenKind::Measure
                    && e.token@ == s@,
            },
    {
        if s.unicode_len() == 0 || contains_char(s, '.') {
            Err(ParseError::new(TokenKind::Measure, s))
        } else {
            Ok(Measure(owned(s)))
        }
    }

    pub fn to_string(&self) -> (r: String)
        ensures
            r@ == self@,
    {
        self.0.clone()
    }
}

pub struct PropertyView {
    pub level: LevelNameView,
    pub property: Seq<char>,
}

impl PropertyView {
    pub open spec fn wf(self) -> bool {
        self.level.wf() && segment_ok(self.property)
    }

    /// The canonical form `Dim.Hier.Lvl.Prop`.
    pub open spec fn text(self) -> Seq<char> {
        joined(
            seq![self.level.dimension, self.level.hierarchy, self.level.level, self.property],
            seq!['.'],
        )
    }
}

/// What `LevelName.PropName` names: the level before the last dot, the property after.
pub open spec fn parse_property_spec(s: Seq<char>) -> Option<PropertyView> {
    let p = split_on(s, '.');
    if (p.len() == 3 || p.len() == 4) && p.last().len() > 0 {
        match level_name_of_parts(p.drop_last()) {
            Some(l) => Some(PropertyView { level: l, property: p.last() }),
            None => None,
        }
    } else {
        None
    }
}

/// A property column of a level.
#[derive(Debug)]
pub struct Property {
    pub level_name: LevelName,
    pub property: String,
}

impl View for Property {
    type V = PropertyView;

    open spec fn view(&self) -> PropertyView {
        PropertyView { level: self.level_name@, property: self.property@ }
    }
}

impl Clone for Property {
    fn clone(&self) -> (r: Self)
        ensures
            r == *self,
    {
        Property { level_name: self.level_name.clone(), property: self.property.clone() }
    }
}

impl PartialEq for Property {
    fn eq(&self, o: &Property) -> (r: bool) {
        self.level_name == o.level_name && self.property == o.property
    }
}

impl vstd::std_specs::cmp::PartialEqSpecImpl for Property {
    open spec fn obeys_eq_spec() -> bool {
        true
    }

    open spec fn eq_spec(&self, o: &Property) -> bool {
        self@ == o@
    }
}

impl Property {
    pub fn new(level_name: LevelName, property: &str) -> (r: Property)
        ensures
            r@ == (PropertyView { level: level_name@, property: property@ }),
    {
        Property { level_name, property: owned(property) }
    }

    /// Reads `LevelName.PropName`.
    pub fn parse(s: &str) -> (r: Result<Property, ParseError>)
        ensures
            match r {
                Ok(p) => parse_property_spec(s@) == Some(p@),
                Err(e) => parse_property_spec(s@) is None && e.kind == TokenKind::Property
                    && e.token@ == s@,
            },
    {
        let mut parts = split_str(s, '.');
        let ghost all = parts.deep_view();
        if parts.len() != 3 && parts.len() != 4 {
            return Err(ParseError::new(TokenKind::Property, s));
        }
        let property = parts.pop().unwrap();
        proof {
            assert(parts.deep_view() =~= all.drop_last());
            assert(all.last() == property@);
        }
        if property.as_str().unicode_len() == 0 {
            return Err(ParseError::new(TokenKind::Property, s));
        }
        match level_name_from_parts(&parts) {
            Some(level_name) => Ok(Property { level_name, property }),
            None => Err(ParseError::new(TokenKind::Property, s)),
        }
    }

    /// The canonical form `Dim.Hier.Lvl.Prop`.
    pub fn to_string(&self) -> (r: String)
        ensures
            r@ == self@.text(),
    {
        let parts = vec![
            self.level_name.dimension.clone(),
            self.level_name.hierarchy.clone(),
            self.level_name.level.clone(),
            self.property.clone(),
        ];
        proof {
            assert(parts.deep_view() =~= seq![
                self.level_name.dimension@,
                self.level_name.hierarchy@,
                self.level_name.level@,
                self.property@,
            ]);
        }
        let r = join_strings(&parts, ".");
        proof {
            reveal_strlit(".");
            assert(".".view() =~= seq!['.']);
        }
        r
    }
}

/// The canonical form of a well-formed property reads back as that property.
pub proof fn lemma_property_round_trip(p: PropertyView)
    requires
        p.wf(),
    ensures
        parse_property_spec(p.text()) == Some(p),
{
    let parts = seq![p.level.dimension, p.level.hierarchy, p.level.level, p.property];
    assert forall|i: int| 0 <= i < parts.len() implies !(#[trigger] parts[i]).contains('.') by {}
    lemma_split_joined(parts, '.');
    assert(parts.drop_last() =~= seq![p.level.dimension, p.level.hierarchy, p.level.level]);
}


/// Whether a cut keeps or drops its members.
#[derive(Debug, Clone, Copy, PartialEq, Eq, Structural)]
pub enum Mask {
    Include,
    Exclude,
}

pub struct CutView {
    pub level: LevelNameView,
    pub members: Seq<Seq<char>>,
    pub mask: Mask,
    pub for_match: bool,
}

/// A member that a cut token can carry: no comma, no colon.
pub open spec fn member_ok(m: Seq<char>) -> bool {
    !m.contains(',') && !m.contains(':')
}

impl CutView {
    /// A cut that its token form describes exactly.
    pub open spec fn wf(self) -> bool {
        &&& self.level.wf()
        &&& !self.level.dimension.contains(':')
        &&& !self.level.hierarchy.contains(':')
        &&& !self.level.level.contains(':')
        &&& self.members.len() >= 1
        &&& forall|i: int| 0 <= i < self.members.len() ==> member_ok(#[trigger] self.members[i])
        &&& self.mask == Mask::Include ==> (self.members[0].len() == 0 || self.members[0][0] != '~')
        &&& !self.for_match
    }

    /// The members with the `~` that marks an exclusion.
    pub open spec fn members_text(self) -> Seq<char> {
        if self.mask == Mask::Exclude {
            seq!['~'] + joined(self.members, seq![','])
        } else {
            joined(self.members, seq![','])
        }
    }

    /// The canonical form `Dim.Hier.Lvl:m1,m2`, with `~` after the colon for an
    /// exclusion.
    pub open spec fn text(self) -> Seq<char> {
        self.level.text() + seq![':'] + self.members_text()
    }
}

/// The mask and members that the part of a cut after its colon gives.
pub open spec fn cut_members_spec(m: Seq<char>) -> (Mask, Seq<Seq<char>>) {
    if m.len() > 0 && m[0] == '~' {
        (Mask::Exclude, split_on(m.skip(1), ','))
    } else {
        (Mask::Include, split_on(m, ','))
    }
}

/// What `LevelName:[~]m1,m2,...` describes.
pub open spec fn parse_cut_spec(s: Seq<char>) -> Option<CutView> {
    let p = split_on(s, ':');
    if p.len() == 2 {
        match parse_level_name_spec(p[0]) {
            Some(l) => Some(
                CutView {
                    level: l,
                    members: cut_members_spec(p[1]).1,
                    mask: cut_members_spec(p[1]).0,
                    for_match: false,
                },
            ),
            None => None,
        }
    } else {
        None
    }
}

/// A filter on the members of a level.
#[derive(Debug)]
pub struct Cut {
    pub level_name: LevelName,
    pub members: Vec<String>,
    pub mask: Mask,
    pub for_match: bool,
}

impl View for Cut {
    type V = CutView;

    open spec fn view(&self) -> CutView {
        CutView {
            level: self.level_name@,
            members: self.members.deep_view(),
            mask: self.mask,
            for_match: self.for_match,
        }
    }
}

impl Clone for Cut {
    fn clone(&self) -> (r: Self)
        ensures
            r@ == self@,
    {
        let members = self.members.clone();
        proof {
            assert(members.deep_view() =~= self.members.deep_view());
        }
        Cut {
            level_name: self.level_name.clone(),
            members,
            mask: self.mask,
            for_match: self.for_match,
        }
    }
}

impl Cut {
    pub fn new(level_name: LevelName, members: Vec<String>, mask: Mask, for_match: bool) -> (r: Cut)
        ensures
            r@ == (CutView {
                level: level_name@,
                members: members.deep_view(),
                mask,
                for_match,
            }),
    {
        Cut { level_name, members, mask, for_match }
    }

    /// Reads `LevelName:m1,m2,...`, or `LevelName:~m1,m2,...` to exclude the members.
    pub fn parse(s: &str) -> (r: Result<Cut, ParseError>)
        ensures
            match r {
                Ok(c) => parse_cut_spec(s@) == Some(c@),
                Err(e) => parse_cut_spec(s@) is None && e.kind == TokenKind::Cut && e.token@ == s@,
            },
    {
        let parts = split_str(s, ':');
        if parts.len() != 2 {
            return Err(ParseError::new(TokenKind::Cut, s));
        }
        proof {
            assert(parts.deep_view()[0] == parts[0]@);
            assert(parts.deep_view()[1] == parts[1]@);
        }
        let level_name = match LevelName::parse(parts[0].as_str()) {
            Ok(l) => l,
            Err(_) => {
                return Err(ParseError::new(TokenKind::Cut, s));
            },
        };
        let m = parts[1].as_str();
        let n = m.unicode_len();
        if n > 0 && m.get_char(0) == '~' {
            let members = split_str(m.substring_char(1, n), ',');
            proof {
                assert(m@.subrange(1, n as int) =~= m@.skip(1));
            }
            Ok(Cut { level_name, members, mask: Mask::Exclude, for_match: false })
        } else {
            let members = split_str(m, ',');
            Ok(Cut { level_name, members, mask: Mask::Include, for_match: false })
        }
    }

    /// The canonical form of the cut.
    pub fn to_string(&self) -> (r: String)
        ensures
            r@ == self@.text(),
    {
        let mut r = self.level_name.to_string();
        proof {
            reveal_strlit(":");
            reveal_strlit("~");
            reveal_strlit(",");
            assert(":".view() =~= seq![':']);
            assert("~".view() =~= seq!['~']);
            assert(",".view() =~= seq![',']);
        }
        r.append(":");
        if self.mask == Mask::Exclude {
            r.append("~");
        }
        let members = join_strings(&self.members, ",");
        r.append(members.as_str());
        proof {
            if self.mask == Mask::Exclude {
                assert(r@ =~= self@.text());
            } else {
                assert(r@ =~= self@.text());
            }
        }
        r
    }
}

/// The canonical form of a well-formed cut reads back as that cut.
#[verifier::rlimit(30)]
pub proof fn lemma_cut_round_trip(c: CutView)
    requires
        c.wf(),
    ensures
        parse_cut_spec(c.text()) == Some(c),
{
    let l = c.level.text();
    let parts = seq![c.level.dimension, c.level.hierarchy, c.level.level];
    lemma_level_name_round_trip(c.level);
    assert(!l.contains(':')) by {
        lemma_joined_no_char(parts, seq!['.'], ':');
    }
    let m = c.members_text();
    let j = joined(c.members, seq![',']);
    assert(!m.contains(':')) by {
        assert forall|i: int| 0 <= i < c.members.len() implies !(#[trigger] c.members[i]).contains(
            ':',
        ) by {
            assert(member_ok(c.members[i]));
        }
        lemma_joined_no_char(c.members, seq![','], ':');
        if c.mask == Mask::Exclude {
            if m.contains(':') {
                let k = choose|k: int| 0 <= k < m.len() && m[k] == ':';
                assert(j[k - 1] == ':');
            }
        }
    }
    lemma_split_no_sep(l, ':');
    lemma_split_after_sep(l, m, ':');
    assert(split_on(c.text(), ':') =~= seq![l, m]);
    assert forall|i: int| 0 <= i < c.members.len() implies !(#[trigger] c.members[i]).contains(
        ',',
    ) by {
        assert(member_ok(c.members[i]));
    }
    lemma_split_joined(c.members, ',');
    if c.mask == Mask::Exclude {
        assert(m.skip(1) =~= j);
    } else {
        lemma_joined_starts_with_first(c.members, seq![',']);
        if m.len() > 0 {
            if c.members[0].len() > 0 {
                assert(m[0] == j.take(c.members[0].len() as int)[0]);
            } else if c.members.len() > 1 {
                assert(m[0] != '~') by {
                    lemma_joined_first_char_empty_head(c.members, seq![',']);
                }
            } else {
                assert(m =~= c.members[0]);
            }
        }
    }
}

/// A character that neither the pieces nor the separator hold is not in `joined`.
pub proof fn lemma_joined_no_char(parts: Seq<Seq<char>>, sep: Seq<char>, x: char)
    requires
        !sep.contains(x),
        forall|i: int| 0 <= i < parts.len() ==> !(#[trigger] parts[i]).contains(x),
    ensures
        !joined(parts, sep).contains(x),
    decreases parts.len(),
{
    if parts.len() == 1 {
        assert(!parts[0].contains(x));
    } else if parts.len() > 1 {
        let init = parts.drop_last();
        assert forall|i: int| 0 <= i < init.len() implies !(#[trigger] init[i]).contains(x) by {
            assert(init[i] == parts[i]);
        }
        lemma_joined_no_char(init, sep, x);
        let a = joined(init, sep);
        let b = parts.last();
        assert(!b.contains(x)) by {
            assert(parts[parts.len() - 1] == b);
        }
        let t = a + sep + b;
        if t.contains(x) {
            let k = choose|k: int| 0 <= k < t.len() && t[k] == x;
            if k < a.len() {
                assert(a[k] == x);
            } else if k < a.len() + sep.len() {
                assert(sep[k - a.len()] == x);
            } else {
                assert(b[k - a.len() - sep.len()] == x);
            }
        }
    }
}

/// Where the first of two or more pieces is empty, `joined` begins with the separator.
pub proof fn lemma_joined_first_char_empty_head(parts: Seq<Seq<char>>, sep: Seq<char>)
    requires
        parts.len() >= 2,
        parts[0].len() == 0,
        sep.len() >= 1,
    ensures
        joined(parts, sep).len() >= 1,
        joined(parts, sep)[0] == sep[0],
    decreases parts.len(),
{
    let init = parts.drop_last();
    if parts.len() == 2 {
        assert(joined(init, sep) =~= Seq::<char>::empty());
        assert((joined(init, sep) + sep + parts.last())[0] == sep[0]);
    } else {
        lemma_joined_first_char_empty_head(init, sep);
        assert((joined(init, sep) + sep + parts.last())[0] == joined(init, sep)[0]);
    }
}

} // verus!
