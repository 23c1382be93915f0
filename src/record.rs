//! Sample records: the document tree they come from, their attributes, and
//! the resolved dates, depth and coordinates.
use crate::calendar::{is_spreadsheet_day, Timestamp};
use crate::coords::{lat_lon_text, parse_lat_lon_combined};
use crate::dates::{later_forms, parse_datetime, spreadsheet_form};
use crate::depth::{depth_result, parse_depth, Meters};
use crate::tags::{class_of, classify, TagClass};
use crate::text::{lit, same_text, starts_with_text, string_of, value_at};
use vstd::prelude::*;

verus! {

/// The input paths that a run works through.
#[derive(Debug)]
pub struct Config {
    pub input: Vec<String>,
}

/// One element of a sample document: its name, its text and its children.
#[derive(Debug)]
pub struct DocNode {
    pub name: String,
    pub text: Option<String>,
    pub children: Vec<DocNode>,
}

/// An attribute of a sample: a tag, a value and maybe a unit.
#[derive(Debug)]
pub struct Attr {
    pub tag: String,
    pub value: String,
    pub units: Option<String>,
}

/// An attribute value that reads as a date, with the attribute's tag, and
/// whether that tag also names a date.
#[derive(Debug)]
pub struct PossibleDate {
    pub tag: String,
    pub value: Timestamp,
    pub tag_ok: bool,
}

/// Coordinates of a sample: the first combined latitude-longitude attribute
/// converted to decimal degrees, and the values of the first latitude and
/// longitude attributes as written (recognised by tag, not converted).
#[derive(Debug)]
pub struct LatLon {
    pub combined: Option<(String, String)>,
    pub latitude: Option<String>,
    pub longitude: Option<String>,
}

/// What is extracted of one sample.
#[derive(Debug)]
pub struct SampleRecord {
    pub id: String,
    pub runs: Vec<String>,
    pub dates: Vec<PossibleDate>,
    pub depth: Option<Meters>,
    pub lat_lon: LatLon,
}

/// Why a document gives no record.
#[derive(Clone, Copy, Debug, PartialEq, Eq, Structural)]
pub enum ExtractError {
    MissingIdentifiers,
    MissingPrimaryId,
    MissingPrimaryIdValue,
    MissingAttributes,
}

impl ExtractError {
    /// A line for people.
    pub fn message(&self) -> (r: String)
        ensures
            r@ == match self {
                ExtractError::MissingIdentifiers => "Missing IDENTIFIERS"@,
                ExtractError::MissingPrimaryId => "Missing PRIMARY_ID node"@,
                ExtractError::MissingPrimaryIdValue => "Missing PRIMARY_ID value"@,
                ExtractError::MissingAttributes => "Missing SAMPLE_ATTRIBUTES"@,
            },
    {
        match self {
            ExtractError::MissingIdentifiers => String::from_str("Missing IDENTIFIERS"),
            ExtractError::MissingPrimaryId => String::from_str("Missing PRIMARY_ID node"),
            ExtractError::MissingPrimaryIdValue => String::from_str("Missing PRIMARY_ID value"),
            ExtractError::MissingAttributes => String::from_str("Missing SAMPLE_ATTRIBUTES"),
        }
    }
}

/// Index of the first of `nodes` from `k` on that is named `name`, or the
/// length of `nodes`.
pub open spec fn first_named(nodes: Seq<DocNode>, name: Seq<char>, k: int) -> int
    decreases nodes.len() - k,
{
    if k >= nodes.len() {
        nodes.len() as int
    } else if nodes[k].name@ == name {
        k
    } else {
        first_named(nodes, name, k + 1)
    }
}

/// The first child of `n` named `name`.
pub open spec fn find_child(n: DocNode, name: Seq<char>) -> Option<DocNode> {
    let k = first_named(n.children@, name, 0);
    if 0 <= k < n.children@.len() {
        Some(n.children@[k])
    } else {
        None
    }
}

/// The text of the first child of `n` named `name`.
pub open spec fn child_text(n: DocNode, name: Seq<char>) -> Option<Seq<char>> {
    match find_child(n, name) {
        Some(c) => match c.text {
            Some(s) => Some(s@),
            None => None,
        },
        None => None,
    }
}

pub open spec fn opt_view(o: Option<String>) -> Option<Seq<char>> {
    match o {
        Some(s) => Some(s@),
        None => None,
    }
}

impl DocNode {
    /// The first child named `name`.
    pub fn get_child(&self, name: &str) -> (r: Option<&DocNode>)
        ensures
            match find_child(*self, name@) {
                Some(c) => r matches Some(x) && *x == c,
                None => r is None,
            },
    {
        let mut k: usize = 0;
        while k < self.children.len()
            invariant
                k <= self.children@.len(),
                first_named(self.children@, name@, 0) == first_named(self.children@, name@, k as int),
            decreases self.children.len() - k,
        {
            if same_text(self.children[k].name.as_str(), name) {
                return Some(&self.children[k]);
            }
            k = k + 1;
        }
        None
    }
}

/// The text of the first child of `element` named `tag`.
pub fn get_child_text(element: &DocNode, tag: &str) -> (r: Option<String>)
    ensures
        opt_view(r) == child_text(*element, tag@),
{
    match element.get_child(tag) {
        Some(c) => match &c.text {
            Some(s) => Some(s.clone()),
            None => None,
        },
        None => None,
    }
}

/// The text of `IDENTIFIERS/PRIMARY_ID`, or why there is none.
pub open spec fn primary_id_of(root: DocNode) -> Result<Seq<char>, ExtractError> {
    match find_child(root, "IDENTIFIERS"@) {
        None => Err(ExtractError::MissingIdentifiers),
        Some(ids) => match find_child(ids, "PRIMARY_ID"@) {
            None => Err(ExtractError::MissingPrimaryId),
            Some(p) => match p.text {
                None => Err(ExtractError::MissingPrimaryIdValue),
                Some(s) => Ok(s@),
            },
        },
    }
}

/// The sample's primary identifier.
pub fn get_primary_id(root: &DocNode) -> (r: Result<String, ExtractError>)
    ensures
        match primary_id_of(*root) {
            Ok(s) => r matches Ok(x) && x@ == s,
            Err(e) => r == Err::<String, ExtractError>(e),
        },
{
    let ids = match root.get_child("IDENTIFIERS") {
        Some(x) => x,
        None => return Err(ExtractError::MissingIdentifiers),
    };
    let pid = match ids.get_child("PRIMARY_ID") {
        Some(p) => p,
        None => return Err(ExtractError::MissingPrimaryId),
    };
    match &pid.text {
        Some(s) => Ok(s.clone()),
        None => Err(ExtractError::MissingPrimaryIdValue),
    }
}

/// The pieces of `s` between commas, empty ones included (a text without a
/// comma is one piece).
pub open spec fn split_commas(s: Seq<char>) -> Seq<Seq<char>>
    decreases s.len(),
{
    if s.len() == 0 {
        seq![Seq::empty()]
    } else {
        let init = split_commas(s.drop_last());
        if s.last() == ',' {
            init.push(Seq::empty())
        } else {
            init.update(init.len() - 1, init.last().push(s.last()))
        }
    }
}

pub proof fn lemma_split_commas_nonempty(s: Seq<char>)
    ensures
        split_commas(s).len() >= 1,
    decreases s.len(),
{
    if s.len() > 0 {
        lemma_split_commas_nonempty(s.drop_last());
    }
}

pub open spec fn texts(v: Seq<String>) -> Seq<Seq<char>> {
    v.map_values(|s: String| s@)
}

/// Appends the comma-separated pieces of `s` to `out`.
fn push_comma_pieces(s: &String, out: &mut Vec<String>)
    ensures
        texts(final(out)@) == texts(old(out)@) + split_commas(s@),
{
    let t = crate::text::chars_of(s.as_str());
    let mut cur: Vec<char> = Vec::new();
    let mut done: Vec<String> = Vec::new();
    let mut k: usize = 0;
    proof {
        assert(t@.subrange(0, 0) =~= Seq::<char>::empty());
        assert(texts(done@).push(cur@) =~= split_commas(t@.subrange(0, 0)));
    }
    while k < t.len()
        invariant
            k <= t.len(),
            t@ == s@,
            texts(done@).push(cur@) == split_commas(t@.subrange(0, k as int)),
        decreases t.len() - k,
    {
        let ghost before = t@.subrange(0, k as int);
        proof {
            assert(t@.subrange(0, k + 1).drop_last() =~= before);
            lemma_split_commas_nonempty(before);
        }
        if t[k] == ',' {
            done.push(string_of(&cur));
            cur = Vec::new();
            proof {
                assert(texts(done@).push(cur@) =~= split_commas(before).push(Seq::empty()));
            }
        } else {
            cur.push(t[k]);
            proof {
                assert(texts(done@).push(cur@) =~= split_commas(before).update(
                    split_commas(before).len() - 1,
                    split_commas(before).last().push(t@[k as int]),
                ));
            }
        }
        k = k + 1;
    }
    done.push(string_of(&cur));
    proof {
        assert(t@.subrange(0, k as int) =~= s@);
    }
    let ghost before = out@;
    out.append(&mut done);
    assert(texts(out@) =~= texts(before) + split_commas(s@));
}


/// Run identifiers of one sample link: the comma-separated `ID` of its
/// `XREF_LINK` when that link's `DB` reads `ENA-RUN`.
pub open spec fn link_runs(link: DocNode) -> Seq<Seq<char>> {
    match find_child(link, "XREF_LINK"@) {
        Some(x) => if child_text(x, "DB"@) == Some("ENA-RUN"@) {
            match child_text(x, "ID"@) {
                Some(ids) => split_commas(ids),
                None => Seq::empty(),
            }
        } else {
            Seq::empty()
        },
        None => Seq::empty(),
    }
}

pub open spec fn runs_in(links: Seq<DocNode>) -> Seq<Seq<char>>
    decreases links.len(),
{
    if links.len() == 0 {
        Seq::empty()
    } else {
        runs_in(links.drop_last()) + link_runs(links.last())
    }
}

/// The run identifiers under `SAMPLE_LINKS`, in document order.
pub open spec fn runs_of(root: DocNode) -> Seq<Seq<char>> {
    match find_child(root, "SAMPLE_LINKS"@) {
        Some(links) => runs_in(links.children@),
        None => Seq::empty(),
    }
}

/// The identifiers of the runs linked to the sample.
pub fn get_runs(root: &DocNode) -> (r: Vec<String>)
    ensures
        texts(r@) == runs_of(*root),
{
    let mut runs: Vec<String> = Vec::new();
    let links = match root.get_child("SAMPLE_LINKS") {
        Some(l) => l,
        None => return runs,
    };
    let mut k: usize = 0;
    while k < links.children.len()
        invariant
            k <= links.children@.len(),
            texts(runs@) == runs_in(links.children@.subrange(0, k as int)),
        decreases links.children.len() - k,
    {
        let link = &links.children[k];
        proof {
            assert(links.children@.subrange(0, k + 1).drop_last() =~= links.children@.subrange(0, k as int));
        }
        if let Some(xref) = link.get_child("XREF_LINK") {
            if let Some(db) = get_child_text(xref, "DB") {
                if same_text(db.as_str(), "ENA-RUN") {
                    if let Some(ids) = get_child_text(xref, "ID") {
                        push_comma_pieces(&ids, &mut runs);
                    }
                }
            }
        }
        k = k + 1;
        assert(texts(runs@) =~= runs_in(links.children@.subrange(0, k as int)));
    }
    assert(links.children@.subrange(0, k as int) =~= links.children@);
    runs
}

/// An attribute as plain text: tag, value and unit.
pub open spec fn attr_view(a: Attr) -> (Seq<char>, Seq<char>, Option<Seq<char>>) {
    (a.tag@, a.value@, opt_view(a.units))
}

pub open spec fn attr_views(a: Seq<Attr>) -> Seq<(Seq<char>, Seq<char>, Option<Seq<char>>)> {
    a.map_values(|x: Attr| attr_view(x))
}

/// The attribute that an element describes through its `TAG`, `VALUE` and
/// `UNITS` children; none without a tag or a value, or when the tag starts
/// with `skip`.
pub open spec fn attr_of(node: DocNode, skip: Option<Seq<char>>) -> Option<(Seq<char>, Seq<char>, Option<Seq<char>>)> {
    match child_text(node, "TAG"@) {
        None => None,
        Some(tag) => if skip matches Some(p) && lit(tag, 0, p) >= 0 {
            None
        } else {
            match child_text(node, "VALUE"@) {
                None => None,
                Some(v) => Some((tag, v, child_text(node, "UNITS"@))),
            }
        },
    }
}

pub open spec fn attrs_in(nodes: Seq<DocNode>, skip: Option<Seq<char>>) -> Seq<(Seq<char>, Seq<char>, Option<Seq<char>>)>
    decreases nodes.len(),
{
    if nodes.len() == 0 {
        Seq::empty()
    } else {
        let init = attrs_in(nodes.drop_last(), skip);
        match attr_of(nodes.last(), skip) {
            Some(a) => init.push(a),
            None => init,
        }
    }
}

pub open spec fn str_view(o: Option<&str>) -> Option<Seq<char>> {
    match o {
        Some(s) => Some(s@),
        None => None,
    }
}

/// The attributes under `SAMPLE_ATTRIBUTES`, in document order, leaving out
/// those whose tag starts with `skip`.
pub fn get_attributes(root: &DocNode, skip: Option<&str>) -> (r: Result<Vec<Attr>, ExtractError>)
    ensures
        match find_child(*root, "SAMPLE_ATTRIBUTES"@) {
            Some(a) => r matches Ok(v) && attr_views(v@) == attrs_in(a.children@, str_view(skip)),
            None => r matches Err(e) && e == ExtractError::MissingAttributes,
        },
{
    let attributes = match root.get_child("SAMPLE_ATTRIBUTES") {
        Some(a) => a,
        None => return Err(ExtractError::MissingAttributes),
    };
    let mut attrs: Vec<Attr> = Vec::new();
    let mut k: usize = 0;
    while k < attributes.children.len()
        invariant
            k <= attributes.children@.len(),
            attr_views(attrs@) == attrs_in(attributes.children@.subrange(0, k as int), str_view(skip)),
        decreases attributes.children.len() - k,
    {
        let node = &attributes.children[k];
        proof {
            assert(attributes.children@.subrange(0, k + 1).drop_last() =~= attributes.children@.subrange(0, k as int));
        }
        let ghost before = attrs@;
        if let Some(tag) = get_child_text(node, "TAG") {
            let skipped = match skip {
                Some(p) => starts_with_text(tag.as_str(), p),
                None => false,
            };
            if !skipped {
                if let Some(value) = get_child_text(node, "VALUE") {
                    attrs.push(Attr { tag, value, units: get_child_text(node, "UNITS") });
                    assert(attr_views(attrs@) =~= attr_views(before).push(attr_view(attrs@.last())));
                }
            }
        }
        k = k + 1;
    }
    assert(attributes.children@.subrange(0, k as int) =~= attributes.children@);
    Ok(attrs)
}


/// Index of the first attribute from `k` on whose tag is of class `c`, or the
/// number of attributes.
pub open spec fn first_tagged(attrs: Seq<(Seq<char>, Seq<char>, Option<Seq<char>>)>, c: TagClass, k: int) -> int
    decreases attrs.len() - k,
{
    if k >= attrs.len() {
        attrs.len() as int
    } else if class_of(attrs[k].0) == c {
        k
    } else {
        first_tagged(attrs, c, k + 1)
    }
}

fn first_tagged_exec(attrs: &Vec<Attr>, c: TagClass) -> (r: usize)
    ensures
        r == first_tagged(attr_views(attrs@), c, 0),
        r <= attrs.len(),
{
    let mut k: usize = 0;
    while k < attrs.len()
        invariant
            k <= attrs@.len(),
            first_tagged(attr_views(attrs@), c, 0) == first_tagged(attr_views(attrs@), c, k as int),
        decreases attrs.len() - k,
    {
        if classify(attrs[k].tag.as_str()) == c {
            return k;
        }
        k = k + 1;
    }
    k
}

/// The depth of a sample: that of the first attribute tagged as a depth,
/// whatever later ones say.
pub open spec fn depth_matches(d: Option<Meters>, attrs: Seq<(Seq<char>, Seq<char>, Option<Seq<char>>)>) -> bool {
    let k = first_tagged(attrs, TagClass::Depth, 0);
    d == if k < attrs.len() {
        depth_result(attrs[k].1)
    } else {
        None
    }
}

/// The depth, in metres, given by the first attribute tagged as a depth.
pub fn get_depth(attrs: &Vec<Attr>) -> (r: Option<Meters>)
    ensures
        depth_matches(r, attr_views(attrs@)),
{
    let k = first_tagged_exec(attrs, TagClass::Depth);
    if k < attrs.len() {
        parse_depth(attrs[k].value.as_str())
    } else {
        None
    }
}

/// A value that some date grammar takes.
pub open spec fn is_date_text(t: Seq<char>) -> bool {
    spreadsheet_form(t) || later_forms(t) is Some
}

/// `ts` is what `parse_datetime` gives for `t`.
pub open spec fn date_fits(t: Seq<char>, ts: Timestamp) -> bool {
    if spreadsheet_form(t) {
        is_spreadsheet_day(value_at(t, 0, 5) as int, ts)
    } else {
        later_forms(t) == Some(ts)
    }
}

/// Indices of the attributes whose values read as dates, in order.
pub open spec fn date_sources(attrs: Seq<(Seq<char>, Seq<char>, Option<Seq<char>>)>) -> Seq<int>
    decreases attrs.len(),
{
    if attrs.len() == 0 {
        Seq::empty()
    } else {
        let init = date_sources(attrs.drop_last());
        if is_date_text(attrs.last().1) {
            init.push(attrs.len() - 1)
        } else {
            init
        }
    }
}

pub proof fn lemma_date_sources_in_range(attrs: Seq<(Seq<char>, Seq<char>, Option<Seq<char>>)>)
    ensures
        forall|k: int| 0 <= k < date_sources(attrs).len() ==> 0 <= #[trigger] date_sources(attrs)[k] < attrs.len(),
    decreases attrs.len(),
{
    if attrs.len() > 0 {
        let init = date_sources(attrs.drop_last());
        lemma_date_sources_in_range(attrs.drop_last());
        assert forall|k: int| 0 <= k < date_sources(attrs).len() implies 0 <= #[trigger] date_sources(attrs)[k] < attrs.len() by {
            if k < init.len() {
                assert(date_sources(attrs)[k] == init[k]);
            }
        }
    }
}

/// One candidate for every attribute whose value reads as a date, in order:
/// its tag, its instant, and whether the tag names a date too.
pub open spec fn dates_match(dates: Seq<PossibleDate>, attrs: Seq<(Seq<char>, Seq<char>, Option<Seq<char>>)>) -> bool {
    let src = date_sources(attrs);
    &&& dates.len() == src.len()
    &&& forall|k: int| 0 <= k < dates.len() ==> {
        let a = #[trigger] attrs[src[k]];
        &&& dates[k].tag@ == a.0
        &&& dates[k].tag_ok == (class_of(a.0) == TagClass::Date)
        &&& date_fits(a.1, dates[k].value)
    }
}

/// Every attribute value that reads as a date, with its tag.
pub fn get_dates(attrs: &Vec<Attr>) -> (r: Vec<PossibleDate>)
    ensures
        dates_match(r@, attr_views(attrs@)),
{
    let ghost all = attr_views(attrs@);
    let mut dates: Vec<PossibleDate> = Vec::new();
    let mut i: usize = 0;
    while i < attrs.len()
        invariant
            i <= attrs@.len(),
            all == attr_views(attrs@),
            dates_match(dates@, all.subrange(0, i as int)),
        decreases attrs.len() - i,
    {
        let ghost sub = all.subrange(0, i as int);
        let ghost next = all.subrange(0, i + 1);
        proof {
            assert(next.drop_last() =~= sub);
            lemma_date_sources_in_range(sub);
            assert forall|k: int| 0 <= k < date_sources(sub).len() implies #[trigger] next[date_sources(sub)[k]] == sub[date_sources(sub)[k]] by {}
        }
        let attr = &attrs[i];
        if let Some(dt) = parse_datetime(attr.value.as_str()) {
            let tag_ok = classify(attr.tag.as_str()) == TagClass::Date;
            dates.push(PossibleDate { tag: attr.tag.clone(), value: dt, tag_ok });
            proof {
                assert(date_sources(next) == date_sources(sub).push(i as int));
                assert forall|k: int| 0 <= k < dates@.len() implies {
                    let a = #[trigger] next[date_sources(next)[k]];
                    &&& dates@[k].tag@ == a.0
                    &&& dates@[k].tag_ok == (class_of(a.0) == TagClass::Date)
                    &&& date_fits(a.1, dates@[k].value)
                } by {
                    if k < dates@.len() - 1 {
                        assert(date_sources(next)[k] == date_sources(sub)[k]);
                        assert(sub[date_sources(sub)[k]] == next[date_sources(sub)[k]]);
                    }
                }
            }
        } else {
            proof {
                assert(date_sources(next) == date_sources(sub));
                assert forall|k: int| 0 <= k < dates@.len() implies {
                    let a = #[trigger] next[date_sources(next)[k]];
                    &&& dates@[k].tag@ == a.0
                    &&& dates@[k].tag_ok == (class_of(a.0) == TagClass::Date)
                    &&& date_fits(a.1, dates@[k].value)
                } by {
                    assert(sub[date_sources(sub)[k]] == next[date_sources(sub)[k]]);
                }
            }
        }
        i = i + 1;
    }
    assert(all.subrange(0, i as int) =~= all);
    dates
}


/// The value of the first attribute of class `c`.
pub open spec fn first_value(attrs: Seq<(Seq<char>, Seq<char>, Option<Seq<char>>)>, c: TagClass) -> Option<Seq<char>> {
    let k = first_tagged(attrs, c, 0);
    if k < attrs.len() {
        Some(attrs[k].1)
    } else {
        None
    }
}

/// Coordinates: the first combined latitude-longitude attribute converted
/// (absent when it does not convert), and the first latitude and the first
/// longitude attribute as written.
pub open spec fn lat_lon_matches(ll: LatLon, attrs: Seq<(Seq<char>, Seq<char>, Option<Seq<char>>)>) -> bool {
    &&& match first_value(attrs, TagClass::LatLonCombined) {
        Some(v) => match lat_lon_text(v) {
            Some((a, b)) => ll.combined matches Some((x, y)) && x@ == a && y@ == b,
            None => ll.combined is None,
        },
        None => ll.combined is None,
    }
    &&& opt_view(ll.latitude) == first_value(attrs, TagClass::Latitude)
    &&& opt_view(ll.longitude) == first_value(attrs, TagClass::Longitude)
}

fn first_value_exec(attrs: &Vec<Attr>, c: TagClass) -> (r: Option<String>)
    ensures
        opt_view(r) == first_value(attr_views(attrs@), c),
{
    let k = first_tagged_exec(attrs, c);
    if k < attrs.len() {
        Some(attrs[k].value.clone())
    } else {
        None
    }
}

/// The coordinates that the attributes give.
pub fn get_lat_lon(attrs: &Vec<Attr>) -> (r: LatLon)
    ensures
        lat_lon_matches(r, attr_views(attrs@)),
{
    let combined = match first_value_exec(attrs, TagClass::LatLonCombined) {
        Some(v) => parse_lat_lon_combined(v.as_str()),
        None => None,
    };
    LatLon {
        combined,
        latitude: first_value_exec(attrs, TagClass::Latitude),
        longitude: first_value_exec(attrs, TagClass::Longitude),
    }
}

/// `rec` holds the identifier and runs given, every date candidate of the
/// attributes, and the first depth and coordinates by attribute order.
pub open spec fn record_matches(
    rec: SampleRecord,
    id: Seq<char>,
    runs: Seq<Seq<char>>,
    attrs: Seq<(Seq<char>, Seq<char>, Option<Seq<char>>)>,
) -> bool {
    &&& rec.id@ == id
    &&& texts(rec.runs@) == runs
    &&& dates_match(rec.dates@, attrs)
    &&& depth_matches(rec.depth, attrs)
    &&& lat_lon_matches(rec.lat_lon, attrs)
}

/// The record of a sample from its identifier, runs and attributes; it
/// always completes, with empty parts where nothing resolves.
pub fn build_record(id: String, runs: Vec<String>, attrs: &Vec<Attr>) -> (r: SampleRecord)
    ensures
        record_matches(r, id@, texts(runs@), attr_views(attrs@)),
{
    let dates = get_dates(attrs);
    let depth = get_depth(attrs);
    let lat_lon = get_lat_lon(attrs);
    SampleRecord { id, runs, dates, depth, lat_lon }
}

/// The record of a sample document: its primary identifier, its runs and its
/// attributes (those whose tag starts with `ENA-` left out), resolved; an
/// error when the identifier or the attributes are missing.
pub fn parse_xml(root: &DocNode) -> (r: Result<SampleRecord, ExtractError>)
    ensures
        match primary_id_of(*root) {
            Err(e) => r matches Err(x) && x == e,
            Ok(id) => match find_child(*root, "SAMPLE_ATTRIBUTES"@) {
                None => r matches Err(x) && x == ExtractError::MissingAttributes,
                Some(a) => r matches Ok(rec) && record_matches(
                    rec,
                    id,
                    runs_of(*root),
                    attrs_in(a.children@, Some("ENA-"@)),
                ),
            },
        },
{
    let id = get_primary_id(root)?;
    let runs = get_runs(root);
    let attrs = get_attributes(root, Some("ENA-"))?;
    Ok(build_record(id, runs, &attrs))
}


/// Two attributes whose values both read as dates, one tagged `Date` and one
/// tagged `Comment`, give two candidates, and only the one tagged `Date` has
/// a date tag.
pub proof fn lemma_every_date_candidate_kept(
    v1: Seq<char>,
    v2: Seq<char>,
    u1: Option<Seq<char>>,
    u2: Option<Seq<char>>,
    dates: Seq<PossibleDate>,
)
    requires
        is_date_text(v1),
        is_date_text(v2),
        dates_match(dates, seq![("Date"@, v1, u1), ("Comment"@, v2, u2)]),
    ensures
        dates.len() == 2,
        dates[0].tag@ == "Date"@ && dates[0].tag_ok,
        dates[1].tag@ == "Comment"@ && !dates[1].tag_ok,
{
    let attrs = seq![("Date"@, v1, u1), ("Comment"@, v2, u2)];
    assert(attrs.drop_last().drop_last() =~= Seq::empty());
    assert(attrs.drop_last() =~= seq![("Date"@, v1, u1)]);
    assert(date_sources(attrs.drop_last().drop_last()) =~= Seq::<int>::empty());
    assert(date_sources(attrs.drop_last()) =~= seq![0int]);
    assert(date_sources(attrs) =~= seq![0int, 1int]);
    lemma_date_tag();
    lemma_comment_tag();
    assert(attrs[date_sources(attrs)[0]] == attrs[0]);
    assert(attrs[date_sources(attrs)[1]] == attrs[1]);
}

proof fn lemma_date_tag()
    ensures
        class_of("Date"@) == TagClass::Date,
{
    reveal_strlit("Date");
    reveal_strlit("date");
    let l = crate::text::lower_seq("Date"@);
    assert(l =~= "date"@);
    assert(l.subrange(0, 4) =~= "date"@);
}

proof fn lemma_comment_tag()
    ensures
        class_of("Comment"@) != TagClass::Date,
{
    reveal_strlit("Comment");
    reveal_strlit("comment");
    reveal_strlit("event");
    reveal_strlit("collection");
    reveal_strlit("date");
    reveal_strlit("collection_timestamp");
    let l = crate::text::lower_seq("Comment"@);
    assert(l =~= "comment"@);
    assert(l.subrange(0, 5) != "event"@) by {
        assert(l.subrange(0, 5)[0] != "event"@[0]);
    }
    assert(l.subrange(0, 4) != "date"@) by {
        assert(l.subrange(0, 4)[0] != "date"@[0]);
    }
}

/// Of two attributes tagged as depths, only the first one's value counts,
/// whatever the second holds.
pub proof fn lemma_first_depth_wins(
    attrs: Seq<(Seq<char>, Seq<char>, Option<Seq<char>>)>,
    d: Option<Meters>,
)
    requires
        attrs.len() == 2,
        class_of(attrs[0].0) == TagClass::Depth,
        class_of(attrs[1].0) == TagClass::Depth,
        depth_matches(d, attrs),
    ensures
        d == depth_result(attrs[0].1),
{
}

/// Of two attributes tagged as combined latitude and longitude, only the
/// first one's value counts, whatever the second holds.
pub proof fn lemma_first_lat_lon_wins(
    attrs: Seq<(Seq<char>, Seq<char>, Option<Seq<char>>)>,
    ll: LatLon,
)
    requires
        attrs.len() == 2,
        class_of(attrs[0].0) == TagClass::LatLonCombined,
        class_of(attrs[1].0) == TagClass::LatLonCombined,
        lat_lon_matches(ll, attrs),
    ensures
        match lat_lon_text(attrs[0].1) {
            Some((a, b)) => ll.combined matches Some((x, y)) && x@ == a && y@ == b,
            None => ll.combined is None,
        },
{
}

} // verus!
