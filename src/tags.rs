//! Classification of attribute tags by their text alone.
use crate::text::{
    ch, ch_opt, chars_of, lit, lit_opt, lower_seq, lower_vec, or_skip, or_skip_opt, space_or,
    space_or_opt, spaces, spaces_opt,
};
use vstd::prelude::*;

verus! {

/// What an attribute's tag says it holds.
#[derive(Clone, Copy, Debug, PartialEq, Eq, Structural)]
pub enum TagClass {
    Date,
    Depth,
    Latitude,
    Longitude,
    LatLonCombined,
    Unclassified,
}

/// `geographic location (` before a name, with `al` after `geographic`
/// allowed; `loose` lets any run of white space stand for each space.
/// Returns where the name starts: after the prefix, or at 0 without one.
pub open spec fn geo_prefix(l: Seq<char>, loose: bool) -> int {
    let g = lit(l, 0, "geographic"@);
    let g2 = or_skip(g, lit(l, g, "al"@));
    let g6 = if loose {
        ch(l, spaces(l, lit(l, spaces(l, g2, ""@, 1), "location"@), ""@, 1), '(')
    } else {
        lit(l, g2, " location ("@)
    };
    or_skip(0, g6)
}

/// `event` or `collection`, a space or `_`, `date`, and an optional `/time`.
pub open spec fn date_tag_short(l: Seq<char>) -> bool {
    let a = lit(l, 0, "event"@);
    let a = if a >= 0 {
        a
    } else {
        lit(l, 0, "collection"@)
    };
    let c = lit(l, space_or(l, a, "_"@), "date"@);
    or_skip(c, lit(l, c, "/time"@)) == l.len()
}

/// `event date time start`, each gap one space or `_` (or `/` before `time`).
pub open spec fn date_tag_start(l: Seq<char>) -> bool {
    let a = lit(l, space_or(l, lit(l, 0, "event"@), "_"@), "date"@);
    let b = lit(l, space_or(l, a, "/_"@), "time"@);
    lit(l, space_or(l, b, "_"@), "start"@) == l.len()
}

/// Tags that name the day a sample was taken.
pub open spec fn is_date_tag(l: Seq<char>) -> bool {
    ||| date_tag_short(l)
    ||| date_tag_start(l)
    ||| lit(l, 0, "date"@) == l.len()
    ||| lit(l, 0, "collection_timestamp"@) == l.len()
}

/// `depth`, optionally as `geographic location (depth)`.
pub open spec fn is_depth_tag(l: Seq<char>) -> bool {
    let d = lit(l, geo_prefix(l, false), "depth"@);
    or_skip(d, ch(l, d, ')')) == l.len()
}

/// `lat lon` (or `lat_lon`), or `latitude and longitude`, optionally as
/// `geographic location (latitude and longitude)`.
pub open spec fn is_lat_lon_tag(l: Seq<char>) -> bool {
    let d = lit(l, geo_prefix(l, false), "latitude and longitude"@);
    ||| lit(l, space_or(l, lit(l, 0, "lat"@), "_"@), "lon"@) == l.len()
    ||| or_skip(d, ch(l, d, ')')) == l.len()
}

/// `stem` or `stem` + `rest`, after an optional loose geographic prefix, with
/// an optional `)` and an optional white space and `start` after it.
pub open spec fn axis_tag(l: Seq<char>, stem: Seq<char>, rest: Seq<char>) -> bool {
    let a = lit(l, geo_prefix(l, true), stem);
    let b = or_skip(a, lit(l, a, rest));
    let c = or_skip(b, ch(l, b, ')'));
    or_skip(c, lit(l, spaces(l, c, ""@, 1), "start"@)) == l.len()
}

pub open spec fn is_latitude_tag(l: Seq<char>) -> bool {
    lit(l, 0, "latitude"@) == l.len() || axis_tag(l, "lat"@, "itude"@)
}

/// Also `longitude_deg` and `longitude start`.
pub open spec fn is_longitude_tag(l: Seq<char>) -> bool {
    let a = lit(l, 0, "longitude"@);
    let alt = or_skip(lit(l, spaces(l, a, ""@, 1), "start"@), lit(l, a, "_deg"@));
    ||| a == l.len()
    ||| axis_tag(l, "lon"@, "gitude"@)
    ||| or_skip(a, alt) == l.len()
}

/// The class of a tag: the first of date, depth, combined latitude and
/// longitude, latitude and longitude whose spellings take the whole tag, in
/// any letter case.
pub open spec fn class_of(tag: Seq<char>) -> TagClass {
    let l = lower_seq(tag);
    if is_date_tag(l) {
        TagClass::Date
    } else if is_depth_tag(l) {
        TagClass::Depth
    } else if is_lat_lon_tag(l) {
        TagClass::LatLonCombined
    } else if is_latitude_tag(l) {
        TagClass::Latitude
    } else if is_longitude_tag(l) {
        TagClass::Longitude
    } else {
        TagClass::Unclassified
    }
}

fn geo_prefix_exec(l: &Vec<char>, loose: bool) -> (r: usize)
    ensures
        r == geo_prefix(l@, loose),
        r <= l.len(),
{
    let g = lit_opt(l, Some(0), "geographic");
    let g2 = or_skip_opt(g, lit_opt(l, g, "al"));
    let g6 = if loose {
        ch_opt(l, spaces_opt(l, lit_opt(l, spaces_opt(l, g2, "", 1), "location"), "", 1), '(')
    } else {
        lit_opt(l, g2, " location (")
    };
    match g6 {
        Some(k) => k,
        None => 0,
    }
}

fn is_date_tag_exec(l: &Vec<char>) -> (r: bool)
    ensures
        r == is_date_tag(l@),
{
    let n = Some(l.len());
    let a = lit_opt(l, Some(0), "event");
    let a = if a.is_some() {
        a
    } else {
        lit_opt(l, Some(0), "collection")
    };
    let c = lit_opt(l, space_or_opt(l, a, "_"), "date");
    let short = or_skip_opt(c, lit_opt(l, c, "/time")) == n;
    let a = lit_opt(l, space_or_opt(l, lit_opt(l, Some(0), "event"), "_"), "date");
    let b = lit_opt(l, space_or_opt(l, a, "/_"), "time");
    let start = lit_opt(l, space_or_opt(l, b, "_"), "start") == n;
    short || start || lit_opt(l, Some(0), "date") == n || lit_opt(l, Some(0), "collection_timestamp")
        == n
}

fn is_depth_tag_exec(l: &Vec<char>) -> (r: bool)
    ensures
        r == is_depth_tag(l@),
{
    let d = lit_opt(l, Some(geo_prefix_exec(l, false)), "depth");
    or_skip_opt(d, ch_opt(l, d, ')')) == Some(l.len())
}

fn is_lat_lon_tag_exec(l: &Vec<char>) -> (r: bool)
    ensures
        r == is_lat_lon_tag(l@),
{
    let n = Some(l.len());
    let d = lit_opt(l, Some(geo_prefix_exec(l, false)), "latitude and longitude");
    lit_opt(l, space_or_opt(l, lit_opt(l, Some(0), "lat"), "_"), "lon") == n || or_skip_opt(
        d,
        ch_opt(l, d, ')'),
    ) == n
}

fn axis_tag_exec(l: &Vec<char>, stem: &str, rest: &str) -> (r: bool)
    ensures
        r == axis_tag(l@, stem@, rest@),
{
    let a = lit_opt(l, Some(geo_prefix_exec(l, true)), stem);
    let b = or_skip_opt(a, lit_opt(l, a, rest));
    let c = or_skip_opt(b, ch_opt(l, b, ')'));
    or_skip_opt(c, lit_opt(l, spaces_opt(l, c, "", 1), "start")) == Some(l.len())
}

fn is_latitude_tag_exec(l: &Vec<char>) -> (r: bool)
    ensures
        r == is_latitude_tag(l@),
{
    lit_opt(l, Some(0), "latitude") == Some(l.len()) || axis_tag_exec(l, "lat", "itude")
}

fn is_longitude_tag_exec(l: &Vec<char>) -> (r: bool)
    ensures
        r == is_longitude_tag(l@),
{
    let n = Some(l.len());
    let a = lit_opt(l, Some(0), "longitude");
    let alt = or_skip_opt(lit_opt(l, spaces_opt(l, a, "", 1), "start"), lit_opt(l, a, "_deg"));
    a == n || axis_tag_exec(l, "lon", "gitude") || or_skip_opt(a, alt) == n
}

/// The class of `tag`, from its text alone.
pub fn classify(tag: &str) -> (r: TagClass)
    ensures
        r == class_of(tag@),
{
    let l = lower_vec(&chars_of(tag));
    if is_date_tag_exec(&l) {
        TagClass::Date
    } else if is_depth_tag_exec(&l) {
        TagClass::Depth
    } else if is_lat_lon_tag_exec(&l) {
        TagClass::LatLonCombined
    } else if is_latitude_tag_exec(&l) {
        TagClass::Latitude
    } else if is_longitude_tag_exec(&l) {
        TagClass::Longitude
    } else {
        TagClass::Unclassified
    }
}

} // verus!
