//! The address ranges of the live objects, kept in a `segment_map::SegmentMap`.
//!
//! The map is an outside collection: what it holds is named by
//! `segment_entries`, and each method that the engine calls is stated over that
//! name as the map's source shows it. A segment is a pair of addresses, the
//! first inside and the second outside; the value is the identifier of the
//! object that has reserved the range.

use vstd::prelude::*;
use segment_map::{Segment, SegmentMap};

verus! {

#[verifier::external_type_specification]
#[verifier::external_body]
#[verifier::reject_recursive_types(K)]
#[verifier::reject_recursive_types(V)]
pub struct ExSegmentMap<K, V>(SegmentMap<K, V>);

/// The segments that a map holds, each with its value.
pub uninterp spec fn segment_entries(map: SegmentMap<usize, u64>) -> Map<(usize, usize), u64>;

/// No segments at all.
pub open spec fn no_segments() -> Map<(usize, usize), u64> {
    Map::empty()
}

/// `key` lies in `seg`.
pub open spec fn segment_holds(seg: (usize, usize), key: usize) -> bool {
    seg.0 <= key < seg.1
}

/// Two segments share no address.
pub open spec fn segments_apart(a: (usize, usize), b: (usize, usize)) -> bool {
    a.1 <= b.0 || b.1 <= a.0
}

/// `seg` shares no address with any segment of `entries`.
pub open spec fn segment_is_free(entries: Map<(usize, usize), u64>, seg: (usize, usize)) -> bool {
    forall|s: (usize, usize)| entries.contains_key(s) ==> segments_apart(s, seg)
}

/// Every segment of `entries` holds an address, and no two share one.
pub open spec fn segments_disjoint(entries: Map<(usize, usize), u64>) -> bool {
    &&& forall|s: (usize, usize)| entries.contains_key(s) ==> s.0 < s.1
    &&& forall|s: (usize, usize), t: (usize, usize)|
        entries.contains_key(s) && entries.contains_key(t) && s != t ==> segments_apart(s, t)
}

/// A map without segments, by `SegmentMap::new`.
#[verifier::external_body]
pub(crate) fn segments_new() -> (map: SegmentMap<usize, u64>)
    ensures
        segment_entries(map) == no_segments(),
{
    SegmentMap::new()
}

/// The value of the segment that holds `key`, by `SegmentMap::get`. The map is
/// a search tree ordered by segments; among disjoint segments the search finds
/// the one that holds the key, if there is one.
#[verifier::external_body]
pub(crate) fn segments_get(map: &SegmentMap<usize, u64>, key: usize) -> (value: Option<u64>)
    requires
        segments_disjoint(segment_entries(*map)),
    ensures
        match value {
            Some(v) => exists|s: (usize, usize)|
                segment_entries(*map).contains_key(s) && segment_holds(s, key) && (
                #[trigger] segment_entries(*map)[s]) == v,
            None => forall|s: (usize, usize)|
                segment_entries(*map).contains_key(s) ==> !segment_holds(s, key),
        },
{
    map.get(&key).copied()
}

/// The segment that holds `key` and its value, by `SegmentMap::get_entry`: the
/// same search as `SegmentMap::get`, which hands out the segment too.
#[verifier::external_body]
pub(crate) fn segments_get_entry(map: &SegmentMap<usize, u64>, key: usize) -> (entry: Option<
    (usize, usize, u64),
>)
    requires
        segments_disjoint(segment_entries(*map)),
    ensures
        match entry {
            Some(e) => segment_entries(*map).contains_key((e.0, e.1)) && segment_holds(
                (e.0, e.1),
                key,
            ) && segment_entries(*map)[(e.0, e.1)] == e.2,
            None => forall|s: (usize, usize)|
                segment_entries(*map).contains_key(s) ==> !segment_holds(s, key),
        },
{
    map.get_entry(&key).map(|(segment, value)| (*segment.lower(), *segment.upper(), *value))
}

/// Adds the segment from `lower` to `upper` with `value`, by
/// `SegmentMap::insert`. The insertion panics where the new segment overlaps
/// one of the map, which `requires` leaves out; otherwise the segment becomes a
/// new leaf of the tree and nothing else changes.
#[verifier::external_body]
pub(crate) fn segments_insert(
    map: &mut SegmentMap<usize, u64>,
    lower: usize,
    upper: usize,
    value: u64,
)
    requires
        segments_disjoint(segment_entries(*old(map))),
        lower < upper,
        segment_is_free(segment_entries(*old(map)), (lower, upper)),
    ensures
        segment_entries(*final(map)) == segment_entries(*old(map)).insert((lower, upper), value),
{
    map.insert(Segment::new(lower, upper), value)
}

/// Takes the segment from `lower` to `upper` out of the map, by
/// `SegmentMap::remove`. Removing a range cuts it out of whatever segments it
/// meets; where the range is one of the map's disjoint segments, that segment
/// leaves whole and the others stay.
#[verifier::external_body]
pub(crate) fn segments_remove(map: &mut SegmentMap<usize, u64>, lower: usize, upper: usize)
    requires
        segments_disjoint(segment_entries(*old(map))),
        segment_entries(*old(map)).contains_key((lower, upper)),
    ensures
        segment_entries(*final(map)) == segment_entries(*old(map)).remove((lower, upper)),
{
    map.remove(&Segment::new(lower, upper))
}

/// All segments of the map with their values, by `SegmentMap::iter`, which
/// walks the whole tree from left to right: each entry of the map comes out,
/// and nothing else; among disjoint segments, lower addresses come first.
#[verifier::external_body]
pub(crate) fn segments_list(map: &SegmentMap<usize, u64>) -> (list: Vec<(usize, usize, u64)>)
    requires
        segments_disjoint(segment_entries(*map)),
    ensures
        forall|i: int, j: int|
            0 <= i < j < list@.len() ==> (#[trigger] list@[i]).1 <= (#[trigger] list@[j]).0,
        forall|i: int|
            0 <= i < list@.len() ==> segment_entries(*map).contains_key(
                (#[trigger] list@[i].0, list@[i].1),
            ) && segment_entries(*map)[(list@[i].0, list@[i].1)] == list@[i].2,
        forall|s: (usize, usize)|
            segment_entries(*map).contains_key(s) ==> exists|i: int|
                0 <= i < list@.len() && (#[trigger] list@[i].0, list@[i].1) == s,
{
    map.iter().map(|(segment, value)| (*segment.lower(), *segment.upper(), *value)).collect()
}

} // verus!
