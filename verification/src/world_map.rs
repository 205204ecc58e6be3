//! The world map: the keyed collection of nations loaded from one map,
//! pointer hit-testing across them, and the bookkeeping that keeps at most
//! one nation highlighted and at most one selected.

use vstd::prelude::*;

use crate::errors::{LoadErrorKind, MapLoadError};
use crate::geo_drawable::{
    projection_of, rect_valid, spec_lookup, spec_record_rings, spec_total_area2, FeatureRecord,
    Rect,
};
use crate::math::Point;
use crate::nation::{nation_matches_record, nation_record_ok, nation_same_static, Nation};
use crate::province::{build_provinces, records_within_limits, ProvinceMapping};

verus! {

/// Twice the smallest projected area a nation must exceed to be admitted
/// into the collection: a quarter of a square unit at the microunit scale.
/// Smaller regions are noise and are silently dropped at load time.
pub const MIN_NATION_AREA2: u128 = 500_000_000_000;

/// The world map: the nations of one loaded map, keyed by unique ids, with
/// the identity of the at-most-one highlighted and at-most-one selected
/// nation, all projected into `rect`.
#[derive(Debug)]
pub struct WorldMap {
    pub nations: Vec<Nation>,
    pub highlighted_nation_id: Option<String>,
    pub selected_nation_id: Option<String>,
    pub rect: Rect,
}

/// Every nation is well-formed, projected into `rect`, and ids are unique.
pub open spec fn nations_wf(ns: Seq<Nation>, rect: Rect) -> bool {
    &&& forall|i: int|
        0 <= i < ns.len() ==> (#[trigger] ns[i]).wf() && ns[i].geo_drawable.rect == rect
    &&& forall|i: int, j: int|
        0 <= i < j < ns.len() ==> ns[i].geo_drawable.id@ != ns[j].geo_drawable.id@
}

/// The recorded id and the flags agree: at most one nation carries the
/// flag, and the recorded id names exactly the nation that carries it.
pub open spec fn highlight_ok(ns: Seq<Nation>, hid: Option<String>) -> bool {
    &&& forall|i: int, j: int|
        0 <= i < ns.len() && 0 <= j < ns.len() && (#[trigger] ns[i]).highlighted && (
        #[trigger] ns[j]).highlighted ==> i == j
    &&& match hid {
        Some(id) => exists|i: int|
            0 <= i < ns.len() && (#[trigger] ns[i]).highlighted && ns[i].geo_drawable.id@ == id@,
        None => forall|i: int| 0 <= i < ns.len() ==> !(#[trigger] ns[i]).highlighted,
    }
}

/// The symmetric invariant for selection.
pub open spec fn select_ok(ns: Seq<Nation>, sid: Option<String>) -> bool {
    &&& forall|i: int, j: int|
        0 <= i < ns.len() && 0 <= j < ns.len() && (#[trigger] ns[i]).selected && (
        #[trigger] ns[j]).selected ==> i == j
    &&& match sid {
        Some(id) => exists|i: int|
            0 <= i < ns.len() && (#[trigger] ns[i]).selected && ns[i].geo_drawable.id@ == id@,
        None => forall|i: int| 0 <= i < ns.len() ==> !(#[trigger] ns[i]).selected,
    }
}

/// Index of the first nation in iteration order, starting at `k`, whose
/// projected rings contain the point.
pub open spec fn spec_first_hit(ns: Seq<Nation>, p: Point, k: int) -> Option<int>
    decreases ns.len() - k,
{
    if k < 0 || k >= ns.len() {
        None
    } else if ns[k].geo_drawable.spec_includes(p) {
        Some(k)
    } else {
        spec_first_hit(ns, p, k + 1)
    }
}

/// The nation matches one of the records.
pub open spec fn nation_from_one_of(n: Nation, records: Seq<FeatureRecord>) -> bool {
    exists|k: int| 0 <= k < records.len() && nation_matches_record(n, #[trigger] records[k])
}

/// A nation matching one of the first `d1` records matches one of the
/// first `d2` as well.
proof fn lemma_nation_from_extend(n: Nation, records: Seq<FeatureRecord>, d1: int, d2: int)
    requires
        0 <= d1 <= d2 <= records.len(),
        nation_from_one_of(n, records.take(d1)),
    ensures
        nation_from_one_of(n, records.take(d2)),
{
    let k = choose|k: int|
        0 <= k < records.take(d1).len() && nation_matches_record(n, #[trigger] records.take(d1)[k]);
    assert(records.take(d2)[k] == records.take(d1)[k]);
}

/// Some nation in the set carries the id that the record resolves to.
pub open spec fn nation_id_present(ns: Seq<Nation>, rec: FeatureRecord) -> bool {
    match spec_lookup(rec.properties@, "ISO_A3"@) {
        Some(id) => exists|i: int|
            0 <= i < ns.len() && (#[trigger] ns[i]).geo_drawable.id@ == id,
        None => false,
    }
}

/// Twice the projected area the record's rings come to in the rectangle.
pub open spec fn record_area2(rec: FeatureRecord, rect: Rect) -> int {
    spec_total_area2(projection_of(spec_record_rings(&rec).unwrap(), rect))
}

/// Index of the nation carrying `id`, if one is present.
fn find_nation_index(ns: &Vec<Nation>, id: &String) -> (r: Option<usize>)
    ensures
        match r {
            Some(i) => i < ns@.len() && ns@[i as int].geo_drawable.id@ == id@,
            None => forall|j: int|
                0 <= j < ns@.len() ==> (#[trigger] ns@[j]).geo_drawable.id@ != id@,
        },
{
    let n = ns.len();
    let mut i: usize = 0;
    while i < n
        invariant
            i <= n,
            n == ns@.len(),
            forall|j: int| 0 <= j < i ==> (#[trigger] ns@[j]).geo_drawable.id@ != id@,
        decreases n - i,
    {
        if ns.get(i).unwrap().geo_drawable.id.eq(id) {
            return Some(i);
        }
        i = i + 1;
    }
    None
}

/// Insert a nation into the keyed set: replace the entry with the same id,
/// if any, else append. Every other entry stays as it was, so ids stay
/// unique.
fn insert_keyed_nation(out: &mut Vec<Nation>, nation: Box<Nation>)
    requires
        forall|i: int, j: int|
            0 <= i < j < old(out)@.len() ==> old(out)@[i].geo_drawable.id@ != old(out)@[
                j
            ].geo_drawable.id@,
    ensures
        old(out)@.len() <= final(out)@.len() <= old(out)@.len() + 1,
        forall|idx: int|
            0 <= idx < old(out)@.len() ==> (#[trigger] final(out)@[idx]).geo_drawable.id@ == old(out)@[idx].geo_drawable.id@,
        forall|idx: int|
            0 <= idx < final(out)@.len() ==> (#[trigger] final(out)@[idx]) == *nation || (idx < old(out)@.len() && final(out)@[idx] == old(out)@[idx]),
        exists|idx: int|
            0 <= idx < final(out)@.len() && (#[trigger] final(out)@[idx]) == *nation,
        forall|i: int, j: int|
            0 <= i < j < final(out)@.len() ==> final(out)@[i].geo_drawable.id@ != final(out)@[
                j
            ].geo_drawable.id@,
{
    let ghost old_out = out@;
    match find_nation_index(out, &nation.geo_drawable.id) {
        Some(i) => {
            let ghost slot = i as int;
            out[i] = *nation;
            proof {
                assert(out@[slot] == *nation);
                assert forall|idx: int|
                    0 <= idx < out@.len() implies (#[trigger] out@[idx]).geo_drawable.id@
                        == old_out[idx].geo_drawable.id@ by {
                    if idx != slot {
                        assert(out@[idx] == old_out[idx]);
                    }
                }
                assert forall|a: int, b: int|
                    0 <= a < b < out@.len() implies out@[a].geo_drawable.id@ != out@[
                    b
                ].geo_drawable.id@ by {
                    assert(old_out[a].geo_drawable.id@ != old_out[b].geo_drawable.id@);
                }
            }
        },
        None => {
            out.push(*nation);
            proof {
                assert(out@[old_out.len() as int] == *nation);
                assert forall|a: int, b: int|
                    0 <= a < b < out@.len() implies out@[a].geo_drawable.id@ != out@[
                    b
                ].geo_drawable.id@ by {
                    if b < old_out.len() {
                        assert(old_out[a].geo_drawable.id@ != old_out[b].geo_drawable.id@);
                    } else {
                        assert(out@[b] == *nation);
                        assert(old_out[a].geo_drawable.id@ != nation.geo_drawable.id@);
                    }
                }
            }
        },
    }
}

/// Build the keyed set of nations from the map's records. A nation is
/// admitted only if its doubled projected area exceeds
/// `MIN_NATION_AREA2`; smaller ones are silently dropped. Later records
/// with the same id replace earlier ones. One bad record fails the load as
/// a whole: no partial collection is produced.
#[verifier::rlimit(100)]
#[verifier::loop_isolation(false)]
pub fn to_nations(records: Vec<FeatureRecord>, bounds: &Rect) -> (r: Result<
    Vec<Nation>,
    MapLoadError,
>)
    requires
        rect_valid(*bounds),
        records_within_limits(records@),
    ensures
        r is Ok <==> (forall|k: int|
            0 <= k < records@.len() ==> nation_record_ok(#[trigger] records@[k])),
        match r {
            Ok(ns) => {
                &&& forall|i: int|
                    0 <= i < ns@.len() ==> {
                        &&& (#[trigger] ns@[i]).wf()
                        &&& ns@[i].geo_drawable.rect == *bounds
                        &&& !ns@[i].highlighted
                        &&& !ns@[i].selected
                        &&& ns@[i].provinces is None
                        &&& ns@[i].geo_drawable.vector_total_area2 > MIN_NATION_AREA2
                    }
                &&& forall|i: int, j: int|
                    0 <= i < j < ns@.len() ==> ns@[i].geo_drawable.id@ != ns@[
                        j
                    ].geo_drawable.id@
                &&& forall|i: int|
                    0 <= i < ns@.len() ==> nation_from_one_of(#[trigger] ns@[i], records@)
                &&& forall|k: int|
                    0 <= k < records@.len() ==> (nation_record_ok(#[trigger] records@[k])
                        && record_area2(records@[k], *bounds) > MIN_NATION_AREA2
                        ==> nation_id_present(ns@, records@[k]))
            },
            Err(e) => e.kind == LoadErrorKind::MissingId || e.kind == LoadErrorKind::MissingName
                || e.kind == LoadErrorKind::MissingOrInvalidGeometry,
        },
{
    let ghost orig = records@;
    let mut pending = records;
    let total = pending.len();
    let mut out: Vec<Nation> = Vec::new();
    let mut done: usize = 0;
    proof {
        assert(orig.skip(0) =~= orig);
    }
    while pending.len() > 0
        invariant
            total == orig.len(),
            done <= total,
            done + pending@.len() == orig.len(),
            pending@ == orig.skip(done as int),
            forall|k: int| 0 <= k < done ==> nation_record_ok(#[trigger] orig[k]),
            forall|i: int|
                0 <= i < out@.len() ==> {
                    &&& (#[trigger] out@[i]).wf()
                    &&& out@[i].geo_drawable.rect == *bounds
                    &&& !out@[i].highlighted
                    &&& !out@[i].selected
                    &&& out@[i].provinces is None
                    &&& out@[i].geo_drawable.vector_total_area2 > MIN_NATION_AREA2
                },
            forall|i: int, j: int|
                0 <= i < j < out@.len() ==> out@[i].geo_drawable.id@ != out@[j].geo_drawable.id@,
            forall|i: int|
                0 <= i < out@.len() ==> nation_from_one_of(
                    #[trigger] out@[i],
                    orig.take(done as int),
                ),
            forall|k: int|
                0 <= k < done ==> (nation_record_ok(#[trigger] orig[k]) && record_area2(
                    orig[k],
                    *bounds,
                ) > MIN_NATION_AREA2 ==> nation_id_present(out@, orig[k])),
        decreases pending@.len(),
    {
        let rec = pending.remove(0);
        proof {
            assert(rec == orig[done as int]);
            assert(pending@ =~= orig.skip(done as int + 1));
        }
        let nation = match crate::nation::Nation::new(rec, bounds, None, None) {
            Ok(n) => n,
            Err(e) => {
                proof {
                    assert(!nation_record_ok(orig[done as int]));
                }
                return Err(e);
            },
        };
        proof {
            assert(nation.geo_drawable.vector_total_area2 == record_area2(
                orig[done as int],
                *bounds,
            ));
        }
        let ghost old_out = out@;
        let big_enough = nation.geo_drawable.vector_total_area2 > MIN_NATION_AREA2;
        if big_enough {
            insert_keyed_nation(&mut out, nation);
        }
        proof {
            assert forall|idx: int|
                0 <= idx < out@.len() implies nation_from_one_of(
                #[trigger] out@[idx],
                orig.take(done as int + 1),
            ) by {
                if big_enough && out@[idx] == *nation {
                    assert(orig.take(done as int + 1)[done as int] == orig[done as int]);
                    assert(nation_matches_record(out@[idx], orig[done as int]));
                } else {
                    assert(out@[idx] == old_out[idx]);
                    lemma_nation_from_extend(old_out[idx], orig, done as int, done as int + 1);
                }
            }
            assert forall|k: int|
                0 <= k < done + 1 && nation_record_ok(#[trigger] orig[k]) && record_area2(
                    orig[k],
                    *bounds,
                ) > MIN_NATION_AREA2 implies nation_id_present(out@, orig[k]) by {
                if k < done {
                    assert(nation_id_present(old_out, orig[k]));
                    let id = spec_lookup(orig[k].properties@, "ISO_A3"@).unwrap();
                    let w = choose|i: int|
                        0 <= i < old_out.len() && (#[trigger] old_out[i]).geo_drawable.id@ == id;
                    assert(out@[w].geo_drawable.id@ == id);
                } else {
                    assert(big_enough);
                    let w = choose|idx: int|
                        0 <= idx < out@.len() && (#[trigger] out@[idx]) == *nation;
                    assert(out@[w].geo_drawable.id@ == nation.geo_drawable.id@);
                }
            }
        }
        done = done + 1;
    }
    proof {
        assert(orig.take(total as int) =~= orig);
    }
    Ok(out)
}

impl WorldMap {
    /// Well-formedness: a valid rectangle, well-formed nations keyed by
    /// unique ids and projected into the rectangle, and flag bookkeeping
    /// that matches the recorded highlighted and selected ids.
    pub open spec fn wf(&self) -> bool {
        &&& rect_valid(self.rect)
        &&& nations_wf(self.nations@, self.rect)
        &&& highlight_ok(self.nations@, self.highlighted_nation_id)
        &&& select_ok(self.nations@, self.selected_nation_id)
    }

    /// Load a world map from the map's records, projecting into `bounds`.
    /// Nothing starts highlighted or selected. One bad record fails the
    /// whole load.
    pub fn new(records: Vec<FeatureRecord>, bounds: &Rect) -> (r: Result<WorldMap, MapLoadError>)
        requires
            rect_valid(*bounds),
            records_within_limits(records@),
        ensures
            r is Ok <==> (forall|k: int|
                0 <= k < records@.len() ==> nation_record_ok(#[trigger] records@[k])),
            match r {
                Ok(m) => {
                    &&& m.wf()
                    &&& m.rect == *bounds
                    &&& m.highlighted_nation_id is None
                    &&& m.selected_nation_id is None
                    &&& forall|i: int|
                        0 <= i < m.nations@.len() ==> {
                            &&& !(#[trigger] m.nations@[i]).highlighted
                            &&& !m.nations@[i].selected
                            &&& m.nations@[i].provinces is None
                            &&& m.nations@[i].geo_drawable.vector_total_area2 > MIN_NATION_AREA2
                        }
                    &&& forall|i: int|
                        0 <= i < m.nations@.len() ==> nation_from_one_of(
                            #[trigger] m.nations@[i],
                            records@,
                        )
                    &&& forall|k: int|
                        0 <= k < records@.len() ==> (nation_record_ok(#[trigger] records@[k])
                            && record_area2(records@[k], *bounds) > MIN_NATION_AREA2
                            ==> nation_id_present(m.nations@, records@[k]))
                },
                Err(e) => e.kind == LoadErrorKind::MissingId || e.kind
                    == LoadErrorKind::MissingName || e.kind
                    == LoadErrorKind::MissingOrInvalidGeometry,
            },
    {
        let nations = match to_nations(records, bounds) {
            Ok(ns) => ns,
            Err(e) => {
                return Err(e);
            },
        };
        Ok(
            WorldMap {
                nations,
                highlighted_nation_id: None,
                selected_nation_id: None,
                rect: *bounds,
            },
        )
    }

    /// Attach the provinces parsed from one nation's own data set to that
    /// nation. Hands back whether the nation was found; a map without that
    /// nation is left untouched. One bad record fails the attachment.
    pub fn attach_provinces(
        &mut self,
        nation_id: &String,
        records: Vec<FeatureRecord>,
        mapping: Option<&ProvinceMapping>,
    ) -> (r: Result<bool, MapLoadError>)
        requires
            old(self).wf(),
            records_within_limits(records@),
        ensures
            final(self).wf(),
            final(self).rect == old(self).rect,
            final(self).highlighted_nation_id == old(self).highlighted_nation_id,
            final(self).selected_nation_id == old(self).selected_nation_id,
            final(self).nations@.len() == old(self).nations@.len(),
            forall|i: int|
                0 <= i < final(self).nations@.len() ==> {
                    &&& (#[trigger] final(self).nations@[i]).geo_drawable == old(self).nations@[i].geo_drawable
                    &&& final(self).nations@[i].highlighted == old(self).nations@[i].highlighted
                    &&& final(self).nations@[i].selected == old(self).nations@[i].selected
                    &&& (final(self).nations@[i].geo_drawable.id@ != nation_id@ ==> final(self).nations@[i].provinces == old(self).nations@[i].provinces)
                },
            match r {
                Ok(found) => {
                    &&& (found <==> exists|i: int|
                        0 <= i < old(self).nations@.len() && (#[trigger] old(self).nations@[i]).geo_drawable.id@ == nation_id@)
                    &&& (!found ==> *final(self) == *old(self))
                    &&& (found ==> forall|k: int|
                        0 <= k < records@.len() ==> crate::province::province_record_ok(
                            #[trigger] records@[k],
                            mapping,
                        ))
                    &&& (found ==> forall|i: int|
                        0 <= i < final(self).nations@.len() && (#[trigger] final(self).nations@[i]).geo_drawable.id@ == nation_id@ ==> {
                            &&& final(self).nations@[i].provinces is Some
                            &&& {
                                let ps = final(self).nations@[i].provinces.unwrap();
                                &&& forall|p: int|
                                    0 <= p < ps@.len() ==> crate::province::province_from_one_of(
                                        #[trigger] ps@[p],
                                        records@,
                                        mapping,
                                    )
                                &&& forall|k: int|
                                    0 <= k < records@.len()
                                        ==> crate::province::province_id_present(
                                        ps@,
                                        #[trigger] records@[k],
                                        mapping,
                                    )
                            }
                        })
                },
                Err(e) => e.kind == LoadErrorKind::MissingId || e.kind
                    == LoadErrorKind::MissingName || e.kind
                    == LoadErrorKind::MissingOrInvalidGeometry,
            },
    {
        let idx = match find_nation_index(&self.nations, nation_id) {
            Some(i) => i,
            None => {
                return Ok(false);
            },
        };
        let rect = self.rect;
        let provinces = match build_provinces(records, &rect, mapping) {
            Ok(ps) => ps,
            Err(e) => {
                return Err(e);
            },
        };
        let ghost old_ns = self.nations@;
        self.nations[idx].provinces = Some(provinces);
        proof {
            assert forall|i: int|
                0 <= i < self.nations@.len() && i != idx implies self.nations@[i] == old_ns[i] by {}
            assert(self.nations@[idx as int].wf());
        }
        Ok(true)
    }

    /// Id of the first nation in iteration order containing the point, if
    /// any. Overlapping nations are not expected of correct map data; if
    /// they occur, the first in iteration order wins, deterministically.
    fn find_hit_index(&self, position: Point) -> (r: Option<usize>)
        requires
            self.wf(),
        ensures
            match r {
                Some(i) => i < self.nations@.len() && spec_first_hit(self.nations@, position, 0)
                    == Some(i as int),
                None => spec_first_hit(self.nations@, position, 0) is None,
            },
    {
        let n = self.nations.len();
        let mut i: usize = 0;
        while i < n
            invariant
                self.wf(),
                n == self.nations@.len(),
                i <= n,
                spec_first_hit(self.nations@, position, 0) == spec_first_hit(
                    self.nations@,
                    position,
                    i as int,
                ),
            decreases n - i,
        {
            if self.nations.get(i).unwrap().includes(position) {
                return Some(i);
            }
            i = i + 1;
        }
        None
    }

    /// Highlight the nation under the point and unhighlight every other,
    /// recording the new highlighted id; no nation under the point clears
    /// the highlight. Selection and all static state stay untouched.
    #[verifier::loop_isolation(false)]
    pub fn set_highlighted_nation_at(&mut self, position: Point) -> (r: Option<String>)
        requires
            old(self).wf(),
        ensures
            final(self).wf(),
            final(self).rect == old(self).rect,
            final(self).selected_nation_id == old(self).selected_nation_id,
            final(self).nations@.len() == old(self).nations@.len(),
            forall|i: int|
                0 <= i < final(self).nations@.len() ==> {
                    &&& nation_same_static(
                        #[trigger] final(self).nations@[i],
                        old(self).nations@[i],
                    )
                    &&& final(self).nations@[i].selected == old(self).nations@[i].selected
                    &&& final(self).nations@[i].highlighted == (spec_first_hit(
                        old(self).nations@,
                        position,
                        0,
                    ) == Some(i))
                },
            final(self).highlighted_nation_id is Some <==> spec_first_hit(
                old(self).nations@,
                position,
                0,
            ) is Some,
            match (final(self).highlighted_nation_id, spec_first_hit(
                old(self).nations@,
                position,
                0,
            )) {
                (Some(id), Some(i)) => id@ == old(self).nations@[i].geo_drawable.id@,
                _ => true,
            },
            r is Some <==> final(self).highlighted_nation_id is Some,
            match (r, final(self).highlighted_nation_id) {
                (Some(a), Some(b)) => a@ == b@,
                _ => true,
            },
    {
        let hit = self.find_hit_index(position);
        let ghost hit_spec = spec_first_hit(self.nations@, position, 0);
        let ghost old_ns = self.nations@;
        let n = self.nations.len();
        let mut i: usize = 0;
        while i < n
            invariant
                n == self.nations@.len(),
                i <= n,
                self.highlighted_nation_id == old(self).highlighted_nation_id,
                self.selected_nation_id == old(self).selected_nation_id,
                self.rect == old(self).rect,
                forall|k: int| i <= k < n ==> self.nations@[k] == old_ns[k],
                forall|k: int|
                    0 <= k < i ==> {
                        &&& nation_same_static(#[trigger] self.nations@[k], old_ns[k])
                        &&& self.nations@[k].selected == old_ns[k].selected
                        &&& self.nations@[k].highlighted == (hit_spec == Some(k))
                    },
            decreases n - i,
        {
            let flag = match hit {
                Some(h) => h == i,
                None => false,
            };
            self.nations[i].set_highlighted(flag);
            i = i + 1;
        }
        let result = match hit {
            Some(h) => Some(self.nations.get(h).unwrap().geo_drawable.id.clone()),
            None => None,
        };
        self.highlighted_nation_id = match &result {
            Some(id) => Some(id.clone()),
            None => None,
        };
        proof {
            assert forall|a: int, b: int|
                0 <= a < self.nations@.len() && 0 <= b < self.nations@.len() && (
                #[trigger] self.nations@[a]).highlighted && (
                #[trigger] self.nations@[b]).highlighted implies a == b by {}
            assert forall|q: int|
                0 <= q < self.nations@.len() implies (#[trigger] self.nations@[q]).wf()
                    && self.nations@[q].geo_drawable.rect == self.rect by {
                assert(old_ns[q].wf());
                assert(self.nations@[q].geo_drawable == old_ns[q].geo_drawable);
                assert(self.nations@[q].provinces == old_ns[q].provinces);
            }
            match hit {
                Some(h) => {
                    assert(self.nations@[h as int].highlighted);
                },
                None => {},
            }
            match old(self).selected_nation_id {
                Some(id) => {
                    let w = choose|w: int|
                        0 <= w < old_ns.len() && (#[trigger] old_ns[w]).selected && old_ns[
                            w
                        ].geo_drawable.id@ == id@;
                    assert(self.nations@[w].selected);
                    assert(self.nations@[w].geo_drawable.id@ == id@);
                },
                None => {},
            }
        }
        result
    }

    /// Select the nation under the point, unselecting the previously
    /// selected one; no nation under the point leaves the selection
    /// unchanged. Highlighting and all static state stay untouched.
    #[verifier::loop_isolation(false)]
    pub fn set_selected_nation_at(&mut self, position: Point) -> (r: Option<String>)
        requires
            old(self).wf(),
        ensures
            final(self).wf(),
            final(self).rect == old(self).rect,
            final(self).highlighted_nation_id == old(self).highlighted_nation_id,
            final(self).nations@.len() == old(self).nations@.len(),
            spec_first_hit(old(self).nations@, position, 0) is None ==> *final(self) == *old(self),
            r is Some <==> spec_first_hit(old(self).nations@, position, 0) is Some,
            match (r, spec_first_hit(old(self).nations@, position, 0)) {
                (Some(id), Some(h)) => {
                    &&& id@ == old(self).nations@[h].geo_drawable.id@
                    &&& final(self).selected_nation_id == Some(id)
                    &&& forall|i: int|
                        0 <= i < final(self).nations@.len() ==> {
                            &&& nation_same_static(
                                #[trigger] final(self).nations@[i],
                                old(self).nations@[i],
                            )
                            &&& final(self).nations@[i].highlighted == old(self).nations@[i].highlighted
                            &&& final(self).nations@[i].selected == (h == i)
                        }
                },
                _ => true,
            },
    {
        let hit = match self.find_hit_index(position) {
            Some(h) => h,
            None => {
                return None;
            },
        };
        let ghost hit_spec = spec_first_hit(self.nations@, position, 0);
        let ghost old_ns = self.nations@;
        let n = self.nations.len();
        let mut i: usize = 0;
        while i < n
            invariant
                n == self.nations@.len(),
                i <= n,
                hit < n,
                self.highlighted_nation_id == old(self).highlighted_nation_id,
                self.selected_nation_id == old(self).selected_nation_id,
                self.rect == old(self).rect,
                forall|k: int| i <= k < n ==> self.nations@[k] == old_ns[k],
                forall|k: int|
                    0 <= k < i ==> {
                        &&& nation_same_static(#[trigger] self.nations@[k], old_ns[k])
                        &&& self.nations@[k].highlighted == old_ns[k].highlighted
                        &&& self.nations@[k].selected == (hit as int == k)
                    },
            decreases n - i,
        {
            self.nations[i].set_selected(hit == i);
            i = i + 1;
        }
        let id = self.nations.get(hit).unwrap().geo_drawable.id.clone();
        self.selected_nation_id = Some(id.clone());
        proof {
            assert forall|a: int, b: int|
                0 <= a < self.nations@.len() && 0 <= b < self.nations@.len() && (
                #[trigger] self.nations@[a]).selected && (
                #[trigger] self.nations@[b]).selected implies a == b by {}
            assert forall|q: int|
                0 <= q < self.nations@.len() implies (#[trigger] self.nations@[q]).wf()
                    && self.nations@[q].geo_drawable.rect == self.rect by {
                assert(old_ns[q].wf());
                assert(self.nations@[q].geo_drawable == old_ns[q].geo_drawable);
                assert(self.nations@[q].provinces == old_ns[q].provinces);
            }
            assert(self.nations@[hit as int].selected);
            match old(self).highlighted_nation_id {
                Some(id) => {
                    let w = choose|w: int|
                        0 <= w < old_ns.len() && (#[trigger] old_ns[w]).highlighted && old_ns[
                            w
                        ].geo_drawable.id@ == id@;
                    assert(self.nations@[w].highlighted);
                    assert(self.nations@[w].geo_drawable.id@ == id@);
                },
                None => {},
            }
        }
        Some(id)
    }

    /// Select the nation carrying the given id, unselecting the previously
    /// selected one; an id no nation carries clears the selection.
    /// Highlighting and all static state stay untouched.
    #[verifier::loop_isolation(false)]
    pub fn set_selected_nation(&mut self, new_selected_id: &String)
        requires
            old(self).wf(),
        ensures
            final(self).wf(),
            final(self).rect == old(self).rect,
            final(self).highlighted_nation_id == old(self).highlighted_nation_id,
            final(self).nations@.len() == old(self).nations@.len(),
            forall|i: int|
                0 <= i < final(self).nations@.len() ==> {
                    &&& nation_same_static(
                        #[trigger] final(self).nations@[i],
                        old(self).nations@[i],
                    )
                    &&& final(self).nations@[i].highlighted == old(self).nations@[i].highlighted
                    &&& final(self).nations@[i].selected == (old(self).nations@[i].geo_drawable.id@ == new_selected_id@)
                },
            final(self).selected_nation_id is Some <==> exists|i: int|
                0 <= i < old(self).nations@.len() && (#[trigger] old(self).nations@[i]).geo_drawable.id@ == new_selected_id@,
            final(self).selected_nation_id is Some ==> final(self).selected_nation_id.unwrap()@ == new_selected_id@,
    {
        let found = find_nation_index(&self.nations, new_selected_id);
        let ghost old_ns = self.nations@;
        let n = self.nations.len();
        let mut i: usize = 0;
        while i < n
            invariant
                n == self.nations@.len(),
                i <= n,
                self.highlighted_nation_id == old(self).highlighted_nation_id,
                self.selected_nation_id == old(self).selected_nation_id,
                self.rect == old(self).rect,
                forall|k: int| i <= k < n ==> self.nations@[k] == old_ns[k],
                forall|k: int|
                    0 <= k < i ==> {
                        &&& nation_same_static(#[trigger] self.nations@[k], old_ns[k])
                        &&& self.nations@[k].highlighted == old_ns[k].highlighted
                        &&& self.nations@[k].selected == (old_ns[k].geo_drawable.id@
                            == new_selected_id@)
                    },
            decreases n - i,
        {
            let flag = self.nations.get(i).unwrap().geo_drawable.id.eq(new_selected_id);
            self.nations[i].set_selected(flag);
            i = i + 1;
        }
        match found {
            Some(f) => {
                self.selected_nation_id = Some(new_selected_id.clone());
                proof {
                    assert(self.nations@[f as int].selected);
                }
            },
            None => {
                self.selected_nation_id = None;
            },
        }
        proof {
            assert forall|a: int, b: int|
                0 <= a < self.nations@.len() && 0 <= b < self.nations@.len() && (
                #[trigger] self.nations@[a]).selected && (
                #[trigger] self.nations@[b]).selected implies a == b by {}
            assert forall|q: int|
                0 <= q < self.nations@.len() implies (#[trigger] self.nations@[q]).wf()
                    && self.nations@[q].geo_drawable.rect == self.rect by {
                assert(old_ns[q].wf());
                assert(self.nations@[q].geo_drawable == old_ns[q].geo_drawable);
                assert(self.nations@[q].provinces == old_ns[q].provinces);
            }
            match old(self).highlighted_nation_id {
                Some(id) => {
                    let w = choose|w: int|
                        0 <= w < old_ns.len() && (#[trigger] old_ns[w]).highlighted && old_ns[
                            w
                        ].geo_drawable.id@ == id@;
                    assert(self.nations@[w].highlighted);
                    assert(self.nations@[w].geo_drawable.id@ == id@);
                },
                None => {},
            }
        }
    }

    /// The currently highlighted nation, if one is recorded.
    pub fn get_highlighted_nation(&self) -> (r: Option<&Nation>)
        requires
            self.wf(),
        ensures
            r is Some <==> self.highlighted_nation_id is Some,
            match r {
                Some(nation) => {
                    &&& nation.highlighted
                    &&& Some(nation.geo_drawable.id@) == match self.highlighted_nation_id {
                        Some(id) => Some(id@),
                        None => None,
                    }
                    &&& exists|i: int|
                        0 <= i < self.nations@.len() && #[trigger] self.nations@[i] == *nation
                },
                None => true,
            },
    {
        let id = match &self.highlighted_nation_id {
            Some(id) => id,
            None => {
                return None;
            },
        };
        match find_nation_index(&self.nations, id) {
            Some(i) => {
                let nation = self.nations.get(i).unwrap();
                proof {
                    let w = choose|w: int|
                        0 <= w < self.nations@.len() && (#[trigger] self.nations@[w]).highlighted
                            && self.nations@[w].geo_drawable.id@ == id@;
                    assert(self.nations@[w].highlighted);
                    assert(w == i as int);
                }
                Some(nation)
            },
            None => {
                proof {
                    let w = choose|w: int|
                        0 <= w < self.nations@.len() && (#[trigger] self.nations@[w]).highlighted
                            && self.nations@[w].geo_drawable.id@ == id@;
                    assert(self.nations@[w].geo_drawable.id@ == id@);
                    assert(false);
                }
                None
            },
        }
    }

    /// Re-project every nation, and every nation's provinces, against the
    /// new rectangle. Highlight and selection identity are untouched: only
    /// projected geometry changes.
    #[verifier::loop_isolation(false)]
    pub fn on_resize(&mut self, bounds: &Rect)
        requires
            old(self).wf(),
            rect_valid(*bounds),
        ensures
            final(self).wf(),
            final(self).rect == *bounds,
            final(self).highlighted_nation_id == old(self).highlighted_nation_id,
            final(self).selected_nation_id == old(self).selected_nation_id,
            final(self).nations@.len() == old(self).nations@.len(),
            forall|i: int|
                0 <= i < final(self).nations@.len() ==> {
                    &&& (#[trigger] final(self).nations@[i]).geo_drawable.id == old(self).nations@[i].geo_drawable.id
                    &&& final(self).nations@[i].geo_drawable.name == old(self).nations@[i].geo_drawable.name
                    &&& final(self).nations@[i].geo_drawable.geo_polygons == old(self).nations@[i].geo_drawable.geo_polygons
                    &&& final(self).nations@[i].geo_drawable.rect == *bounds
                    &&& final(self).nations@[i].highlighted == old(self).nations@[i].highlighted
                    &&& final(self).nations@[i].selected == old(self).nations@[i].selected
                },
    {
        let ghost old_ns = self.nations@;
        let n = self.nations.len();
        let mut i: usize = 0;
        while i < n
            invariant
                n == self.nations@.len(),
                i <= n,
                self.highlighted_nation_id == old(self).highlighted_nation_id,
                self.selected_nation_id == old(self).selected_nation_id,
                self.rect == old(self).rect,
                forall|k: int| i <= k < n ==> self.nations@[k] == old_ns[k],
                forall|k: int|
                    0 <= k < i ==> {
                        &&& (#[trigger] self.nations@[k]).wf()
                        &&& self.nations@[k].geo_drawable.rect == *bounds
                        &&& self.nations@[k].geo_drawable.id == old_ns[k].geo_drawable.id
                        &&& self.nations@[k].geo_drawable.name == old_ns[k].geo_drawable.name
                        &&& self.nations@[k].geo_drawable.geo_polygons == old_ns[
                            k
                        ].geo_drawable.geo_polygons
                        &&& self.nations@[k].highlighted == old_ns[k].highlighted
                        &&& self.nations@[k].selected == old_ns[k].selected
                    },
            decreases n - i,
        {
            self.nations[i].on_resize(bounds);
            i = i + 1;
        }
        self.rect = *bounds;
        proof {
            match old(self).highlighted_nation_id {
                Some(id) => {
                    let w = choose|w: int|
                        0 <= w < old_ns.len() && (#[trigger] old_ns[w]).highlighted && old_ns[
                            w
                        ].geo_drawable.id@ == id@;
                    assert(self.nations@[w].highlighted);
                    assert(self.nations@[w].geo_drawable.id@ == id@);
                },
                None => {},
            }
            match old(self).selected_nation_id {
                Some(id) => {
                    let w = choose|w: int|
                        0 <= w < old_ns.len() && (#[trigger] old_ns[w]).selected && old_ns[
                            w
                        ].geo_drawable.id@ == id@;
                    assert(self.nations@[w].selected);
                    assert(self.nations@[w].geo_drawable.id@ == id@);
                },
                None => {},
            }
        }
    }
}

/// After any sequence of operations, at most one nation is highlighted,
/// and when one is, the collection's recorded id names exactly that
/// nation.
pub proof fn lemma_at_most_one_highlighted(m: &WorldMap)
    requires
        m.wf(),
    ensures
        forall|i: int, j: int|
            0 <= i < m.nations@.len() && 0 <= j < m.nations@.len() && (
            #[trigger] m.nations@[i]).highlighted && (#[trigger] m.nations@[j]).highlighted ==> i
                == j,
        forall|i: int|
            0 <= i < m.nations@.len() && (#[trigger] m.nations@[i]).highlighted
                ==> m.highlighted_nation_id is Some && m.highlighted_nation_id.unwrap()@
                == m.nations@[i].geo_drawable.id@,
{
    assert forall|i: int|
        0 <= i < m.nations@.len() && (#[trigger] m.nations@[i]).highlighted
            implies m.highlighted_nation_id is Some && m.highlighted_nation_id.unwrap()@
        == m.nations@[i].geo_drawable.id@ by {
        match m.highlighted_nation_id {
            Some(id) => {
                let w = choose|w: int|
                    0 <= w < m.nations@.len() && (#[trigger] m.nations@[w]).highlighted
                        && m.nations@[w].geo_drawable.id@ == id@;
                assert(m.nations@[w].highlighted);
            },
            None => {},
        }
    }
}

/// After any sequence of operations, at most one nation is selected, and
/// when one is, the collection's recorded id names exactly that nation.
pub proof fn lemma_at_most_one_selected(m: &WorldMap)
    requires
        m.wf(),
    ensures
        forall|i: int, j: int|
            0 <= i < m.nations@.len() && 0 <= j < m.nations@.len() && (
            #[trigger] m.nations@[i]).selected && (#[trigger] m.nations@[j]).selected ==> i == j,
        forall|i: int|
            0 <= i < m.nations@.len() && (#[trigger] m.nations@[i]).selected
                ==> m.selected_nation_id is Some && m.selected_nation_id.unwrap()@
                == m.nations@[i].geo_drawable.id@,
{
    assert forall|i: int|
        0 <= i < m.nations@.len() && (#[trigger] m.nations@[i]).selected
            implies m.selected_nation_id is Some && m.selected_nation_id.unwrap()@
        == m.nations@[i].geo_drawable.id@ by {
        match m.selected_nation_id {
            Some(id) => {
                let w = choose|w: int|
                    0 <= w < m.nations@.len() && (#[trigger] m.nations@[w]).selected
                        && m.nations@[w].geo_drawable.id@ == id@;
                assert(m.nations@[w].selected);
            },
            None => {},
        }
    }
}

impl WorldMap {
    /// Id of the nation under the point, without touching any state.
    pub fn find_nation_id_at(&self, position: Point) -> (r: Option<String>)
        requires
            self.wf(),
        ensures
            r is Some <==> spec_first_hit(self.nations@, position, 0) is Some,
            match (r, spec_first_hit(self.nations@, position, 0)) {
                (Some(id), Some(i)) => id@ == self.nations@[i].geo_drawable.id@,
                _ => true,
            },
    {
        match self.find_hit_index(position) {
            Some(i) => Some(self.nations.get(i).unwrap().geo_drawable.id.clone()),
            None => None,
        }
    }
}

} // verus!
