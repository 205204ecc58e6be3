//! Nations: top-level regions of the world map. A nation pairs one
//! geographic feature with interaction flags and, optionally, a keyed set
//! of child provinces.

use vstd::prelude::*;

use crate::errors::{LoadErrorKind, MapLoadError};
use crate::geo_drawable::{
    opt_key_view, rect_valid, spec_feature_within_limits, spec_lookup, spec_record_rings,
    spec_resolve_id, FeatureRecord, GeoDrawable, Rect,
};
use crate::math::Point;
use crate::province::{
    build_provinces, province_from_one_of, province_id_present, province_record_ok, Province,
    ProvinceMapping,
};

verus! {

/// A nation: one geographic feature, two interaction flags, and an
/// optional keyed set of provinces. A nation with no province data has no
/// collection at all, never an empty one.
#[derive(Debug)]
pub struct Nation {
    pub highlighted: bool,
    pub selected: bool,
    pub geo_drawable: Box<GeoDrawable>,
    pub provinces: Option<Vec<Province>>,
}

/// The record yields a nation: its id property, name property, and
/// geometry all resolve.
pub open spec fn nation_record_ok(rec: FeatureRecord) -> bool {
    &&& spec_lookup(rec.properties@, "ISO_A3"@) is Some
    &&& spec_lookup(rec.properties@, "ADMIN"@) is Some
    &&& spec_record_rings(&rec) is Some
}

/// The nation matches the record: same id, name, and opened rings.
pub open spec fn nation_matches_record(n: Nation, rec: FeatureRecord) -> bool {
    &&& Some(n.geo_drawable.id@) == spec_lookup(rec.properties@, "ISO_A3"@)
    &&& Some(n.geo_drawable.name@) == spec_lookup(rec.properties@, "ADMIN"@)
    &&& Some(n.geo_drawable.geo_rings()) == spec_record_rings(&rec)
}

/// The static identity of a nation: everything but its interaction flags.
pub open spec fn nation_same_static(a: Nation, b: Nation) -> bool {
    &&& a.geo_drawable == b.geo_drawable
    &&& a.provinces == b.provinces
}

impl Nation {
    /// Well-formedness: the feature is well-formed, and any provinces are
    /// well-formed, keyed by unique ids, and projected into the same
    /// rectangle as the nation itself.
    pub open spec fn wf(&self) -> bool {
        &&& self.geo_drawable.wf()
        &&& match self.provinces {
            Some(ps) => {
                &&& forall|i: int|
                    0 <= i < ps@.len() ==> (#[trigger] ps@[i]).geo_drawable.wf() && ps@[
                        i
                    ].geo_drawable.rect == self.geo_drawable.rect
                &&& forall|i: int, j: int|
                    0 <= i < j < ps@.len() ==> ps@[i].geo_drawable.id@ != ps@[
                        j
                    ].geo_drawable.id@
            },
            None => true,
        }
    }

    /// Build a nation from one record, with the provinces parsed from its
    /// own data set if one exists: absence and emptiness of province data
    /// are kept apart.
    pub fn new(
        record: FeatureRecord,
        bounds: &Rect,
        province_records: Option<Vec<FeatureRecord>>,
        mapping: Option<&ProvinceMapping>,
    ) -> (r: Result<Box<Nation>, MapLoadError>)
        requires
            rect_valid(*bounds),
            spec_feature_within_limits(&record),
            match province_records {
                Some(rs) => crate::province::records_within_limits(rs@),
                None => true,
            },
        ensures
            r is Ok <==> nation_record_ok(record) && (match province_records {
                Some(rs) => forall|k: int|
                    0 <= k < rs@.len() ==> province_record_ok(#[trigger] rs@[k], mapping),
                None => true,
            }),
            match r {
                Ok(n) => {
                    &&& n.wf()
                    &&& n.geo_drawable.rect == *bounds
                    &&& !n.highlighted
                    &&& !n.selected
                    &&& nation_matches_record(*n, record)
                    &&& (n.provinces is Some <==> province_records is Some)
                    &&& match (n.provinces, province_records) {
                        (Some(ps), Some(rs)) => {
                            &&& forall|i: int|
                                0 <= i < ps@.len() ==> province_from_one_of(
                                    #[trigger] ps@[i],
                                    rs@,
                                    mapping,
                                )
                            &&& forall|k: int|
                                0 <= k < rs@.len() ==> province_id_present(
                                    ps@,
                                    #[trigger] rs@[k],
                                    mapping,
                                )
                        },
                        (None, None) => true,
                        _ => false,
                    }
                },
                Err(e) => e.kind == LoadErrorKind::MissingId || e.kind == LoadErrorKind::MissingName
                    || e.kind == LoadErrorKind::MissingOrInvalidGeometry,
            },
    {
        let admin = String::from_str("ADMIN");
        let iso = String::from_str("ISO_A3");
        proof {
            assert(opt_key_view(Some(&iso)) == Some("ISO_A3"@));
            assert(spec_resolve_id(&record, Some("ISO_A3"@)) == spec_lookup(
                record.properties@,
                "ISO_A3"@,
            ));
        }
        let geo_drawable = match GeoDrawable::new(record, bounds, &admin, Some(&iso)) {
            Ok(g) => g,
            Err(e) => {
                return Err(e);
            },
        };
        let provinces = match province_records {
            Some(rs) => match build_provinces(rs, bounds, mapping) {
                Ok(ps) => Some(ps),
                Err(e) => {
                    return Err(e);
                },
            },
            None => None,
        };
        Ok(Box::new(Nation { highlighted: false, selected: false, geo_drawable, provinces }))
    }

    /// Whether the nation is currently highlighted.
    pub fn is_highlighted(&self) -> (r: bool)
        ensures
            r == self.highlighted,
    {
        self.highlighted
    }

    /// Whether the nation is currently selected.
    pub fn is_selected(&self) -> (r: bool)
        ensures
            r == self.selected,
    {
        self.selected
    }

    /// Set the highlight flag, touching nothing else. Keeping at most one
    /// nation highlighted is the world map's job, not the nation's.
    pub fn set_highlighted(&mut self, value: bool)
        ensures
            final(self).highlighted == value,
            final(self).selected == old(self).selected,
            nation_same_static(*final(self), *old(self)),
    {
        self.highlighted = value;
    }

    /// Set the selection flag, touching nothing else.
    pub fn set_selected(&mut self, value: bool)
        ensures
            final(self).selected == value,
            final(self).highlighted == old(self).highlighted,
            nation_same_static(*final(self), *old(self)),
    {
        self.selected = value;
    }

    /// Twice the nation's total projected area.
    pub fn area2(&self) -> (r: u128)
        ensures
            r == self.geo_drawable.vector_total_area2,
    {
        self.geo_drawable.vector_total_area2
    }

    /// The nation's total projected area, rounding the half microunit down.
    pub fn area(&self) -> (r: u128)
        ensures
            r == self.geo_drawable.vector_total_area2 / 2,
    {
        self.geo_drawable.vector_total_area2 / 2
    }

    /// The nation's id.
    pub fn id(&self) -> (r: &String)
        ensures
            r@ == self.geo_drawable.id@,
    {
        &self.geo_drawable.id
    }

    /// Whether any projected ring of the nation's feature contains the
    /// point.
    pub fn includes(&self, position: Point) -> (r: bool)
        requires
            self.wf(),
        ensures
            r == self.geo_drawable.spec_includes(position),
    {
        self.geo_drawable.includes(position)
    }

    /// Re-project the nation's own feature and every province's feature
    /// against the new rectangle, using the same rectangle for all of them.
    #[verifier::loop_isolation(false)]
    pub fn on_resize(&mut self, bounds: &Rect)
        requires
            old(self).wf(),
            rect_valid(*bounds),
        ensures
            final(self).wf(),
            final(self).geo_drawable.rect == *bounds,
            final(self).geo_drawable.geo_polygons == old(self).geo_drawable.geo_polygons,
            final(self).geo_drawable.id == old(self).geo_drawable.id,
            final(self).geo_drawable.name == old(self).geo_drawable.name,
            final(self).highlighted == old(self).highlighted,
            final(self).selected == old(self).selected,
            final(self).provinces is Some <==> old(self).provinces is Some,
            match (final(self).provinces, old(self).provinces) {
                (Some(new_ps), Some(old_ps)) => {
                    &&& new_ps@.len() == old_ps@.len()
                    &&& forall|i: int|
                        0 <= i < new_ps@.len() ==> {
                            &&& (#[trigger] new_ps@[i]).geo_drawable.id == old_ps@[
                                i
                            ].geo_drawable.id
                            &&& new_ps@[i].geo_drawable.name == old_ps@[i].geo_drawable.name
                            &&& new_ps@[i].geo_drawable.geo_polygons == old_ps@[
                                i
                            ].geo_drawable.geo_polygons
                            &&& new_ps@[i].geo_drawable.rect == *bounds
                        }
                },
                (None, None) => true,
                _ => false,
            },
    {
        self.geo_drawable.on_resize(bounds);
        match &mut self.provinces {
            Some(ps) => {
                let ghost old_ps = ps@;
                proof {
                    assert(old(self).provinces == Some(*ps));
                }
                let n = ps.len();
                let mut i: usize = 0;
                while i < n
                    invariant
                        n == ps@.len(),
                        i <= n,
                        forall|k: int| i <= k < n ==> ps@[k] == old_ps[k],
                        forall|k: int|
                            0 <= k < i ==> {
                                &&& (#[trigger] ps@[k]).geo_drawable.wf()
                                &&& ps@[k].geo_drawable.rect == *bounds
                                &&& ps@[k].geo_drawable.id == old_ps[k].geo_drawable.id
                                &&& ps@[k].geo_drawable.name == old_ps[k].geo_drawable.name
                                &&& ps@[k].geo_drawable.geo_polygons == old_ps[
                                    k
                                ].geo_drawable.geo_polygons
                            },
                    decreases n - i,
                {
                    proof {
                        assert(ps@[i as int] == old_ps[i as int]);
                        assert(old(self).provinces.unwrap()@[i as int].geo_drawable.wf());
                    }
                    ps[i].geo_drawable.on_resize(bounds);
                    i = i + 1;
                }
            },
            None => {},
        }
    }
}

} // verus!
