//! Provinces: sub-regions of a nation, built from per-nation feature
//! records and keyed by province id.

use vstd::prelude::*;

use crate::errors::{LoadErrorKind, MapLoadError};
use crate::geo_drawable::{
    opt_key_view, rect_valid, spec_feature_within_limits, spec_lookup, spec_record_rings,
    spec_resolve_id, FeatureRecord, GeoDrawable, Rect,
};

verus! {

/// Per-nation overrides naming the property keys that carry a province's
/// name and id in that nation's data set.
#[derive(Debug)]
pub struct ProvinceMapping {
    pub name: Option<String>,
    pub id: Option<String>,
}

/// A province: one geographic feature without interaction state of its own.
#[derive(Debug)]
pub struct Province {
    pub geo_drawable: Box<GeoDrawable>,
}

/// The property key that carries a province's name: the mapping's override,
/// or `name`.
pub open spec fn province_name_key(mapping: Option<&ProvinceMapping>) -> Seq<char> {
    match mapping {
        Some(m) => match m.name {
            Some(n) => n@,
            None => "name"@,
        },
        None => "name"@,
    }
}

/// The property key that carries a province's id, if the mapping names one;
/// otherwise the embedded identifier is used.
pub open spec fn province_id_key(mapping: Option<&ProvinceMapping>) -> Option<Seq<char>> {
    match mapping {
        Some(m) => match m.id {
            Some(i) => Some(i@),
            None => None,
        },
        None => None,
    }
}

/// The record yields a province: id, name, and geometry all resolve.
pub open spec fn province_record_ok(rec: FeatureRecord, mapping: Option<&ProvinceMapping>) -> bool {
    &&& spec_resolve_id(&rec, province_id_key(mapping)) is Some
    &&& spec_lookup(rec.properties@, province_name_key(mapping)) is Some
    &&& spec_record_rings(&rec) is Some
}

/// The province a record resolves to matches the record: same id, name, and
/// opened geographic rings.
pub open spec fn province_matches_record(
    p: Province,
    rec: FeatureRecord,
    mapping: Option<&ProvinceMapping>,
) -> bool {
    &&& Some(p.geo_drawable.id@) == spec_resolve_id(&rec, province_id_key(mapping))
    &&& Some(p.geo_drawable.name@) == spec_lookup(rec.properties@, province_name_key(mapping))
    &&& Some(p.geo_drawable.geo_rings()) == spec_record_rings(&rec)
}

impl Province {
    /// Build one province from a record, resolving the name and id property
    /// keys through the optional mapping.
    pub fn new(record: FeatureRecord, bounds: &Rect, mapping: Option<&ProvinceMapping>) -> (r:
        Result<Box<Province>, MapLoadError>)
        requires
            rect_valid(*bounds),
            spec_feature_within_limits(&record),
        ensures
            r is Ok <==> province_record_ok(record, mapping),
            match r {
                Ok(p) => {
                    &&& p.geo_drawable.wf()
                    &&& p.geo_drawable.rect == *bounds
                    &&& province_matches_record(*p, record, mapping)
                },
                Err(e) => e.kind == LoadErrorKind::MissingId || e.kind == LoadErrorKind::MissingName
                    || e.kind == LoadErrorKind::MissingOrInvalidGeometry,
            },
    {
        let default_name = String::from_str("name");
        let name_property: &String = match mapping {
            Some(m) => match &m.name {
                Some(n) => n,
                None => &default_name,
            },
            None => &default_name,
        };
        let id_property: Option<&String> = match mapping {
            Some(m) => match &m.id {
                Some(i) => Some(i),
                None => None,
            },
            None => None,
        };
        proof {
            assert(name_property@ == province_name_key(mapping));
            assert(opt_key_view(id_property) == province_id_key(mapping));
        }
        match GeoDrawable::new(record, bounds, name_property, id_property) {
            Ok(geo_drawable) => Ok(Box::new(Province { geo_drawable })),
            Err(e) => Err(e),
        }
    }
}

/// The province matches one of the records.
pub open spec fn province_from_one_of(
    p: Province,
    records: Seq<FeatureRecord>,
    mapping: Option<&ProvinceMapping>,
) -> bool {
    exists|k: int|
        0 <= k < records.len() && province_matches_record(p, #[trigger] records[k], mapping)
}

/// A province matching one of the first `d1` records matches one of the
/// first `d2` as well.
proof fn lemma_province_from_extend(
    p: Province,
    records: Seq<FeatureRecord>,
    d1: int,
    d2: int,
    mapping: Option<&ProvinceMapping>,
)
    requires
        0 <= d1 <= d2 <= records.len(),
        province_from_one_of(p, records.take(d1), mapping),
    ensures
        province_from_one_of(p, records.take(d2), mapping),
{
    let k = choose|k: int|
        0 <= k < records.take(d1).len() && province_matches_record(
            p,
            #[trigger] records.take(d1)[k],
            mapping,
        );
    assert(records.take(d2)[k] == records.take(d1)[k]);
}

/// Some province in the set carries the id that the record resolves to.
pub open spec fn province_id_present(
    ps: Seq<Province>,
    rec: FeatureRecord,
    mapping: Option<&ProvinceMapping>,
) -> bool {
    match spec_resolve_id(&rec, province_id_key(mapping)) {
        Some(id) => exists|i: int| 0 <= i < ps.len() && (#[trigger] ps[i]).geo_drawable.id@ == id,
        None => false,
    }
}

/// Every record within the sequence stays within the machine limits.
pub open spec fn records_within_limits(records: Seq<FeatureRecord>) -> bool {
    forall|k: int| 0 <= k < records.len() ==> spec_feature_within_limits(&records[k])
}

/// Index of the province carrying `id`, if one is present.
fn find_province_index(ps: &Vec<Province>, id: &String) -> (r: Option<usize>)
    ensures
        match r {
            Some(i) => i < ps@.len() && ps@[i as int].geo_drawable.id@ == id@,
            None => forall|j: int|
                0 <= j < ps@.len() ==> (#[trigger] ps@[j]).geo_drawable.id@ != id@,
        },
{
    let n = ps.len();
    let mut i: usize = 0;
    while i < n
        invariant
            i <= n,
            n == ps@.len(),
            forall|j: int| 0 <= j < i ==> (#[trigger] ps@[j]).geo_drawable.id@ != id@,
        decreases n - i,
    {
        if ps.get(i).unwrap().geo_drawable.id.eq(id) {
            return Some(i);
        }
        i = i + 1;
    }
    None
}

/// Insert a province into the keyed set: replace the entry with the same
/// id, if any, else append. Every other entry stays as it was, so ids stay
/// unique.
fn insert_keyed(out: &mut Vec<Province>, province: Box<Province>)
    requires
        forall|i: int, j: int|
            0 <= i < j < old(out)@.len() ==> old(out)@[i].geo_drawable.id@ != old(out)@[
                j
            ].geo_drawable.id@,
    ensures
        old(out)@.len() <= final(out)@.len() <= old(out)@.len() + 1,
        forall|idx: int|
            0 <= idx < old(out)@.len() ==> (#[trigger] final(out)@[idx]).geo_drawable.id@ == old(
                out,
            )@[idx].geo_drawable.id@,
        forall|idx: int|
            0 <= idx < final(out)@.len() ==> (#[trigger] final(out)@[idx]) == *province || (idx
                < old(out)@.len() && final(out)@[idx] == old(out)@[idx]),
        exists|idx: int|
            0 <= idx < final(out)@.len() && (#[trigger] final(out)@[idx]) == *province,
        forall|i: int, j: int|
            0 <= i < j < final(out)@.len() ==> final(out)@[i].geo_drawable.id@ != final(out)@[
                j
            ].geo_drawable.id@,
{
    let ghost old_out = out@;
    match find_province_index(out, &province.geo_drawable.id) {
        Some(i) => {
            let ghost slot = i as int;
            out[i] = *province;
            proof {
                assert(out@[slot] == *province);
                assert forall|idx: int|
                    0 <= idx < out@.len() implies (#[trigger] out@[idx]).geo_drawable.id@
                        == old_out[idx].geo_drawable.id@ by {
                    if idx != slot {
                        assert(out@[idx] == old_out[idx]);
                    }
                }
                assert forall|a: int, b: int|
                    0 <= a < b < out@.len() implies out@[a].geo_drawable.id@ != out@[
                    b
                ].geo_drawable.id@ by {
                    assert(old_out[a].geo_drawable.id@ != old_out[b].geo_drawable.id@);
                }
            }
        },
        None => {
            out.push(*province);
            proof {
                assert(out@[old_out.len() as int] == *province);
                assert forall|a: int, b: int|
                    0 <= a < b < out@.len() implies out@[a].geo_drawable.id@ != out@[
                    b
                ].geo_drawable.id@ by {
                    if b < old_out.len() {
                        assert(old_out[a].geo_drawable.id@ != old_out[b].geo_drawable.id@);
                    } else {
                        assert(out@[b] == *province);
                        assert(old_out[a].geo_drawable.id@ != province.geo_drawable.id@);
                    }
                }
            }
        },
    }
}

/// Build the keyed set of provinces of one nation. Later records with the
/// same id replace earlier ones, so ids stay unique; one bad record fails
/// the whole set.
#[verifier::rlimit(100)]
#[verifier::loop_isolation(false)]
pub fn build_provinces(
    records: Vec<FeatureRecord>,
    bounds: &Rect,
    mapping: Option<&ProvinceMapping>,
) -> (r: Result<Vec<Province>, MapLoadError>)
    requires
        rect_valid(*bounds),
        records_within_limits(records@),
    ensures
        r is Ok <==> (forall|k: int|
            0 <= k < records@.len() ==> province_record_ok(#[trigger] records@[k], mapping)),
        match r {
            Ok(ps) => {
                &&& forall|i: int|
                    0 <= i < ps@.len() ==> (#[trigger] ps@[i]).geo_drawable.wf()
                        && ps@[i].geo_drawable.rect == *bounds
                &&& forall|i: int, j: int|
                    0 <= i < j < ps@.len() ==> ps@[i].geo_drawable.id@ != ps@[
                        j
                    ].geo_drawable.id@
                &&& forall|i: int|
                    0 <= i < ps@.len() ==> province_from_one_of(
                        #[trigger] ps@[i],
                        records@,
                        mapping,
                    )
                &&& forall|k: int|
                    0 <= k < records@.len() ==> province_id_present(
                        ps@,
                        #[trigger] records@[k],
                        mapping,
                    )
            },
            Err(e) => e.kind == LoadErrorKind::MissingId || e.kind == LoadErrorKind::MissingName
                || e.kind == LoadErrorKind::MissingOrInvalidGeometry,
        },
{
    let ghost orig = records@;
    let mut pending = records;
    let total = pending.len();
    let mut out: Vec<Province> = Vec::new();
    let mut done: usize = 0;
    proof {
        assert(orig.skip(0) =~= orig);
    }
    while pending.len() > 0
        invariant
            rect_valid(*bounds),
            records_within_limits(orig),
            total == orig.len(),
            done <= total,
            done + pending@.len() == orig.len(),
            pending@ == orig.skip(done as int),
            forall|k: int| 0 <= k < done ==> province_record_ok(#[trigger] orig[k], mapping),
            forall|i: int|
                0 <= i < out@.len() ==> (#[trigger] out@[i]).geo_drawable.wf()
                    && out@[i].geo_drawable.rect == *bounds,
            forall|i: int, j: int|
                0 <= i < j < out@.len() ==> out@[i].geo_drawable.id@ != out@[j].geo_drawable.id@,
            forall|i: int|
                0 <= i < out@.len() ==> province_from_one_of(
                    #[trigger] out@[i],
                    orig.take(done as int),
                    mapping,
                ),
            forall|k: int|
                0 <= k < done ==> province_id_present(out@, #[trigger] orig[k], mapping),
        decreases pending@.len(),
    {
        let rec = pending.remove(0);
        proof {
            assert(rec == orig[done as int]);
            assert(pending@ =~= orig.skip(done as int + 1));
        }
        let province = match Province::new(rec, bounds, mapping) {
            Ok(p) => p,
            Err(e) => {
                proof {
                    assert(!province_record_ok(orig[done as int], mapping));
                }
                return Err(e);
            },
        };
        let ghost old_out = out@;
        insert_keyed(&mut out, province);
        proof {
            assert forall|idx: int|
                0 <= idx < out@.len() implies province_from_one_of(
                #[trigger] out@[idx],
                orig.take(done as int + 1),
                mapping,
            ) by {
                if out@[idx] == *province {
                    assert(orig.take(done as int + 1)[done as int] == orig[done as int]);
                    assert(province_matches_record(out@[idx], orig[done as int], mapping));
                } else {
                    assert(out@[idx] == old_out[idx]);
                    lemma_province_from_extend(
                        old_out[idx],
                        orig,
                        done as int,
                        done as int + 1,
                        mapping,
                    );
                }
            }
            assert forall|k: int| 0 <= k < done + 1 implies province_id_present(
                out@,
                #[trigger] orig[k],
                mapping,
            ) by {
                if k < done {
                    assert(province_id_present(old_out, orig[k], mapping));
                    let id = spec_resolve_id(&orig[k], province_id_key(mapping)).unwrap();
                    let w = choose|i: int|
                        0 <= i < old_out.len() && (#[trigger] old_out[i]).geo_drawable.id@ == id;
                    assert(out@[w].geo_drawable.id@ == id);
                } else {
                    assert(province_matches_record(*province, orig[done as int], mapping));
                    let w = choose|idx: int|
                        0 <= idx < out@.len() && (#[trigger] out@[idx]) == *province;
                    assert(out@[w].geo_drawable.id@ == province.geo_drawable.id@);
                }
            }
        }
        done = done + 1;
    }
    proof {
        assert(orig.take(total as int) =~= orig);
    }
    Ok(out)
}

} // verus!