//! Geographic points, the target rectangle, and the projection from
//! geographic coordinates onto the 2D drawing surface.

use vstd::arithmetic::div_mod::{
    lemma_div_is_ordered, lemma_div_of0, lemma_fundamental_div_mod,
    lemma_fundamental_div_mod_converse, lemma_mod_division_less_than_divisor,
};
use vstd::arithmetic::mul::lemma_mul_is_commutative;
use vstd::prelude::*;

use crate::errors::{LoadErrorKind, MapLoadError};
use crate::math::{
    area2, in_coord_range, lemma_mul_bound, spec_polygon_contains, Point, COORD_LIMIT,
};

verus! {

/// One microdegree is a millionth of a degree: all geographic coordinates
/// are carried in microdegrees.
pub const LON_OFFSET: i64 = 180_000_000;

/// Width of the longitude domain `[-180, 180]` in microdegrees.
pub const LON_SPAN: i64 = 360_000_000;

/// Offset that shifts the latitude domain `[-90, 90]` to start at zero.
pub const LAT_OFFSET: i64 = 90_000_000;

/// Height of the latitude domain in microdegrees.
pub const LAT_SPAN: i64 = 180_000_000;

/// Largest magnitude accepted for a geographic coordinate (2^28
/// microdegrees, roughly 268 degrees). Inputs outside the valid domain are
/// not rejected and simply project outside the target rectangle, but they
/// must stay within this machine limit.
pub const GEO_LIMIT: i64 = 268_435_456;

/// Largest magnitude accepted for a rectangle origin or extent (2^27
/// microunits). Keeps every projected coordinate within `COORD_LIMIT`.
pub const RECT_LIMIT: i64 = 134_217_728;

/// A geographic position: longitude and latitude in microdegrees.
#[derive(Clone, Copy, PartialEq, Eq, Structural, Debug)]
pub struct GeoPoint {
    pub lon: i64,
    pub lat: i64,
}

/// The target rectangle of the projection, in microunits: origin plus
/// extents.
#[derive(Clone, Copy, PartialEq, Eq, Structural, Debug)]
pub struct Rect {
    pub x: i64,
    pub y: i64,
    pub width: i64,
    pub height: i64,
}

/// The geographic point is within the accepted machine limits.
pub open spec fn geo_point_in_range(g: GeoPoint) -> bool {
    &&& -GEO_LIMIT <= g.lon <= GEO_LIMIT
    &&& -GEO_LIMIT <= g.lat <= GEO_LIMIT
}

/// The rectangle has non-negative extents and stays within the accepted
/// machine limits.
pub open spec fn rect_valid(r: Rect) -> bool {
    &&& -RECT_LIMIT <= r.x <= RECT_LIMIT
    &&& -RECT_LIMIT <= r.y <= RECT_LIMIT
    &&& 0 <= r.width <= RECT_LIMIT
    &&& 0 <= r.height <= RECT_LIMIT
}

/// Horizontal projection: `x = r.x + (lon + 180) * r.width / 360`, scaled to
/// microdegrees, rounding the quotient down.
pub open spec fn spec_project_x(lon: int, r: Rect) -> int {
    r.x + (lon + LON_OFFSET) * r.width / (LON_SPAN as int)
}

/// Vertical projection: `y = r.y + r.height - (lat + 90) * r.height / 180`,
/// scaled to microdegrees, rounding the quotient down. Increasing latitude
/// moves toward the top of the rectangle.
pub open spec fn spec_project_y(lat: int, r: Rect) -> int {
    r.y + r.height - (lat + LAT_OFFSET) * r.height / (LAT_SPAN as int)
}

/// The full projection of a geographic point into the rectangle.
pub open spec fn spec_project(g: GeoPoint, r: Rect) -> Point {
    Point { x: spec_project_x(g.lon as int, r) as i64, y: spec_project_y(g.lat as int, r) as i64 }
}

/// Largest numerator magnitude the projection ever divides (2^56).
pub const PROJ_NUM_LIMIT: i64 = 72_057_594_037_927_936;

/// Quotient of `a / d` rounded toward negative infinity, for a positive
/// divisor.
fn floor_div(a: i64, d: i64) -> (r: i64)
    requires
        -PROJ_NUM_LIMIT <= a <= PROJ_NUM_LIMIT,
        1 <= d <= LON_SPAN,
    ensures
        r as int == a as int / d as int,
{
    if a >= 0 {
        let q = (a as u64) / (d as u64);
        proof {
            lemma_div_is_ordered(a as int, PROJ_NUM_LIMIT as int, d as int);
        }
        q as i64
    } else {
        let m = (-a) as u64;
        let num = m + (d as u64) - 1;
        let qu = num / (d as u64);
        proof {
            let mi = m as int;
            let di = d as int;
            let q0 = (mi + di - 1) / di;
            let r0 = (mi + di - 1) % di;
            lemma_fundamental_div_mod(mi + di - 1, di);
            lemma_mod_division_less_than_divisor(mi + di - 1, di);
            assert((-q0) * di == -(di * q0)) by (nonlinear_arith);
            assert(a as int == (-q0) * di + (di - 1 - r0));
            lemma_fundamental_div_mod_converse(a as int, di, -q0, di - 1 - r0);
            lemma_div_is_ordered(mi + di - 1, PROJ_NUM_LIMIT as int + LON_SPAN as int, di);
        }
        -(qu as i64)
    }
}

/// The projection of an in-range geographic point lands within
/// `COORD_LIMIT`, so projected rings satisfy the geometry routines' bounds.
pub proof fn lemma_project_in_range(g: GeoPoint, r: Rect)
    requires
        geo_point_in_range(g),
        rect_valid(r),
    ensures
        in_coord_range(spec_project(g, r)),
        -COORD_LIMIT <= spec_project_x(g.lon as int, r) <= COORD_LIMIT,
        -COORD_LIMIT <= spec_project_y(g.lat as int, r) <= COORD_LIMIT,
{
    let xnum = (g.lon + LON_OFFSET) * r.width;
    let ynum = (g.lat + LAT_OFFSET) * r.height;
    lemma_mul_bound(g.lon + LON_OFFSET, r.width as int, GEO_LIMIT + LON_OFFSET, RECT_LIMIT as int);
    lemma_mul_bound(g.lat + LAT_OFFSET, r.height as int, GEO_LIMIT + LAT_OFFSET, RECT_LIMIT as int);
    lemma_div_is_ordered(xnum, PROJ_NUM_LIMIT as int, LON_SPAN as int);
    lemma_div_is_ordered(-(PROJ_NUM_LIMIT as int), xnum, LON_SPAN as int);
    lemma_div_is_ordered(ynum, PROJ_NUM_LIMIT as int, LAT_SPAN as int);
    lemma_div_is_ordered(-(PROJ_NUM_LIMIT as int), ynum, LAT_SPAN as int);
}

/// Project one geographic point into the target rectangle: linear in each
/// axis up to the fixed-point rounding, with the vertical axis flipped so
/// that increasing latitude moves toward the top.
pub fn to_vector(point: GeoPoint, bounds: &Rect) -> (r: Point)
    requires
        geo_point_in_range(point),
        rect_valid(*bounds),
    ensures
        r == spec_project(point, *bounds),
        in_coord_range(r),
{
    proof {
        lemma_mul_bound(
            point.lon + LON_OFFSET,
            bounds.width as int,
            GEO_LIMIT + LON_OFFSET,
            RECT_LIMIT as int,
        );
        lemma_mul_bound(
            point.lat + LAT_OFFSET,
            bounds.height as int,
            GEO_LIMIT + LAT_OFFSET,
            RECT_LIMIT as int,
        );
        lemma_project_in_range(point, *bounds);
    }
    let xnum: i64 = (point.lon + LON_OFFSET) * bounds.width;
    let ynum: i64 = (point.lat + LAT_OFFSET) * bounds.height;
    let qx = floor_div(xnum, LON_SPAN);
    let qy = floor_div(ynum, LAT_SPAN);
    let x = bounds.x + qx;
    let y = bounds.y + bounds.height - qy;
    Point { x, y }
}

/// Projecting the four corners of the geographic domain yields the four
/// corners of the target rectangle, with the vertical flip: south maps to
/// the bottom edge and north to the top edge.
pub proof fn lemma_project_corners(r: Rect)
    requires
        rect_valid(r),
    ensures
        spec_project(GeoPoint { lon: (-LON_OFFSET) as i64, lat: (-LAT_OFFSET) as i64 }, r) == (Point {
            x: r.x,
            y: (r.y + r.height) as i64,
        }),
        spec_project(GeoPoint { lon: LON_OFFSET, lat: (-LAT_OFFSET) as i64 }, r) == (Point {
            x: (r.x + r.width) as i64,
            y: (r.y + r.height) as i64,
        }),
        spec_project(GeoPoint { lon: (-LON_OFFSET) as i64, lat: LAT_OFFSET }, r) == (Point {
            x: r.x,
            y: r.y,
        }),
        spec_project(GeoPoint { lon: LON_OFFSET, lat: LAT_OFFSET }, r) == (Point {
            x: (r.x + r.width) as i64,
            y: r.y,
        }),
{
    lemma_div_of0(LON_SPAN as int);
    lemma_div_of0(LAT_SPAN as int);
    lemma_exact_quotient(r.width as int, LON_SPAN as int);
    lemma_exact_quotient(r.height as int, LAT_SPAN as int);
    assert(((-LON_OFFSET) as int + LON_OFFSET) * r.width == 0) by (nonlinear_arith);
    assert((LON_OFFSET + LON_OFFSET) * r.width == LON_SPAN * r.width) by (nonlinear_arith);
    assert(((-LAT_OFFSET) as int + LAT_OFFSET) * r.height == 0) by (nonlinear_arith);
    assert((LAT_OFFSET + LAT_OFFSET) * r.height == LAT_SPAN * r.height) by (nonlinear_arith);
}

/// `(d * w) / d == w` for a positive divisor.
proof fn lemma_exact_quotient(w: int, d: int)
    requires
        0 < d,
    ensures
        (d * w) / d == w,
{
    lemma_mul_is_commutative(d, w);
    lemma_fundamental_div_mod_converse(d * w, d, w, 0);
}

/// The projection is the floor of a map linear in the coordinate: the
/// unrounded product is sandwiched within one divisor step of the scaled
/// result. Together with `lemma_project_linear` this pins the projection as
/// deterministic and linear in each axis up to fixed-point rounding.
pub proof fn lemma_project_x_floor(lon: int, r: Rect)
    ensures
        (LON_SPAN as int) * (spec_project_x(lon, r) - r.x) <= (lon + LON_OFFSET) * r.width < (
        LON_SPAN as int) * (spec_project_x(lon, r) - r.x) + LON_SPAN,
{
    let num = (lon + LON_OFFSET) * r.width;
    let d = LON_SPAN as int;
    lemma_fundamental_div_mod(num, d);
    lemma_mod_division_less_than_divisor(num, d);
    lemma_mul_is_commutative(d, num / d);
}

/// Exact linearity on the horizontal axis: where the fixed-point division
/// is exact, differences of projected coordinates are exactly proportional
/// to differences of longitudes.
pub proof fn lemma_project_linear(lon1: int, lon2: int, r: Rect)
    requires
        (lon1 + LON_OFFSET) * r.width % (LON_SPAN as int) == 0,
        (lon2 + LON_OFFSET) * r.width % (LON_SPAN as int) == 0,
    ensures
        (spec_project_x(lon1, r) - spec_project_x(lon2, r)) * (LON_SPAN as int) == (lon1 - lon2)
            * r.width,
{
    let d = LON_SPAN as int;
    let n1 = (lon1 + LON_OFFSET) * r.width;
    let n2 = (lon2 + LON_OFFSET) * r.width;
    let q1 = n1 / d;
    let q2 = n2 / d;
    lemma_fundamental_div_mod(n1, d);
    lemma_fundamental_div_mod(n2, d);
    lemma_mul_is_commutative(d, q1);
    lemma_mul_is_commutative(d, q2);
    assert((q1 - q2) * d == q1 * d - q2 * d) by (nonlinear_arith);
    assert((lon1 + LON_OFFSET) * r.width - (lon2 + LON_OFFSET) * r.width == (lon1 - lon2)
        * r.width) by (nonlinear_arith);
}

/// The projection preserves order on each axis: west stays left of east,
/// and north stays above south.
pub proof fn lemma_project_monotone(g1: GeoPoint, g2: GeoPoint, r: Rect)
    requires
        rect_valid(r),
        g1.lon <= g2.lon,
        g1.lat <= g2.lat,
    ensures
        spec_project_x(g1.lon as int, r) <= spec_project_x(g2.lon as int, r),
        spec_project_y(g1.lat as int, r) >= spec_project_y(g2.lat as int, r),
{
    assert((g1.lon + LON_OFFSET) * r.width <= (g2.lon + LON_OFFSET) * r.width) by (nonlinear_arith)
        requires
            g1.lon <= g2.lon,
            r.width >= 0,
    ;
    assert((g1.lat + LAT_OFFSET) * r.height <= (g2.lat + LAT_OFFSET) * r.height)
        by (nonlinear_arith)
        requires
            g1.lat <= g2.lat,
            r.height >= 0,
    ;
    lemma_div_is_ordered(
        (g1.lon + LON_OFFSET) * r.width,
        (g2.lon + LON_OFFSET) * r.width,
        LON_SPAN as int,
    );
    lemma_div_is_ordered(
        (g1.lat + LAT_OFFSET) * r.height,
        (g2.lat + LAT_OFFSET) * r.height,
        LAT_SPAN as int,
    );
}

/// The vertical projection is the flipped floor of a map linear in the
/// latitude: the unrounded product is sandwiched within one divisor step
/// of the scaled result.
pub proof fn lemma_project_y_floor(lat: int, r: Rect)
    ensures
        (LAT_SPAN as int) * (r.y + r.height - spec_project_y(lat, r)) <= (lat + LAT_OFFSET)
            * r.height < (LAT_SPAN as int) * (r.y + r.height - spec_project_y(lat, r)) + LAT_SPAN,
{
    let num = (lat + LAT_OFFSET) * r.height;
    let d = LAT_SPAN as int;
    lemma_fundamental_div_mod(num, d);
    lemma_mod_division_less_than_divisor(num, d);
    lemma_mul_is_commutative(d, num / d);
}

/// Exact linearity on the vertical axis: where the fixed-point division is
/// exact, differences of projected coordinates are exactly proportional to
/// differences of latitudes, with the sign flipped.
pub proof fn lemma_project_y_linear(lat1: int, lat2: int, r: Rect)
    requires
        (lat1 + LAT_OFFSET) * r.height % (LAT_SPAN as int) == 0,
        (lat2 + LAT_OFFSET) * r.height % (LAT_SPAN as int) == 0,
    ensures
        (spec_project_y(lat2, r) - spec_project_y(lat1, r)) * (LAT_SPAN as int) == (lat1 - lat2)
            * r.height,
{
    let d = LAT_SPAN as int;
    let n1 = (lat1 + LAT_OFFSET) * r.height;
    let n2 = (lat2 + LAT_OFFSET) * r.height;
    let q1 = n1 / d;
    let q2 = n2 / d;
    lemma_fundamental_div_mod(n1, d);
    lemma_fundamental_div_mod(n2, d);
    lemma_mul_is_commutative(d, q1);
    lemma_mul_is_commutative(d, q2);
    assert((q1 - q2) * d == q1 * d - q2 * d) by (nonlinear_arith);
    assert((lat1 + LAT_OFFSET) * r.height - (lat2 + LAT_OFFSET) * r.height == (lat1 - lat2)
        * r.height) by (nonlinear_arith);
}

/// Geometry carried by one feature record: a single polygon, a
/// multi-polygon, or a kind this library does not accept. A polygon is a
/// sequence of rings (outer ring plus holes), each ring still carrying its
/// closing point as the interchange format mandates.
#[derive(Debug)]
pub enum GeoGeometry {
    Polygon(Vec<Vec<GeoPoint>>),
    MultiPolygon(Vec<Vec<Vec<GeoPoint>>>),
    Unsupported,
}

/// One feature of a feature collection, reduced to plain values: an optional
/// embedded identifier, a property lookup, and an optional geometry.
#[derive(Debug)]
pub struct FeatureRecord {
    pub embedded_id: Option<String>,
    pub properties: Vec<(String, String)>,
    pub geometry: Option<GeoGeometry>,
}

/// Value of the first property whose key equals `key`, if any.
pub open spec fn spec_lookup(props: Seq<(String, String)>, key: Seq<char>) -> Option<Seq<char>>
    decreases props.len(),
{
    if props.len() == 0 {
        None
    } else if props[0].0@ == key {
        Some(props[0].1@)
    } else {
        spec_lookup(props.drop_first(), key)
    }
}

/// View of an optional borrowed string.
pub open spec fn opt_key_view(o: Option<&String>) -> Option<Seq<char>> {
    match o {
        Some(s) => Some(s@),
        None => None,
    }
}

/// The id a record resolves to: the value of the specified property if a
/// property was specified, else the embedded identifier.
pub open spec fn spec_resolve_id(rec: &FeatureRecord, id_property: Option<Seq<char>>) -> Option<
    Seq<char>,
> {
    match id_property {
        Some(k) => spec_lookup(rec.properties@, k),
        None => match rec.embedded_id {
            Some(s) => Some(s@),
            None => None,
        },
    }
}

/// The record's geometry normalized to a list of polygons: a bare polygon
/// becomes a one-element list, a multi-polygon is used as is, anything else
/// is rejected.
pub open spec fn spec_polygons_of(g: &Option<GeoGeometry>) -> Option<Seq<Vec<Vec<GeoPoint>>>> {
    match g {
        Some(GeoGeometry::Polygon(p)) => Some(seq![*p]),
        Some(GeoGeometry::MultiPolygon(m)) => Some(m@),
        Some(GeoGeometry::Unsupported) => None,
        None => None,
    }
}

/// The ring with its closing duplicate point removed.
pub open spec fn spec_open_ring(ring: Seq<GeoPoint>) -> Seq<GeoPoint> {
    if ring.len() == 0 {
        ring
    } else {
        ring.drop_last()
    }
}

/// The rings of one polygon, each opened.
pub open spec fn open_poly_rings(p: Vec<Vec<GeoPoint>>) -> Seq<Seq<GeoPoint>> {
    Seq::new(p@.len(), |i: int| spec_open_ring(p@[i]@))
}

/// All rings of a list of polygons, in order, each opened. The polygon
/// grouping plays no further role once the rings are collected.
pub open spec fn concat_open(polys: Seq<Vec<Vec<GeoPoint>>>) -> Seq<Seq<GeoPoint>>
    decreases polys.len(),
{
    if polys.len() == 0 {
        Seq::empty()
    } else {
        concat_open(polys.drop_last()) + open_poly_rings(polys.last())
    }
}

/// The opened rings a record yields, if its geometry is acceptable.
pub open spec fn spec_record_rings(rec: &FeatureRecord) -> Option<Seq<Seq<GeoPoint>>> {
    match spec_polygons_of(&rec.geometry) {
        Some(polys) => Some(concat_open(polys)),
        None => None,
    }
}

/// Look a property up by key and hand back its value: the first pair with a
/// matching key wins.
pub fn get_feature_property(record: &FeatureRecord, key: &String) -> (r: Option<String>)
    ensures
        match r {
            Some(v) => spec_lookup(record.properties@, key@) == Some(v@),
            None => spec_lookup(record.properties@, key@) is None,
        },
{
    let n = record.properties.len();
    let mut i: usize = 0;
    proof {
        assert(record.properties@.skip(0) =~= record.properties@);
    }
    while i < n
        invariant
            n == record.properties@.len(),
            i <= n,
            spec_lookup(record.properties@, key@) == spec_lookup(
                record.properties@.skip(i as int),
                key@,
            ),
        decreases n - i,
    {
        let pair = record.properties.get(i).unwrap();
        proof {
            assert(record.properties@.skip(i as int)[0] == record.properties@[i as int]);
            assert(record.properties@.skip(i as int).drop_first() =~= record.properties@.skip(
                i as int + 1,
            ));
        }
        if pair.0.eq(key) {
            return Some(pair.1.clone());
        }
        proof {
            assert(spec_lookup(record.properties@.skip(i as int), key@) == spec_lookup(
                record.properties@.skip(i as int + 1),
                key@,
            ));
        }
        i = i + 1;
    }
    proof {
        assert(record.properties@.skip(n as int) =~= Seq::<(String, String)>::empty());
    }
    None
}

/// Largest total vertex count accepted in one feature (2^40 points). Keeps
/// the accumulated doubled area within `u128`.
pub const POINT_LIMIT: u64 = 1_099_511_627_776;

/// Total vertex count of a sequence of rings.
pub open spec fn total_points<A>(rs: Seq<Seq<A>>) -> int
    decreases rs.len(),
{
    if rs.len() == 0 {
        0
    } else {
        total_points(rs.drop_last()) + rs.last().len()
    }
}

/// Every point of every ring is within the geographic machine limits.
pub open spec fn geo_rings_in_range(rs: Seq<Seq<GeoPoint>>) -> bool {
    forall|i: int, j: int|
        0 <= i < rs.len() && 0 <= j < rs[i].len() ==> geo_point_in_range(#[trigger] rs[i][j])
}

/// Pointwise projection of a sequence of geographic rings.
pub open spec fn projection_of(rs: Seq<Seq<GeoPoint>>, rect: Rect) -> Seq<Seq<Point>> {
    Seq::new(rs.len(), |i: int| Seq::new(rs[i].len(), |j: int| spec_project(rs[i][j], rect)))
}

/// Sequence of ring views of a vector of projected rings.
pub open spec fn rings_view(v: Seq<Vec<Point>>) -> Seq<Seq<Point>> {
    Seq::new(v.len(), |i: int| v[i]@)
}

/// Sequence of ring views of a vector of geographic rings.
pub open spec fn geo_view(v: Seq<Vec<GeoPoint>>) -> Seq<Seq<GeoPoint>> {
    Seq::new(v.len(), |i: int| v[i]@)
}

/// Sum of the doubled areas of a sequence of projected rings.
pub open spec fn spec_total_area2(rs: Seq<Seq<Point>>) -> int
    decreases rs.len(),
{
    if rs.len() == 0 {
        0
    } else {
        spec_total_area2(rs.drop_last()) + area2(rs.last())
    }
}

/// The record stays within the machine limits: every point of its opened
/// rings is in geographic range and the total vertex count is bounded.
/// Records whose geometry is rejected anyway are unconstrained.
pub open spec fn spec_feature_within_limits(rec: &FeatureRecord) -> bool {
    match spec_record_rings(rec) {
        Some(rs) => geo_rings_in_range(rs) && total_points(rs) <= POINT_LIMIT,
        None => true,
    }
}

/// Extending a prefix of rings by one ring adds that ring's vertex count.
proof fn lemma_total_points_take_step<A>(rs: Seq<Seq<A>>, k: int)
    requires
        0 <= k < rs.len(),
    ensures
        total_points(rs.take(k + 1)) == total_points(rs.take(k)) + rs[k].len(),
{
    assert(rs.take(k + 1).drop_last() =~= rs.take(k));
    assert(rs.take(k + 1).last() == rs[k]);
}

/// A prefix never holds more vertices than the whole.
proof fn lemma_total_points_take_le<A>(rs: Seq<Seq<A>>, k: int)
    requires
        0 <= k <= rs.len(),
    ensures
        total_points(rs.take(k)) <= total_points(rs),
    decreases rs.len(),
{
    if k == rs.len() {
        assert(rs.take(k) =~= rs);
    } else {
        assert(rs.take(k) =~= rs.drop_last().take(k));
        lemma_total_points_take_le(rs.drop_last(), k);
    }
}

/// Every ring of the projection of in-range rings into a valid rectangle is
/// within the coordinate bounds of the geometry routines.
pub proof fn lemma_projected_ring_in_range(rs: Seq<Seq<GeoPoint>>, rect: Rect, i: int)
    requires
        geo_rings_in_range(rs),
        rect_valid(rect),
        0 <= i < rs.len(),
    ensures
        crate::math::ring_in_range(projection_of(rs, rect)[i]),
{
    assert forall|j: int|
        0 <= j < projection_of(rs, rect)[i].len() implies in_coord_range(
        #[trigger] projection_of(rs, rect)[i][j],
    ) by {
        lemma_project_in_range(rs[i][j], rect);
    }
}

/// An identified, named geographic region: its raw geographic rings (stored
/// open, the closing duplicate point dropped, the polygon grouping
/// flattened away), their current projection into the target rectangle, one
/// bounding box per projected ring, and the doubled total projected area.
/// The projected state is always consistent with `rect`, the rectangle most
/// recently projected into.
#[derive(Debug)]
pub struct GeoDrawable {
    pub id: String,
    pub name: String,
    pub geo_polygons: Vec<Vec<GeoPoint>>,
    pub vector_polygons: Vec<Vec<Point>>,
    pub vector_total_area2: u128,
    pub bounds: Vec<crate::math::Bounds>,
    pub rect: Rect,
}

impl GeoDrawable {
    /// The stored geographic rings.
    pub open spec fn geo_rings(&self) -> Seq<Seq<GeoPoint>> {
        geo_view(self.geo_polygons@)
    }

    /// The projected rings.
    pub open spec fn rings(&self) -> Seq<Seq<Point>> {
        rings_view(self.vector_polygons@)
    }

    /// The projected state is exactly what projecting the stored rings into
    /// `rect` yields: rings, bounding boxes, and doubled total area.
    pub open spec fn projection_fresh(&self, rect: Rect) -> bool {
        &&& self.rings() == projection_of(self.geo_rings(), rect)
        &&& self.bounds@.len() == self.vector_polygons@.len()
        &&& forall|i: int|
            0 <= i < self.bounds@.len() ==> crate::math::is_ring_bounds(
                #[trigger] self.bounds@[i],
                self.vector_polygons@[i]@,
            )
        &&& self.vector_total_area2 == spec_total_area2(self.rings())
    }

    /// Whether any projected ring of the feature contains the point.
    pub open spec fn spec_includes(&self, point: Point) -> bool {
        exists|i: int|
            0 <= i < self.rings().len() && spec_polygon_contains(point, #[trigger] self.rings()[i])
    }

    /// Well-formedness: valid rectangle, in-range geography within the
    /// vertex budget, and derived state consistent with the rectangle.
    pub open spec fn wf(&self) -> bool {
        &&& rect_valid(self.rect)
        &&& geo_rings_in_range(self.geo_rings())
        &&& total_points(self.geo_rings()) <= POINT_LIMIT
        &&& self.projection_fresh(self.rect)
    }
}

/// Project one geographic ring into the rectangle, point by point.
fn project_one_ring(ring: &Vec<GeoPoint>, rect: &Rect) -> (r: Vec<Point>)
    requires
        rect_valid(*rect),
        forall|j: int| 0 <= j < ring@.len() ==> geo_point_in_range(#[trigger] ring@[j]),
    ensures
        r@.len() == ring@.len(),
        forall|j: int| 0 <= j < r@.len() ==> #[trigger] r@[j] == spec_project(ring@[j], *rect),
        crate::math::ring_in_range(r@),
{
    let n = ring.len();
    let mut out: Vec<Point> = Vec::new();
    let mut j: usize = 0;
    while j < n
        invariant
            rect_valid(*rect),
            forall|k: int| 0 <= k < ring@.len() ==> geo_point_in_range(#[trigger] ring@[k]),
            n == ring@.len(),
            j <= n,
            out@.len() == j,
            forall|k: int|
                0 <= k < j ==> #[trigger] out@[k] == spec_project(ring@[k], *rect),
            crate::math::ring_in_range(out@),
        decreases n - j,
    {
        let p = to_vector(*ring.get(j).unwrap(), rect);
        out.push(p);
        j = j + 1;
    }
    out
}

/// Project every stored ring into the rectangle and derive the per-ring
/// bounding boxes and the doubled total area.
fn project_all(geo: &Vec<Vec<GeoPoint>>, rect: &Rect) -> (res: (
    Vec<Vec<Point>>,
    Vec<crate::math::Bounds>,
    u128,
))
    requires
        rect_valid(*rect),
        geo_rings_in_range(geo_view(geo@)),
        total_points(geo_view(geo@)) <= POINT_LIMIT,
    ensures
        rings_view(res.0@) == projection_of(geo_view(geo@), *rect),
        res.1@.len() == res.0@.len(),
        forall|i: int|
            0 <= i < res.1@.len() ==> crate::math::is_ring_bounds(
                #[trigger] res.1@[i],
                res.0@[i]@,
            ),
        res.2 == spec_total_area2(rings_view(res.0@)),
{
    let n = geo.len();
    let mut out: Vec<Vec<Point>> = Vec::new();
    let mut boxes: Vec<crate::math::Bounds> = Vec::new();
    let mut area_acc: u128 = 0;
    let mut pts: u64 = 0;
    let mut i: usize = 0;
    while i < n
        invariant
            rect_valid(*rect),
            geo_rings_in_range(geo_view(geo@)),
            total_points(geo_view(geo@)) <= POINT_LIMIT,
            n == geo@.len(),
            i <= n,
            out@.len() == i,
            boxes@.len() == i,
            forall|k: int|
                0 <= k < i ==> #[trigger] out@[k]@ == projection_of(geo_view(geo@), *rect)[k],
            forall|k: int|
                0 <= k < i ==> crate::math::is_ring_bounds(#[trigger] boxes@[k], out@[k]@),
            pts == total_points(geo_view(geo@).take(i as int)),
            area_acc == spec_total_area2(rings_view(out@)),
            area_acc <= (pts as int) * (crate::math::CROSS_BOUND as int),
        decreases n - i,
    {
        let ring = geo.get(i).unwrap();
        proof {
            assert(geo_view(geo@)[i as int] == ring@);
        }
        let pring = project_one_ring(ring, rect);
        proof {
            assert(pring@ =~= projection_of(geo_view(geo@), *rect)[i as int]);
        }
        let b = crate::math::ring_bounds(&pring);
        let a = crate::math::polygon_area2(&pring);
        proof {
            crate::math::lemma_area2_bound(pring@);
            lemma_total_points_take_step(geo_view(geo@), i as int);
            lemma_total_points_take_le(geo_view(geo@), i as int + 1);
            assert(rings_view(out@.push(pring)).drop_last() =~= rings_view(out@));
            assert(rings_view(out@.push(pring)).last() == pring@);
        }
        pts = pts + ring.len() as u64;
        area_acc = area_acc + a;
        out.push(pring);
        boxes.push(b);
        i = i + 1;
        proof {
            assert(forall|k: int|
                0 <= k < i ==> #[trigger] out@[k]@ == projection_of(geo_view(geo@), *rect)[k]);
        }
    }
    proof {
        assert(rings_view(out@) =~= projection_of(geo_view(geo@), *rect));
    }
    (out, boxes, area_acc)
}

impl GeoDrawable {
    /// Build a feature from one record against the caller's rectangle:
    /// resolve the id (from the specified property, else the embedded
    /// identifier), resolve the name, normalize the geometry to a list of
    /// polygons, drop each ring's closing duplicate point, then project
    /// every ring and derive bounds and total area. Each failure names the
    /// first step that failed; a failure rejects the feature as a whole.
    pub fn new(
        record: FeatureRecord,
        world_bounds: &Rect,
        name_property: &String,
        id_property: Option<&String>,
    ) -> (r: Result<Box<GeoDrawable>, MapLoadError>)
        requires
            rect_valid(*world_bounds),
            spec_feature_within_limits(&record),
        ensures
            r is Ok <==> {
                &&& spec_resolve_id(&record, opt_key_view(id_property)) is Some
                &&& spec_lookup(record.properties@, name_property@) is Some
                &&& spec_record_rings(&record) is Some
            },
            match r {
                Ok(d) => {
                    &&& d.wf()
                    &&& d.rect == *world_bounds
                    &&& Some(d.id@) == spec_resolve_id(&record, opt_key_view(id_property))
                    &&& Some(d.name@) == spec_lookup(record.properties@, name_property@)
                    &&& Some(d.geo_rings()) == spec_record_rings(&record)
                },
                Err(e) => {
                    &&& (e.kind == LoadErrorKind::MissingId <==> spec_resolve_id(
                        &record,
                        opt_key_view(id_property),
                    ) is None)
                    &&& (e.kind == LoadErrorKind::MissingName <==> spec_resolve_id(
                        &record,
                        opt_key_view(id_property),
                    ) is Some && spec_lookup(record.properties@, name_property@) is None)
                    &&& (e.kind == LoadErrorKind::MissingOrInvalidGeometry <==> spec_resolve_id(
                        &record,
                        opt_key_view(id_property),
                    ) is Some && spec_lookup(record.properties@, name_property@) is Some
                        && spec_record_rings(&record) is None)
                },
            },
    {
        let id_opt: Option<String> = match id_property {
            Some(k) => get_feature_property(&record, k),
            None => match &record.embedded_id {
                Some(s) => Some(s.clone()),
                None => None,
            },
        };
        let id = match id_opt {
            Some(v) => v,
            None => {
                return Err(
                    MapLoadError::new(
                        LoadErrorKind::MissingId,
                        String::from_str("feature id not found"),
                    ),
                );
            },
        };
        let name = match get_feature_property(&record, name_property) {
            Some(v) => v,
            None => {
                return Err(
                    MapLoadError::new(
                        LoadErrorKind::MissingName,
                        String::from_str("feature name not found"),
                    ),
                );
            },
        };
        let polys: Vec<Vec<Vec<GeoPoint>>> = match record.geometry {
            Some(GeoGeometry::Polygon(p)) => {
                let mut v: Vec<Vec<Vec<GeoPoint>>> = Vec::new();
                v.push(p);
                proof {
                    assert(v@ =~= spec_polygons_of(&record.geometry).unwrap());
                }
                v
            },
            Some(GeoGeometry::MultiPolygon(m)) => m,
            Some(GeoGeometry::Unsupported) => {
                return Err(
                    MapLoadError::new(
                        LoadErrorKind::MissingOrInvalidGeometry,
                        String::from_str("feature geometry missing or of an unsupported kind"),
                    ),
                );
            },
            None => {
                return Err(
                    MapLoadError::new(
                        LoadErrorKind::MissingOrInvalidGeometry,
                        String::from_str("feature geometry missing or of an unsupported kind"),
                    ),
                );
            },
        };
        proof {
            assert(spec_polygons_of(&record.geometry) == Some(polys@));
        }
        let mut geo_polygons: Vec<Vec<GeoPoint>> = Vec::new();
        let np = polys.len();
        let mut pi: usize = 0;
        proof {
            assert(geo_view(geo_polygons@) =~= concat_open(polys@.take(0)));
        }
        while pi < np
            invariant
                np == polys@.len(),
                pi <= np,
                geo_view(geo_polygons@) == concat_open(polys@.take(pi as int)),
            decreases np - pi,
        {
            let poly = polys.get(pi).unwrap();
            let nr = poly.len();
            let mut ri: usize = 0;
            proof {
                assert(open_poly_rings(polys@[pi as int]).take(0) =~= Seq::<
                    Seq<GeoPoint>,
                >::empty());
                assert(geo_view(geo_polygons@) =~= concat_open(polys@.take(pi as int))
                    + open_poly_rings(polys@[pi as int]).take(0));
            }
            while ri < nr
                invariant
                    np == polys@.len(),
                    pi < np,
                    poly@ == polys@[pi as int]@,
                    nr == poly@.len(),
                    ri <= nr,
                    geo_view(geo_polygons@) == concat_open(polys@.take(pi as int))
                        + open_poly_rings(polys@[pi as int]).take(ri as int),
                decreases nr - ri,
            {
                let ring = poly.get(ri).unwrap();
                let rl = ring.len();
                let keep = if rl == 0 {
                    0
                } else {
                    rl - 1
                };
                let mut open_ring: Vec<GeoPoint> = Vec::new();
                let mut j: usize = 0;
                while j < keep
                    invariant
                        keep <= ring@.len(),
                        j <= keep,
                        open_ring@.len() == j,
                        forall|t: int| 0 <= t < j ==> #[trigger] open_ring@[t] == ring@[t],
                    decreases keep - j,
                {
                    open_ring.push(*ring.get(j).unwrap());
                    j = j + 1;
                }
                proof {
                    assert(open_ring@ =~= spec_open_ring(ring@));
                    assert(ring@ == polys@[pi as int]@[ri as int]@);
                }
                proof {
                    assert(open_poly_rings(polys@[pi as int]).take(ri as int).len() == ri as int);
                    assert(geo_view(geo_polygons@).len() == concat_open(
                        polys@.take(pi as int),
                    ).len() + ri as int);
                    assert(geo_view(geo_polygons@).len() == geo_polygons@.len());
                }
                geo_polygons.push(open_ring);
                proof {
                    let prefix = concat_open(polys@.take(pi as int));
                    let opened = open_poly_rings(polys@[pi as int]);
                    let target = prefix + opened.take(ri as int + 1);
                    assert(geo_view(geo_polygons@).len() == target.len());
                    assert forall|idx: int|
                        0 <= idx < target.len() implies geo_view(geo_polygons@)[idx] == target[idx]
                    by {
                        if idx < target.len() - 1 {
                            assert(geo_view(geo_polygons@)[idx] == (prefix + opened.take(
                                ri as int,
                            ))[idx]);
                            if idx >= prefix.len() {
                                assert(opened.take(ri as int)[idx - prefix.len()] == opened.take(
                                    ri as int + 1,
                                )[idx - prefix.len()]);
                            }
                        } else {
                            assert(geo_view(geo_polygons@)[idx] == spec_open_ring(
                                polys@[pi as int]@[ri as int]@,
                            ));
                            assert(target[idx] == opened.take(ri as int + 1)[ri as int]);
                            assert(opened.take(ri as int + 1)[ri as int] == opened[ri as int]);
                        }
                    }
                    assert(geo_view(geo_polygons@) =~= target);
                }
                ri = ri + 1;
            }
            proof {
                assert(open_poly_rings(polys@[pi as int]).take(nr as int) =~= open_poly_rings(
                    polys@[pi as int],
                ));
                assert(polys@.take(pi as int + 1).drop_last() =~= polys@.take(pi as int));
                assert(polys@.take(pi as int + 1).last() == polys@[pi as int]);
                assert(geo_view(geo_polygons@) == concat_open(polys@.take(pi as int + 1)));
            }
            pi = pi + 1;
        }
        proof {
            assert(polys@.take(np as int) =~= polys@);
            assert(geo_view(geo_polygons@) == concat_open(polys@));
        }
        let (vector_polygons, boxes, area) = project_all(&geo_polygons, world_bounds);
        Ok(
            Box::new(
                GeoDrawable {
                    id,
                    name,
                    geo_polygons,
                    vector_polygons,
                    vector_total_area2: area,
                    bounds: boxes,
                    rect: *world_bounds,
                },
            ),
        )
    }

    /// Re-project every stored ring against a new rectangle and refresh the
    /// derived bounds and total area. The geographic rings, id, and name
    /// never change after construction.
    pub fn on_resize(&mut self, world_bounds: &Rect)
        requires
            old(self).wf(),
            rect_valid(*world_bounds),
        ensures
            final(self).wf(),
            final(self).rect == *world_bounds,
            final(self).geo_polygons == old(self).geo_polygons,
            final(self).id == old(self).id,
            final(self).name == old(self).name,
    {
        let (vector_polygons, boxes, area) = project_all(&self.geo_polygons, world_bounds);
        self.vector_polygons = vector_polygons;
        self.bounds = boxes;
        self.vector_total_area2 = area;
        self.rect = *world_bounds;
    }

    /// Whether any projected ring of the feature contains the point. Each
    /// ring's bounding box is consulted first; by `lemma_bounds_prefilter`
    /// that short-circuit never changes the answer.
    pub fn includes(&self, point: Point) -> (r: bool)
        requires
            self.wf(),
        ensures
            r == self.spec_includes(point),
    {
        let n = self.vector_polygons.len();
        let mut i: usize = 0;
        while i < n
            invariant
                self.wf(),
                n == self.vector_polygons@.len(),
                i <= n,
                forall|k: int|
                    0 <= k < i ==> !spec_polygon_contains(point, #[trigger] self.rings()[k]),
            decreases n - i,
        {
            let in_box = self.bounds.get(i).unwrap().contains(point);
            if in_box {
                proof {
                    lemma_projected_ring_in_range(self.geo_rings(), self.rect, i as int);
                    assert(self.rings()[i as int] == self.vector_polygons@[i as int]@);
                }
                if crate::math::polygon_contains(point, self.vector_polygons.get(i).unwrap()) {
                    return true;
                }
            } else {
                proof {
                    crate::math::lemma_bounds_prefilter(
                        self.vector_polygons@[i as int]@,
                        self.bounds@[i as int],
                        point,
                    );
                }
            }
            i = i + 1;
        }
        false
    }
}

/// Two features with the same geographic rings whose projections are both
/// fresh against the same rectangle agree on every piece of derived state:
/// re-projection depends only on the geography and the latest rectangle, so
/// any number of earlier resizes leaves no trace.
pub proof fn lemma_reprojection_agrees(a: &GeoDrawable, b: &GeoDrawable, rect: Rect)
    requires
        a.geo_rings() == b.geo_rings(),
        a.projection_fresh(rect),
        b.projection_fresh(rect),
    ensures
        a.rings() == b.rings(),
        a.bounds@ == b.bounds@,
        a.vector_total_area2 == b.vector_total_area2,
{
    assert(a.rings() == b.rings());
    assert(a.bounds@.len() == b.bounds@.len());
    assert forall|i: int| 0 <= i < a.bounds@.len() implies a.bounds@[i] == b.bounds@[i] by {
        assert(a.vector_polygons@[i]@ == a.rings()[i]);
        assert(b.vector_polygons@[i]@ == b.rings()[i]);
        let s = a.vector_polygons@[i]@;
        if s.len() == 0 {
        }
    }
    assert(a.bounds@ =~= b.bounds@);
}

} // verus!
