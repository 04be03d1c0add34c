//! The geometry values the engine works on, and their mathematical models.
//!
//! A geometry is either one shape (point, line string, linear ring,
//! polygon, or a multi variant) or a collection of shapes. Coordinates are
//! fixed-point scalars (see [`crate::scalar`]). Every list the engine
//! stores is capped at [`CAP`] entries and every coordinate is bounded by
//! [`COORD_LIMIT`]; together the caps keep all of the engine's integer
//! arithmetic within `i128`, and they are enforced at construction, never
//! assumed.

use vstd::prelude::*;

verus! {

/// Largest admissible magnitude of a coordinate, in scalar units.
pub const COORD_LIMIT: i64 = 1_000_000_000_000;

/// Largest number of entries in any list the engine stores: vertices in a
/// ring, rings in a polygon, members of a multi geometry or collection.
pub const CAP: usize = 1000;

/// One coordinate tuple, in scalar units.
#[derive(Clone, Copy, Debug, PartialEq, Eq, Structural)]
pub struct Coord {
    pub x: i64,
    pub y: i64,
}

/// Model of a coordinate: the pair of unit counts as unbounded integers.
pub struct CoordRep {
    pub x: int,
    pub y: int,
}

impl View for Coord {
    type V = CoordRep;

    open spec fn view(&self) -> CoordRep {
        CoordRep { x: self.x as int, y: self.y as int }
    }
}

/// Model of a vertex list.
pub open spec fn ring_rep(v: Seq<Coord>) -> Seq<CoordRep> {
    v.map_values(|c: Coord| c@)
}

/// Model of a list of vertex lists.
pub open spec fn rings_rep(v: Seq<Vec<Coord>>) -> Seq<Seq<CoordRep>> {
    v.map_values(|r: Vec<Coord>| ring_rep(r@))
}

/// Model of a list of polygons.
pub open spec fn polys_rep(v: Seq<Vec<Vec<Coord>>>) -> Seq<Seq<Seq<CoordRep>>> {
    v.map_values(|p: Vec<Vec<Coord>>| rings_rep(p@))
}

/// Model of a list of shapes.
pub open spec fn shapes_rep(v: Seq<ShapeData>) -> Seq<ShapeRep> {
    v.map_values(|s: ShapeData| s@)
}

/// One shape held by the engine. A polygon's first ring is its exterior;
/// the remaining rings are its holes.
pub enum ShapeData {
    Point(Coord),
    LineString(Vec<Coord>),
    LinearRing(Vec<Coord>),
    Polygon(Vec<Vec<Coord>>),
    MultiPoint(Vec<Coord>),
    MultiLineString(Vec<Vec<Coord>>),
    MultiPolygon(Vec<Vec<Vec<Coord>>>),
}

/// Model of a shape.
pub enum ShapeRep {
    Point(CoordRep),
    LineString(Seq<CoordRep>),
    LinearRing(Seq<CoordRep>),
    Polygon(Seq<Seq<CoordRep>>),
    MultiPoint(Seq<CoordRep>),
    MultiLineString(Seq<Seq<CoordRep>>),
    MultiPolygon(Seq<Seq<Seq<CoordRep>>>),
}

impl View for ShapeData {
    type V = ShapeRep;

    open spec fn view(&self) -> ShapeRep {
        match self {
            ShapeData::Point(c) => ShapeRep::Point(c@),
            ShapeData::LineString(v) => ShapeRep::LineString(ring_rep(v@)),
            ShapeData::LinearRing(v) => ShapeRep::LinearRing(ring_rep(v@)),
            ShapeData::Polygon(v) => ShapeRep::Polygon(rings_rep(v@)),
            ShapeData::MultiPoint(v) => ShapeRep::MultiPoint(ring_rep(v@)),
            ShapeData::MultiLineString(v) => ShapeRep::MultiLineString(rings_rep(v@)),
            ShapeData::MultiPolygon(v) => ShapeRep::MultiPolygon(polys_rep(v@)),
        }
    }
}

/// A geometry value: one shape, or a collection of shapes. The engine
/// does not nest collections.
pub enum GeomData {
    Shape(ShapeData),
    Collection(Vec<ShapeData>),
}

/// Model of a geometry value.
pub enum GeomRep {
    Shape(ShapeRep),
    Collection(Seq<ShapeRep>),
}

impl View for GeomData {
    type V = GeomRep;

    open spec fn view(&self) -> GeomRep {
        match self {
            GeomData::Shape(s) => GeomRep::Shape(s@),
            GeomData::Collection(v) => GeomRep::Collection(shapes_rep(v@)),
        }
    }
}

/// The geometry kinds the engine reports.
#[derive(Clone, Copy, Debug, PartialEq, Eq, Structural)]
pub enum GGeomTypes {
    Point,
    LineString,
    LinearRing,
    Polygon,
    MultiPoint,
    MultiLineString,
    MultiPolygon,
    GeometryCollection,
}

/// The kind of a shape model.
pub open spec fn shape_kind(s: ShapeRep) -> GGeomTypes {
    match s {
        ShapeRep::Point(_) => GGeomTypes::Point,
        ShapeRep::LineString(_) => GGeomTypes::LineString,
        ShapeRep::LinearRing(_) => GGeomTypes::LinearRing,
        ShapeRep::Polygon(_) => GGeomTypes::Polygon,
        ShapeRep::MultiPoint(_) => GGeomTypes::MultiPoint,
        ShapeRep::MultiLineString(_) => GGeomTypes::MultiLineString,
        ShapeRep::MultiPolygon(_) => GGeomTypes::MultiPolygon,
    }
}

/// The kind of a geometry model.
pub open spec fn geom_kind(g: GeomRep) -> GGeomTypes {
    match g {
        GeomRep::Shape(s) => shape_kind(s),
        GeomRep::Collection(_) => GGeomTypes::GeometryCollection,
    }
}

/// A coordinate within the engine's bounds.
pub open spec fn wf_coord(c: CoordRep) -> bool {
    -(COORD_LIMIT as int) <= c.x <= COORD_LIMIT as int
        && -(COORD_LIMIT as int) <= c.y <= COORD_LIMIT as int
}

/// A vertex list within the engine's bounds.
pub open spec fn wf_ring(r: Seq<CoordRep>) -> bool {
    r.len() <= CAP as int && forall|i: int| 0 <= i < r.len() ==> wf_coord(#[trigger] r[i])
}

/// A list of vertex lists within the engine's bounds.
pub open spec fn wf_rings(rs: Seq<Seq<CoordRep>>) -> bool {
    rs.len() <= CAP as int && forall|i: int| 0 <= i < rs.len() ==> wf_ring(#[trigger] rs[i])
}

/// A polygon within the engine's bounds: at least the exterior ring.
pub open spec fn wf_poly(p: Seq<Seq<CoordRep>>) -> bool {
    wf_rings(p) && p.len() >= 1
}

/// A list of polygons within the engine's bounds.
pub open spec fn wf_polys(ps: Seq<Seq<Seq<CoordRep>>>) -> bool {
    ps.len() <= CAP as int && forall|i: int| 0 <= i < ps.len() ==> wf_poly(#[trigger] ps[i])
}

/// A shape within the engine's bounds.
pub open spec fn wf_shape(s: ShapeRep) -> bool {
    match s {
        ShapeRep::Point(c) => wf_coord(c),
        ShapeRep::LineString(r) => wf_ring(r),
        ShapeRep::LinearRing(r) => wf_ring(r),
        ShapeRep::Polygon(p) => wf_poly(p),
        ShapeRep::MultiPoint(r) => wf_ring(r),
        ShapeRep::MultiLineString(rs) => wf_rings(rs),
        ShapeRep::MultiPolygon(ps) => wf_polys(ps),
    }
}

/// A geometry value within the engine's bounds.
pub open spec fn wf_geom(g: GeomRep) -> bool {
    match g {
        GeomRep::Shape(s) => wf_shape(s),
        GeomRep::Collection(ss) => ss.len() <= CAP as int && forall|i: int|
            0 <= i < ss.len() ==> wf_shape(#[trigger] ss[i]),
    }
}

/// Whether one coordinate is within bounds.
pub fn check_coord(c: &Coord) -> (r: bool)
    ensures
        r == wf_coord(c@),
{
    -COORD_LIMIT <= c.x && c.x <= COORD_LIMIT && -COORD_LIMIT <= c.y && c.y <= COORD_LIMIT
}

/// Whether a vertex list is within bounds.
pub fn check_ring(v: &Vec<Coord>) -> (r: bool)
    ensures
        r == wf_ring(ring_rep(v@)),
{
    if v.len() > CAP {
        return false;
    }
    let mut i: usize = 0;
    while i < v.len()
        invariant
            0 <= i <= v@.len(),
            v@.len() <= CAP as int,
            forall|j: int| 0 <= j < i ==> wf_coord(#[trigger] ring_rep(v@)[j]),
        decreases v@.len() - i,
    {
        if !check_coord(&v[i]) {
            assert(!wf_coord(ring_rep(v@)[i as int]));
            return false;
        }
        i = i + 1;
    }
    true
}

/// Whether a list of vertex lists is within bounds.
pub fn check_rings(v: &Vec<Vec<Coord>>) -> (r: bool)
    ensures
        r == wf_rings(rings_rep(v@)),
{
    if v.len() > CAP {
        return false;
    }
    let mut i: usize = 0;
    while i < v.len()
        invariant
            0 <= i <= v@.len(),
            v@.len() <= CAP as int,
            forall|j: int| 0 <= j < i ==> wf_ring(#[trigger] rings_rep(v@)[j]),
        decreases v@.len() - i,
    {
        if !check_ring(&v[i]) {
            assert(!wf_ring(rings_rep(v@)[i as int]));
            return false;
        }
        i = i + 1;
    }
    true
}

/// Whether a list of polygons is within bounds.
pub fn check_polys(v: &Vec<Vec<Vec<Coord>>>) -> (r: bool)
    ensures
        r == wf_polys(polys_rep(v@)),
{
    if v.len() > CAP {
        return false;
    }
    let mut i: usize = 0;
    while i < v.len()
        invariant
            0 <= i <= v@.len(),
            v@.len() <= CAP as int,
            forall|j: int| 0 <= j < i ==> wf_poly(#[trigger] polys_rep(v@)[j]),
        decreases v@.len() - i,
    {
        if !(check_rings(&v[i]) && v[i].len() >= 1) {
            assert(!wf_poly(polys_rep(v@)[i as int]));
            return false;
        }
        i = i + 1;
    }
    true
}

/// Whether a shape is within bounds.
pub fn check_shape(s: &ShapeData) -> (r: bool)
    ensures
        r == wf_shape(s@),
{
    match s {
        ShapeData::Point(c) => check_coord(c),
        ShapeData::LineString(v) => check_ring(v),
        ShapeData::LinearRing(v) => check_ring(v),
        ShapeData::Polygon(v) => check_rings(v) && v.len() >= 1,
        ShapeData::MultiPoint(v) => check_ring(v),
        ShapeData::MultiLineString(v) => check_rings(v),
        ShapeData::MultiPolygon(v) => check_polys(v),
    }
}

/// Whether a geometry value is within bounds.
#[verifier::loop_isolation(false)]
pub fn check_geom(g: &GeomData) -> (r: bool)
    ensures
        r == wf_geom(g@),
{
    match g {
        GeomData::Shape(s) => check_shape(s),
        GeomData::Collection(v) => {
            if v.len() > CAP {
                return false;
            }
            let mut i: usize = 0;
            while i < v.len()
                invariant
                    0 <= i <= v@.len(),
                    v@.len() <= CAP as int,
                    forall|j: int| 0 <= j < i ==> wf_shape(#[trigger] v@[j]@),
                decreases v@.len() - i,
            {
                if !check_shape(&v[i]) {
                    assert(!wf_shape(shapes_rep(v@)[i as int]));
                    return false;
                }
                i = i + 1;
            }
            proof {
                assert(forall|j: int|
                    0 <= j < v@.len() ==> shapes_rep(v@)[j] == #[trigger] v@[j]@);
            }
            true
        },
    }
}

/// A copy of a vertex list with the same model.
pub fn copy_ring(v: &Vec<Coord>) -> (r: Vec<Coord>)
    ensures
        ring_rep(r@) == ring_rep(v@),
        r@.len() == v@.len(),
{
    let mut out: Vec<Coord> = Vec::new();
    let mut i: usize = 0;
    while i < v.len()
        invariant
            0 <= i <= v@.len(),
            out@.len() == i,
            forall|j: int| 0 <= j < i ==> out@[j] == v@[j],
        decreases v@.len() - i,
    {
        out.push(v[i]);
        i = i + 1;
    }
    proof {
        assert(ring_rep(out@) =~= ring_rep(v@));
    }
    out
}

/// A copy of a list of vertex lists with the same model.
pub fn copy_rings(v: &Vec<Vec<Coord>>) -> (r: Vec<Vec<Coord>>)
    ensures
        rings_rep(r@) == rings_rep(v@),
        r@.len() == v@.len(),
{
    let mut out: Vec<Vec<Coord>> = Vec::new();
    let mut i: usize = 0;
    while i < v.len()
        invariant
            0 <= i <= v@.len(),
            out@.len() == i,
            forall|j: int| 0 <= j < i ==> ring_rep(#[trigger] out@[j]@) == ring_rep(v@[j]@),
        decreases v@.len() - i,
    {
        out.push(copy_ring(&v[i]));
        i = i + 1;
    }
    proof {
        assert(rings_rep(out@) =~= rings_rep(v@));
    }
    out
}

/// A copy of a list of polygons with the same model.
pub fn copy_polys(v: &Vec<Vec<Vec<Coord>>>) -> (r: Vec<Vec<Vec<Coord>>>)
    ensures
        polys_rep(r@) == polys_rep(v@),
        r@.len() == v@.len(),
{
    let mut out: Vec<Vec<Vec<Coord>>> = Vec::new();
    let mut i: usize = 0;
    while i < v.len()
        invariant
            0 <= i <= v@.len(),
            out@.len() == i,
            forall|j: int| 0 <= j < i ==> rings_rep(#[trigger] out@[j]@) == rings_rep(v@[j]@),
        decreases v@.len() - i,
    {
        out.push(copy_rings(&v[i]));
        i = i + 1;
    }
    proof {
        assert(polys_rep(out@) =~= polys_rep(v@));
    }
    out
}

/// A deep copy of a shape with the same model.
pub fn copy_shape(s: &ShapeData) -> (r: ShapeData)
    ensures
        r@ == s@,
{
    match s {
        ShapeData::Point(c) => ShapeData::Point(*c),
        ShapeData::LineString(v) => ShapeData::LineString(copy_ring(v)),
        ShapeData::LinearRing(v) => ShapeData::LinearRing(copy_ring(v)),
        ShapeData::Polygon(v) => ShapeData::Polygon(copy_rings(v)),
        ShapeData::MultiPoint(v) => ShapeData::MultiPoint(copy_ring(v)),
        ShapeData::MultiLineString(v) => ShapeData::MultiLineString(copy_rings(v)),
        ShapeData::MultiPolygon(v) => ShapeData::MultiPolygon(copy_polys(v)),
    }
}

/// A deep copy of a geometry value with the same model.
pub fn copy_geom(g: &GeomData) -> (r: GeomData)
    ensures
        r@ == g@,
{
    match g {
        GeomData::Shape(s) => GeomData::Shape(copy_shape(s)),
        GeomData::Collection(v) => {
            let mut out: Vec<ShapeData> = Vec::new();
            let mut i: usize = 0;
            while i < v.len()
                invariant
                    0 <= i <= v@.len(),
                    out@.len() == i,
                    forall|j: int| 0 <= j < i ==> #[trigger] out@[j]@ == v@[j]@,
                decreases v@.len() - i,
            {
                out.push(copy_shape(&v[i]));
                i = i + 1;
            }
            proof {
                assert(shapes_rep(out@) =~= shapes_rep(v@));
            }
            GeomData::Collection(out)
        },
    }
}

} // verus!
