//! The geometry object: exclusive owner of one geometry value, sharing a
//! context handle with the geometries constructed from the same chain.
//!
//! A `GGeom` is the only owner of its value, so the value is released
//! exactly once, when the object is dropped; composition consumes child
//! objects by move, so an adopted value can never be released a second
//! time. Every constructor is atomic: it hands back either a fully formed
//! geometry or an error, never a partial object.

use vstd::prelude::*;
use vstd::string::StringSliceAdditionalSpecFns;
use std::sync::Arc;
use crate::context::{borrow_context, share_context, GContextHandle};
use crate::coords::CoordSeq;
use crate::error::{
    check_geos_predicate, check_ret, Error, GResult,
    PredicateType,
};
use crate::norm::{eq_geom, equals_rep, norm_geom, norm_geom_exec, shape_type};
use crate::ops::geom_coords;
use crate::value::{
    check_geom, copy_geom, shapes_rep, wf_geom, Coord, CoordRep, GGeomTypes, GeomData, GeomRep,
    ShapeData, ShapeRep,
};

verus! {

/// The kind of a geometry model (the engine's type report).
pub open spec fn kind_rep(g: GeomRep) -> GGeomTypes {
    crate::value::geom_kind(g)
}

/// A geometry object: one exclusively owned geometry value and a shared
/// reference to the context it was built under.
pub struct GGeom {
    data: GeomData,
    context: Arc<GContextHandle>,
}

impl View for GGeom {
    type V = GeomRep;

    closed spec fn view(&self) -> GeomRep {
        self.data@
    }
}

impl GGeom {
    /// Every geometry the library hands out is within the engine's bounds.
    #[verifier::type_invariant]
    pub closed spec fn bounded(&self) -> bool {
        wf_geom(self@)
    }

    /// The context this geometry shares.
    pub closed spec fn spec_context(&self) -> GContextHandle {
        *self.context
    }

    /// Wrap a geometry value the engine handed back. A value outside the
    /// engine's bounds is what a null handle is in the native protocol:
    /// construction fails atomically and no object exists.
    pub(crate) fn new_from_value(data: GeomData, context: Arc<GContextHandle>) -> (r: GResult<
        GGeom,
    >)
        ensures
            wf_geom(data@) ==> (r matches Ok(g) && g@ == data@ && g.spec_context() == *context),
            !wf_geom(data@) ==> r == Err::<GGeom, Error>(Error::NoConstructionFromNullPtr),
    {
        if check_geom(&data) {
            Ok(GGeom { data, context })
        } else {
            Err(Error::NoConstructionFromNullPtr)
        }
    }

    /// Every geometry the library hands out is within the engine's
    /// bounds. Calling this puts that fact at a caller's disposal, so the
    /// public laws (whose hypotheses speak of well-formedness) apply to
    /// any geometry in hand.
    pub fn well_formed(&self)
        ensures
            wf_geom(self@),
    {
        proof {
            use_type_invariant(self);
        }
    }

    /// Build a point from a coordinate sequence of exactly one tuple. The
    /// sequence is consumed; the engine owns its buffer afterwards, so the
    /// buffer is never released twice. A sequence of any other size makes
    /// the engine hand back null.
    pub fn create_point(s: CoordSeq) -> (r: GResult<GGeom>)
        ensures
            s@.len() == 1 ==> (r matches Ok(g) && g@ == GeomRep::Shape(ShapeRep::Point(s@[0]))),
            s@.len() != 1 ==> r == Err::<GGeom, Error>(Error::NoConstructionFromNullPtr),
    {
        match GContextHandle::init() {
            Ok(context_handle) => {
                let coords = s.into_coords();
                if coords.len() != 1 {
                    return Err(Error::NoConstructionFromNullPtr);
                }
                let c = coords[0];
                proof {
                    assert(crate::value::ring_rep(coords@)[0] == c@);
                }
                GGeom::new_from_value(
                    GeomData::Shape(ShapeData::Point(c)),
                    Arc::new(context_handle),
                )
            },
            Err(e) => Err(e),
        }
    }

    /// Build a line string from a coordinate sequence, consuming it.
    pub fn create_line_string(s: CoordSeq) -> (r: GResult<GGeom>)
        ensures
            r matches Ok(g) && g@ == GeomRep::Shape(ShapeRep::LineString(s@)),
    {
        match GContextHandle::init() {
            Ok(context_handle) => {
                let coords = s.into_coords();
                GGeom::new_from_value(
                    GeomData::Shape(ShapeData::LineString(coords)),
                    Arc::new(context_handle),
                )
            },
            Err(e) => Err(e),
        }
    }

    /// Build a linear ring from a coordinate sequence, consuming it.
    /// Whether the ring is closed is a validity question, answered later
    /// by `is_valid`, not a construction failure.
    pub fn create_linear_ring(s: CoordSeq) -> (r: GResult<GGeom>)
        ensures
            r matches Ok(g) && g@ == GeomRep::Shape(ShapeRep::LinearRing(s@)),
    {
        match GContextHandle::init() {
            Ok(context_handle) => {
                let coords = s.into_coords();
                GGeom::new_from_value(
                    GeomData::Shape(ShapeData::LinearRing(coords)),
                    Arc::new(context_handle),
                )
            },
            Err(e) => Err(e),
        }
    }

    /// Replace the context handle attached to this geometry.
    pub fn set_context_handle(&mut self, context: GContextHandle)
        ensures
            final(self)@ == old(self)@,
            final(self).spec_context() == context,
    {
        proof {
            use_type_invariant(&*self);
        }
        let data = copy_geom(&self.data);
        *self = GGeom { data, context: Arc::new(context) };
    }

    /// Borrow the context handle attached to this geometry.
    pub fn get_context_handle(&self) -> (r: &GContextHandle)
        ensures
            *r == self.spec_context(),
    {
        borrow_context(&self.context)
    }

    /// A new shared reference to this geometry's context.
    pub(crate) fn clone_context(&self) -> (r: Arc<GContextHandle>)
        ensures
            *r == self.spec_context(),
    {
        share_context(&self.context)
    }

    /// The kind of this geometry, as the engine reports it.
    pub fn geometry_type(&self) -> (r: GGeomTypes)
        ensures
            r == kind_rep(self@),
    {
        match &self.data {
            GeomData::Shape(s) => shape_type(s),
            GeomData::Collection(_) => GGeomTypes::GeometryCollection,
        }
    }

    /// Whether the two geometries are the engine's same value: equal
    /// normal forms (ring orientation does not distinguish them). This
    /// engine's comparison cannot fail, so the error arm is never taken.
    pub fn equals(&self, g2: &GGeom) -> (r: GResult<bool>)
        ensures
            r == Ok::<bool, Error>(equals_rep(self@, g2@)),
    {
        proof {
            use_type_invariant(self);
            use_type_invariant(g2);
        }
        let na = norm_geom_exec(&self.data);
        let nb = norm_geom_exec(&g2.data);
        let code: i32 = if eq_geom(&na, &nb) {
            1
        } else {
            0
        };
        check_geos_predicate(code, PredicateType::Equals)
    }

    /// Put this geometry into the engine's normal form, in place. The
    /// engine reports success with status `0`, which the tri-state
    /// translator renders as `Ok(false)`.
    pub fn normalize(&mut self) -> (r: GResult<bool>)
        ensures
            final(self)@ == norm_geom(old(self)@),
            final(self).spec_context() == old(self).spec_context(),
            r == Ok::<bool, Error>(false),
    {
        proof {
            use_type_invariant(&*self);
        }
        let data = norm_geom_exec(&self.data);
        let context = share_context(&self.context);
        *self = GGeom { data, context };
        check_geos_predicate(0, PredicateType::Normalize)
    }

    /// Whether this geometry has no vertices at all.
    pub fn is_empty(&self) -> (r: GResult<bool>)
        ensures
            r == Ok::<bool, Error>(geom_coords(self@).len() == 0),
    {
        proof {
            use_type_invariant(self);
        }
        let vs = crate::ops::vertices(&self.data);
        let code: i32 = if vs.len() == 0 {
            1
        } else {
            0
        };
        proof {
            assert(crate::value::ring_rep(vs@).len() == vs@.len());
        }
        check_geos_predicate(code, PredicateType::IsEmpty)
    }

    /// This engine stores two-dimensional coordinates only, so no
    /// geometry carries a z ordinate.
    pub fn has_z(&self) -> (r: GResult<bool>)
        ensures
            r == Ok::<bool, Error>(false),
    {
        check_geos_predicate(0, PredicateType::HasZ)
    }
}


/// Models of a list of geometry objects.
pub open spec fn geoms_rep(gs: Seq<GGeom>) -> Seq<GeomRep> {
    gs.map_values(|g: GGeom| g@)
}

/// Whether a geometry model is a single linear ring.
pub open spec fn is_ring_geom(g: GeomRep) -> bool {
    g matches GeomRep::Shape(ShapeRep::LinearRing(_))
}

/// The ring of a single-linear-ring geometry model.
pub open spec fn ring_of(g: GeomRep) -> Seq<CoordRep> {
    match g {
        GeomRep::Shape(ShapeRep::LinearRing(r)) => r,
        _ => Seq::empty(),
    }
}

/// The coordinate of a single-point geometry model.
pub open spec fn point_of(g: GeomRep) -> CoordRep {
    match g {
        GeomRep::Shape(ShapeRep::Point(c)) => c,
        _ => CoordRep { x: 0, y: 0 },
    }
}

/// The path of a single-line-string geometry model.
pub open spec fn line_of(g: GeomRep) -> Seq<CoordRep> {
    match g {
        GeomRep::Shape(ShapeRep::LineString(r)) => r,
        _ => Seq::empty(),
    }
}

/// The rings of a single-polygon geometry model.
pub open spec fn poly_of(g: GeomRep) -> Seq<Seq<CoordRep>> {
    match g {
        GeomRep::Shape(ShapeRep::Polygon(p)) => p,
        _ => Seq::empty(),
    }
}

/// Whether every member of `gs` is of kind `k`.
pub open spec fn all_of_kind(gs: Seq<GeomRep>, k: GGeomTypes) -> bool {
    forall|i: int| 0 <= i < gs.len() ==> kind_rep(#[trigger] gs[i]) == k
}

/// All component shapes of a list of geometries, in order: a single
/// shape contributes itself, a collection its members.
pub open spec fn flat_comps(gs: Seq<GeomRep>) -> Seq<ShapeRep>
    decreases gs.len(),
{
    if gs.len() == 0 {
        Seq::empty()
    } else {
        flat_comps(gs.drop_last()) + comps(gs.last())
    }
}

proof fn lemma_flat_comps_snoc(gs: Seq<GeomRep>, g: GeomRep)
    ensures
        flat_comps(gs.push(g)) == flat_comps(gs) + comps(g),
{
    assert(gs.push(g).drop_last() =~= gs);
    assert(gs.push(g).last() == g);
}

impl GGeom {
    /// Assemble a polygon from an exterior ring and interior rings. Every
    /// child is consumed: its value moves into the polygon (or is released
    /// here on failure), so no ring is ever owned twice and none leaks.
    /// The engine adopts linear rings only, and at most [`crate::value::CAP`]
    /// of them; anything else makes it hand back null.
    #[verifier::loop_isolation(false)]
    pub fn create_polygon(exterior: GGeom, interiors: Vec<GGeom>) -> (r: GResult<GGeom>)
        ensures
            ({
                let ok = is_ring_geom(exterior@) && all_of_kind(
                    geoms_rep(interiors@),
                    GGeomTypes::LinearRing,
                ) && 1 + interiors@.len() <= crate::value::CAP as int;
                &&& ok ==> (r matches Ok(p) && p@ == GeomRep::Shape(
                    ShapeRep::Polygon(
                        seq![ring_of(exterior@)] + geoms_rep(interiors@).map_values(
                            |g: GeomRep| ring_of(g),
                        ),
                    ),
                ) && p.spec_context() == exterior.spec_context())
                &&& !ok ==> r == Err::<GGeom, Error>(Error::NoConstructionFromNullPtr)
            }),
    {
        proof {
            use_type_invariant(&exterior);
        }
        let ghost ext_rep = exterior@;
        let ghost int_reps = geoms_rep(interiors@);
        let GGeom { data: ext_data, context } = exterior;
        let ext_ring = match ext_data {
            GeomData::Shape(ShapeData::LinearRing(ring)) => ring,
            _ => {
                return Err(Error::NoConstructionFromNullPtr);
            },
        };
        let mut rings: Vec<Vec<Coord>> = Vec::new();
        rings.push(ext_ring);
        let mut rest = interiors;
        let ghost n = int_reps.len();
        let ghost mut i: int = 0;
        while rest.len() > 0
            invariant
                0 <= i,
                i + rest@.len() == n,
                geoms_rep(rest@) =~= int_reps.skip(i),
                forall|j: int| 0 <= j < i ==> kind_rep(#[trigger] int_reps[j])
                    == GGeomTypes::LinearRing,
                crate::value::rings_rep(rings@) =~= seq![ring_of(ext_rep)] + int_reps.take(
                    i,
                ).map_values(|g: GeomRep| ring_of(g)),
                forall|j: int| 0 <= j < rings@.len() ==> crate::value::wf_ring(
                    #[trigger] crate::value::rings_rep(rings@)[j],
                ),
            decreases rest@.len(),
        {
            let ghost prev = rest@;
            let g = rest.remove(0);
            proof {
                use_type_invariant(&g);
                assert(g == prev[0]);
                assert(rest@ =~= prev.skip(1));
                assert(g@ == geoms_rep(prev)[0]);
                assert(geoms_rep(rest@) =~= geoms_rep(prev).skip(1));
                assert(geoms_rep(prev).skip(1) =~= int_reps.skip(i + 1));
                assert(g@ == int_reps[i]);
            }
            let GGeom { data, context: _ } = g;
            match data {
                GeomData::Shape(ShapeData::LinearRing(ring)) => {
                    let ghost rrep = crate::value::ring_rep(ring@);
                    let ghost prevrings = rings@;
                    rings.push(ring);
                    proof {
                        assert(rings@ == prevrings.push(ring));
                        assert(crate::value::rings_rep(rings@) =~= crate::value::rings_rep(
                            prevrings,
                        ).push(rrep));
                        assert(ring_of(int_reps[i]) == rrep);
                        assert(int_reps.take(i + 1) =~= int_reps.take(i).push(int_reps[i]));
                        assert(int_reps.take(i + 1).map_values(|g: GeomRep| ring_of(g))
                            =~= int_reps.take(i).map_values(|g: GeomRep| ring_of(g)).push(rrep));
                        assert(crate::value::rings_rep(rings@) =~= seq![ring_of(ext_rep)]
                            + int_reps.take(i + 1).map_values(|g: GeomRep| ring_of(g)));
                    }
                },
                _ => {
                    proof {
                        assert(kind_rep(int_reps[i]) != GGeomTypes::LinearRing);
                    }
                    return Err(Error::NoConstructionFromNullPtr);
                },
            }
            proof {
                i = i + 1;
            }
        }
        proof {
            assert(int_reps.take(n as int) =~= int_reps);
        }
        GGeom::new_from_value(GeomData::Shape(ShapeData::Polygon(rings)), context)
    }

    /// Consume a list of geometry objects that must all be single points,
    /// yielding their coordinates.
    #[verifier::loop_isolation(false)]
    fn take_points(geoms: Vec<GGeom>) -> (r: Option<Vec<Coord>>)
        ensures
            all_of_kind(geoms_rep(geoms@), GGeomTypes::Point) <==> r is Some,
            r matches Some(cs) ==> crate::value::ring_rep(cs@) =~= geoms_rep(geoms@).map_values(
                |g: GeomRep| point_of(g),
            ) && crate::ops::wf_coords(crate::value::ring_rep(cs@)),
    {
        let ghost reps = geoms_rep(geoms@);
        let mut out: Vec<Coord> = Vec::new();
        let mut rest = geoms;
        let ghost mut i: int = 0;
        while rest.len() > 0
            invariant
                0 <= i,
                i + rest@.len() == reps.len(),
                geoms_rep(rest@) =~= reps.skip(i),
                forall|j: int| 0 <= j < i ==> kind_rep(#[trigger] reps[j]) == GGeomTypes::Point,
                crate::value::ring_rep(out@) =~= reps.take(i).map_values(
                    |g: GeomRep| point_of(g),
                ),
                crate::ops::wf_coords(crate::value::ring_rep(out@)),
            decreases rest@.len(),
        {
            let ghost prev = rest@;
            let g = rest.remove(0);
            proof {
                use_type_invariant(&g);
                assert(g == prev[0]);
                assert(rest@ =~= prev.skip(1));
                assert(g@ == geoms_rep(prev)[0]);
                assert(geoms_rep(rest@) =~= geoms_rep(prev).skip(1));
                assert(geoms_rep(prev).skip(1) =~= reps.skip(i + 1));
                assert(g@ == reps[i]);
            }
            let GGeom { data, context: _ } = g;
            match data {
                GeomData::Shape(ShapeData::Point(c)) => {
                    let ghost prevout = out@;
                    out.push(c);
                    proof {
                        assert(out@ == prevout.push(c));
                        assert(point_of(reps[i]) == c@);
                        assert(reps.take(i + 1) =~= reps.take(i).push(reps[i]));
                        assert(reps.take(i + 1).map_values(|g: GeomRep| point_of(g)) =~= reps.take(
                            i,
                        ).map_values(|g: GeomRep| point_of(g)).push(c@));
                        assert(crate::value::ring_rep(out@) =~= reps.take(i + 1).map_values(
                            |g: GeomRep| point_of(g),
                        ));
                    }
                },
                _ => {
                    proof {
                        assert(kind_rep(reps[i]) != GGeomTypes::Point);
                    }
                    return None;
                },
            }
            proof {
                i = i + 1;
            }
        }
        proof {
            assert(reps.take(reps.len() as int) =~= reps);
        }
        Some(out)
    }

    /// Consume a list of geometry objects that must all be single line
    /// strings, yielding their paths.
    #[verifier::loop_isolation(false)]
    fn take_lines(geoms: Vec<GGeom>) -> (r: Option<Vec<Vec<Coord>>>)
        ensures
            all_of_kind(geoms_rep(geoms@), GGeomTypes::LineString) <==> r is Some,
            r matches Some(ls) ==> crate::value::rings_rep(ls@) =~= geoms_rep(geoms@).map_values(
                |g: GeomRep| line_of(g),
            ) && (forall|j: int| 0 <= j < ls@.len() ==> crate::value::wf_ring(
                #[trigger] crate::value::rings_rep(ls@)[j],
            )),
    {
        let ghost reps = geoms_rep(geoms@);
        let mut out: Vec<Vec<Coord>> = Vec::new();
        let mut rest = geoms;
        let ghost mut i: int = 0;
        while rest.len() > 0
            invariant
                0 <= i,
                i + rest@.len() == reps.len(),
                geoms_rep(rest@) =~= reps.skip(i),
                forall|j: int| 0 <= j < i ==> kind_rep(#[trigger] reps[j])
                    == GGeomTypes::LineString,
                crate::value::rings_rep(out@) =~= reps.take(i).map_values(
                    |g: GeomRep| line_of(g),
                ),
                forall|j: int| 0 <= j < out@.len() ==> crate::value::wf_ring(
                    #[trigger] crate::value::rings_rep(out@)[j],
                ),
            decreases rest@.len(),
        {
            let ghost prev = rest@;
            let g = rest.remove(0);
            proof {
                use_type_invariant(&g);
                assert(g == prev[0]);
                assert(rest@ =~= prev.skip(1));
                assert(g@ == geoms_rep(prev)[0]);
                assert(geoms_rep(rest@) =~= geoms_rep(prev).skip(1));
                assert(geoms_rep(prev).skip(1) =~= reps.skip(i + 1));
                assert(g@ == reps[i]);
            }
            let GGeom { data, context: _ } = g;
            match data {
                GeomData::Shape(ShapeData::LineString(l)) => {
                    let ghost lrep = crate::value::ring_rep(l@);
                    let ghost prevout = out@;
                    out.push(l);
                    proof {
                        assert(out@ == prevout.push(l));
                        assert(line_of(reps[i]) == lrep);
                        assert(reps.take(i + 1) =~= reps.take(i).push(reps[i]));
                        assert(reps.take(i + 1).map_values(|g: GeomRep| line_of(g)) =~= reps.take(
                            i,
                        ).map_values(|g: GeomRep| line_of(g)).push(lrep));
                        assert(crate::value::rings_rep(out@) =~= reps.take(i + 1).map_values(
                            |g: GeomRep| line_of(g),
                        ));
                    }
                },
                _ => {
                    proof {
                        assert(kind_rep(reps[i]) != GGeomTypes::LineString);
                    }
                    return None;
                },
            }
            proof {
                i = i + 1;
            }
        }
        proof {
            assert(reps.take(reps.len() as int) =~= reps);
        }
        Some(out)
    }

    /// Consume a list of geometry objects that must all be single
    /// polygons, yielding their ring lists.
    #[verifier::loop_isolation(false)]
    fn take_polys(geoms: Vec<GGeom>) -> (r: Option<Vec<Vec<Vec<Coord>>>>)
        ensures
            all_of_kind(geoms_rep(geoms@), GGeomTypes::Polygon) <==> r is Some,
            r matches Some(ps) ==> crate::value::polys_rep(ps@) =~= geoms_rep(geoms@).map_values(
                |g: GeomRep| poly_of(g),
            ) && (forall|j: int| 0 <= j < ps@.len() ==> crate::value::wf_poly(
                #[trigger] crate::value::polys_rep(ps@)[j],
            )),
    {
        let ghost reps = geoms_rep(geoms@);
        let mut out: Vec<Vec<Vec<Coord>>> = Vec::new();
        let mut rest = geoms;
        let ghost mut i: int = 0;
        while rest.len() > 0
            invariant
                0 <= i,
                i + rest@.len() == reps.len(),
                geoms_rep(rest@) =~= reps.skip(i),
                forall|j: int| 0 <= j < i ==> kind_rep(#[trigger] reps[j]) == GGeomTypes::Polygon,
                crate::value::polys_rep(out@) =~= reps.take(i).map_values(
                    |g: GeomRep| poly_of(g),
                ),
                forall|j: int| 0 <= j < out@.len() ==> crate::value::wf_poly(
                    #[trigger] crate::value::polys_rep(out@)[j],
                ),
            decreases rest@.len(),
        {
            let ghost prev = rest@;
            let g = rest.remove(0);
            proof {
                use_type_invariant(&g);
                assert(g == prev[0]);
                assert(rest@ =~= prev.skip(1));
                assert(g@ == geoms_rep(prev)[0]);
                assert(geoms_rep(rest@) =~= geoms_rep(prev).skip(1));
                assert(geoms_rep(prev).skip(1) =~= reps.skip(i + 1));
                assert(g@ == reps[i]);
            }
            let GGeom { data, context: _ } = g;
            match data {
                GeomData::Shape(ShapeData::Polygon(p)) => {
                    let ghost prep = crate::value::rings_rep(p@);
                    let ghost prevout = out@;
                    out.push(p);
                    proof {
                        assert(out@ == prevout.push(p));
                        assert(poly_of(reps[i]) == prep);
                        assert(reps.take(i + 1) =~= reps.take(i).push(reps[i]));
                        assert(reps.take(i + 1).map_values(|g: GeomRep| poly_of(g)) =~= reps.take(
                            i,
                        ).map_values(|g: GeomRep| poly_of(g)).push(prep));
                        assert(crate::value::polys_rep(out@) =~= reps.take(i + 1).map_values(
                            |g: GeomRep| poly_of(g),
                        ));
                    }
                },
                _ => {
                    proof {
                        assert(kind_rep(reps[i]) != GGeomTypes::Polygon);
                    }
                    return None;
                },
            }
            proof {
                i = i + 1;
            }
        }
        proof {
            assert(reps.take(reps.len() as int) =~= reps);
        }
        Some(out)
    }

    /// Consume a list of geometry objects, yielding all their component
    /// shapes in order: a single shape contributes itself, a collection
    /// contributes its members.
    #[verifier::loop_isolation(false)]
    fn take_components(geoms: Vec<GGeom>) -> (r: Vec<ShapeData>)
        ensures
            shapes_rep(r@) =~= flat_comps(geoms_rep(geoms@)),
            forall|j: int| 0 <= j < r@.len() ==> crate::value::wf_shape(
                #[trigger] shapes_rep(r@)[j],
            ),
    {
        let ghost reps = geoms_rep(geoms@);
        let mut out: Vec<ShapeData> = Vec::new();
        let mut rest = geoms;
        let ghost mut i: int = 0;
        while rest.len() > 0
            invariant
                0 <= i,
                i + rest@.len() == reps.len(),
                geoms_rep(rest@) =~= reps.skip(i),
                shapes_rep(out@) =~= flat_comps(reps.take(i)),
                forall|j: int| 0 <= j < out@.len() ==> crate::value::wf_shape(
                    #[trigger] shapes_rep(out@)[j],
                ),
            decreases rest@.len(),
        {
            let ghost prev = rest@;
            let g = rest.remove(0);
            proof {
                use_type_invariant(&g);
                assert(g == prev[0]);
                assert(rest@ =~= prev.skip(1));
                assert(g@ == geoms_rep(prev)[0]);
                assert(geoms_rep(rest@) =~= geoms_rep(prev).skip(1));
                assert(geoms_rep(prev).skip(1) =~= reps.skip(i + 1));
                assert(g@ == reps[i]);
            }
            let GGeom { data, context: _ } = g;
            match data {
                GeomData::Shape(s) => {
                    let ghost prevout = out@;
                    let ghost srep = s@;
                    out.push(s);
                    proof {
                        assert(shapes_rep(out@) =~= shapes_rep(prevout).push(srep));
                        assert(shapes_rep(out@) =~= shapes_rep(prevout) + comps(reps[i]));
                    }
                },
                GeomData::Collection(v) => {
                    let ghost members = shapes_rep(v@);
                    let mut rest_members = v;
                    let ghost mut k: int = 0;
                    while rest_members.len() > 0
                        invariant
                            0 <= k,
                            k + rest_members@.len() == members.len(),
                            shapes_rep(rest_members@) =~= members.skip(k),
                            shapes_rep(out@) =~= flat_comps(reps.take(i)) + members.take(k),
                        decreases rest_members@.len(),
                    {
                        let ghost mprev = rest_members@;
                        let m = rest_members.remove(0);
                        proof {
                            assert(m == mprev[0]);
                            assert(rest_members@ =~= mprev.skip(1));
                            assert(m@ == shapes_rep(mprev)[0]);
                            assert(shapes_rep(rest_members@) =~= shapes_rep(mprev).skip(1));
                            assert(shapes_rep(mprev).skip(1) =~= members.skip(k + 1));
                            assert(m@ == members[k]);
                        }
                        let ghost prevout = out@;
                        out.push(m);
                        proof {
                            assert(shapes_rep(out@) =~= shapes_rep(prevout).push(members[k]));
                            assert(members.take(k + 1) =~= members.take(k).push(members[k]));
                            assert(shapes_rep(out@) =~= flat_comps(reps.take(i)) + members.take(
                                k + 1,
                            ));
                            k = k + 1;
                        }
                    }
                    proof {
                        assert(members.take(members.len() as int) =~= members);
                        assert(comps(reps[i]) == members);
                        assert(shapes_rep(out@) =~= flat_comps(reps.take(i)) + comps(reps[i]));
                    }
                },
            }
            proof {
                lemma_flat_comps_snoc(reps.take(i), reps[i]);
                assert(reps.take(i + 1) =~= reps.take(i).push(reps[i]));
                assert(shapes_rep(out@) =~= flat_comps(reps.take(i + 1)));
                i = i + 1;
            }
        }
        proof {
            assert(reps.take(reps.len() as int) =~= reps);
        }
        out
    }

    /// Build a multi point from point geometries, consuming them. A child
    /// of any other kind fails fast with `ImpossibleOperation` before any
    /// ownership transfer: the children are then released here, each
    /// exactly once.
    pub fn create_multipoint(points: Vec<GGeom>) -> (r: GResult<GGeom>)
        ensures
            ({
                let gs = geoms_rep(points@);
                &&& !all_of_kind(gs, GGeomTypes::Point) ==> (r matches Err(e) && e matches
                    Error::ImpossibleOperation(_))
                &&& all_of_kind(gs, GGeomTypes::Point) && gs.len() <= crate::value::CAP as int
                    ==> (r matches Ok(m) && m@ == GeomRep::Shape(
                    ShapeRep::MultiPoint(gs.map_values(|g: GeomRep| point_of(g))),
                ))
                &&& all_of_kind(gs, GGeomTypes::Point) && gs.len() > crate::value::CAP as int
                    ==> r == Err::<GGeom, Error>(Error::NoConstructionFromNullPtr)
            }),
    {
        match GGeom::take_points(points) {
            Some(coords) => {
                match GContextHandle::init() {
                    Ok(context) => GGeom::new_from_value(
                        GeomData::Shape(ShapeData::MultiPoint(coords)),
                        Arc::new(context),
                    ),
                    Err(e) => Err(e),
                }
            },
            None => Err(
                Error::ImpossibleOperation(
                    String::from_str("all the provided geometry have to be of type Point"),
                ),
            ),
        }
    }

    /// Build a multi line string from line string geometries, consuming
    /// them; a child of any other kind fails fast with
    /// `ImpossibleOperation` before any ownership transfer.
    pub fn create_multilinestring(linestrings: Vec<GGeom>) -> (r: GResult<GGeom>)
        ensures
            ({
                let gs = geoms_rep(linestrings@);
                &&& !all_of_kind(gs, GGeomTypes::LineString) ==> (r matches Err(e) && e matches
                    Error::ImpossibleOperation(_))
                &&& all_of_kind(gs, GGeomTypes::LineString) && gs.len() <= crate::value::CAP as int
                    ==> (r matches Ok(m) && m@ == GeomRep::Shape(
                    ShapeRep::MultiLineString(gs.map_values(|g: GeomRep| line_of(g))),
                ))
                &&& all_of_kind(gs, GGeomTypes::LineString) && gs.len() > crate::value::CAP as int
                    ==> r == Err::<GGeom, Error>(Error::NoConstructionFromNullPtr)
            }),
    {
        match GGeom::take_lines(linestrings) {
            Some(lines) => {
                match GContextHandle::init() {
                    Ok(context) => GGeom::new_from_value(
                        GeomData::Shape(ShapeData::MultiLineString(lines)),
                        Arc::new(context),
                    ),
                    Err(e) => Err(e),
                }
            },
            None => Err(
                Error::ImpossibleOperation(
                    String::from_str("all the provided geometry have to be of type LineString"),
                ),
            ),
        }
    }

    /// Build a multi polygon from polygon geometries, consuming them; a
    /// child of any other kind fails fast with `ImpossibleOperation`
    /// before any ownership transfer.
    pub fn create_multipolygon(polygons: Vec<GGeom>) -> (r: GResult<GGeom>)
        ensures
            ({
                let gs = geoms_rep(polygons@);
                &&& !all_of_kind(gs, GGeomTypes::Polygon) ==> (r matches Err(e) && e matches
                    Error::ImpossibleOperation(_))
                &&& all_of_kind(gs, GGeomTypes::Polygon) && gs.len() <= crate::value::CAP as int
                    ==> (r matches Ok(m) && m@ == GeomRep::Shape(
                    ShapeRep::MultiPolygon(gs.map_values(|g: GeomRep| poly_of(g))),
                ))
                &&& all_of_kind(gs, GGeomTypes::Polygon) && gs.len() > crate::value::CAP as int
                    ==> r == Err::<GGeom, Error>(Error::NoConstructionFromNullPtr)
            }),
    {
        match GGeom::take_polys(polygons) {
            Some(polys) => {
                match GContextHandle::init() {
                    Ok(context) => GGeom::new_from_value(
                        GeomData::Shape(ShapeData::MultiPolygon(polys)),
                        Arc::new(context),
                    ),
                    Err(e) => Err(e),
                }
            },
            None => Err(
                Error::ImpossibleOperation(
                    String::from_str("all the provided geometry have to be of type Polygon"),
                ),
            ),
        }
    }

    /// Build a geometry collection, consuming the children. No kind check
    /// is made: a collection is heterogeneous by definition. The engine
    /// stores collections one level deep, so a collection child's members
    /// are adopted directly; only a member count over the engine's cap
    /// makes it hand back null.
    pub fn create_geometrycollection(geoms: Vec<GGeom>) -> (r: GResult<GGeom>)
        ensures
            ({
                let members = flat_comps(geoms_rep(geoms@));
                &&& members.len() <= crate::value::CAP as int ==> (r matches Ok(m) && m@
                    == GeomRep::Collection(members))
                &&& members.len() > crate::value::CAP as int ==> r == Err::<GGeom, Error>(
                    Error::NoConstructionFromNullPtr,
                )
            }),
    {
        let shapes = GGeom::take_components(geoms);
        match GContextHandle::init() {
            Ok(context) => GGeom::new_from_value(GeomData::Collection(shapes), Arc::new(context)),
            Err(e) => Err(e),
        }
    }
}


/// Whether a geometry has any vertex.
pub open spec fn nonempty_rep(g: GeomRep) -> bool {
    geom_coords(g).len() > 0
}

/// The envelope (bounding box) of a geometry's vertices.
pub open spec fn geom_env(g: GeomRep) -> crate::ops::EnvRep {
    crate::ops::env_of(geom_coords(g))
}

/// The engine's intersection test: both geometries have vertices and
/// their envelopes share a point.
pub open spec fn intersects_rep(a: GeomRep, b: GeomRep) -> bool {
    nonempty_rep(a) && nonempty_rep(b) && crate::ops::env_overlap(geom_env(a), geom_env(b))
}

/// The engine's containment test: both nonempty and the first envelope
/// lies within the second.
pub open spec fn within_rep(a: GeomRep, b: GeomRep) -> bool {
    nonempty_rep(a) && nonempty_rep(b) && crate::ops::env_inside(geom_env(a), geom_env(b))
}

/// The engine's touch test: envelopes meet on a boundary line only.
pub open spec fn touches_rep(a: GeomRep, b: GeomRep) -> bool {
    intersects_rep(a, b) && crate::ops::env_touch_only(geom_env(a), geom_env(b))
}

/// The engine's overlap test: envelopes share interior and neither
/// contains the other.
pub open spec fn overlaps_rep(a: GeomRep, b: GeomRep) -> bool {
    intersects_rep(a, b) && !crate::ops::env_touch_only(geom_env(a), geom_env(b))
        && !crate::ops::env_inside(geom_env(a), geom_env(b)) && !crate::ops::env_inside(
        geom_env(b),
        geom_env(a),
    )
}

/// Whether corresponding vertices of two equal-length vertex sequences
/// are within `tol` of each other on both axes.
pub open spec fn coords_close(a: Seq<CoordRep>, b: Seq<CoordRep>, tol: int) -> bool {
    a.len() == b.len() && forall|i: int| 0 <= i < a.len() ==> {
        let ca = #[trigger] a[i];
        let cb = b[i];
        -tol <= ca.x - cb.x <= tol && -tol <= ca.y - cb.y <= tol
    }
}

/// The engine's tolerant comparison: same kind and every corresponding
/// vertex within the tolerance.
pub open spec fn equals_exact_rep(a: GeomRep, b: GeomRep, tol: int) -> bool {
    kind_rep(a) == kind_rep(b) && coords_close(geom_coords(a), geom_coords(b), tol)
}

/// Whether a vertex list starts and ends on the same coordinate.
pub open spec fn ring_closed(r: Seq<CoordRep>) -> bool {
    r.len() == 0 || r[0] == r[r.len() - 1]
}

/// Whether no two consecutive vertices coincide.
pub open spec fn consec_distinct(r: Seq<CoordRep>) -> bool {
    forall|i: int| 1 <= i < r.len() ==> #[trigger] r[i] != r[i - 1]
}

/// Whether all vertices are pairwise distinct.
pub open spec fn pairwise_distinct(r: Seq<CoordRep>) -> bool {
    forall|i: int, j: int| 0 <= i < j < r.len() ==> #[trigger] r[i] != #[trigger] r[j]
}

/// Whether every ring in the list is a valid ring.
pub open spec fn all_rings_valid(p: Seq<Seq<CoordRep>>) -> bool {
    forall|i: int| 0 <= i < p.len() ==> valid_ring(#[trigger] p[i])
}

/// Whether every path in the list is a valid path.
pub open spec fn all_lines_valid(rs: Seq<Seq<CoordRep>>) -> bool {
    forall|i: int| 0 <= i < rs.len() ==> valid_line(#[trigger] rs[i])
}

/// Whether no list in the list repeats a vertex consecutively.
pub open spec fn all_rings_consec(p: Seq<Seq<CoordRep>>) -> bool {
    forall|i: int| 0 <= i < p.len() ==> consec_distinct(#[trigger] p[i])
}

/// What `is_closed` reports, where the engine defines it: line strings,
/// linear rings and multi line strings; on anything else the engine
/// reports its error sentinel.
pub open spec fn closed_rep(g: GeomRep) -> Option<bool> {
    match g {
        GeomRep::Shape(ShapeRep::LineString(r)) => Some(ring_closed(r)),
        GeomRep::Shape(ShapeRep::LinearRing(r)) => Some(ring_closed(r)),
        GeomRep::Shape(ShapeRep::MultiLineString(rs)) => Some(
            forall|i: int| 0 <= i < rs.len() ==> ring_closed(#[trigger] rs[i]),
        ),
        _ => None,
    }
}

/// The engine's simplicity test: no degenerate repetition. Lines and
/// rings must not repeat a vertex consecutively; a multi point must not
/// repeat a member.
pub open spec fn shape_simple(s: ShapeRep) -> bool {
    match s {
        ShapeRep::Point(_) => true,
        ShapeRep::LineString(r) => consec_distinct(r),
        ShapeRep::LinearRing(r) => consec_distinct(r),
        ShapeRep::Polygon(p) => all_rings_consec(p),
        ShapeRep::MultiPoint(r) => pairwise_distinct(r),
        ShapeRep::MultiLineString(rs) => all_rings_consec(rs),
        ShapeRep::MultiPolygon(ps) => forall|i: int| 0 <= i < ps.len() ==> all_rings_consec(
            #[trigger] ps[i],
        ),
    }
}

/// The engine's simplicity test over a whole geometry.
pub open spec fn simple_rep(g: GeomRep) -> bool {
    match g {
        GeomRep::Shape(s) => shape_simple(s),
        GeomRep::Collection(ss) => forall|i: int| 0 <= i < ss.len() ==> shape_simple(
            #[trigger] ss[i],
        ),
    }
}

/// A valid path: empty, or at least two vertices.
pub open spec fn valid_line(r: Seq<CoordRep>) -> bool {
    r.len() != 1
}

/// A valid ring: empty, or closed with at least four vertices.
pub open spec fn valid_ring(r: Seq<CoordRep>) -> bool {
    r.len() == 0 || (r.len() >= 4 && ring_closed(r))
}

/// The engine's structural validity of one shape.
pub open spec fn shape_valid(s: ShapeRep) -> bool {
    match s {
        ShapeRep::Point(_) => true,
        ShapeRep::LineString(r) => valid_line(r),
        ShapeRep::LinearRing(r) => valid_ring(r),
        ShapeRep::Polygon(p) => all_rings_valid(p),
        ShapeRep::MultiPoint(_) => true,
        ShapeRep::MultiLineString(rs) => all_lines_valid(rs),
        ShapeRep::MultiPolygon(ps) => forall|i: int| 0 <= i < ps.len() ==> all_rings_valid(
            #[trigger] ps[i],
        ),
    }
}

/// The engine's structural validity of a geometry.
pub open spec fn valid_rep(g: GeomRep) -> bool {
    match g {
        GeomRep::Shape(s) => shape_valid(s),
        GeomRep::Collection(ss) => forall|i: int| 0 <= i < ss.len() ==> shape_valid(
            #[trigger] ss[i],
        ),
    }
}

/// What `is_ring` reports: a line (string or ring) that is closed, free
/// of consecutive repetition, and long enough to enclose anything.
pub open spec fn is_ring_rep(g: GeomRep) -> bool {
    match g {
        GeomRep::Shape(ShapeRep::LineString(r)) => r.len() >= 4 && ring_closed(r)
            && consec_distinct(r),
        GeomRep::Shape(ShapeRep::LinearRing(r)) => r.len() >= 4 && ring_closed(r)
            && consec_distinct(r),
        _ => false,
    }
}

/// Whether a vertex list starts and ends on the same coordinate.
fn ring_closed_exec(v: &Vec<Coord>) -> (r: bool)
    ensures
        r == ring_closed(crate::value::ring_rep(v@)),
{
    if v.len() == 0 {
        return true;
    }
    let a = v[0];
    let b = v[v.len() - 1];
    proof {
        assert(crate::value::ring_rep(v@)[0] == v@[0]@);
        assert(crate::value::ring_rep(v@)[v@.len() - 1] == v@[v@.len() - 1]@);
    }
    a.x == b.x && a.y == b.y
}

/// Whether no two consecutive vertices coincide.
#[verifier::loop_isolation(false)]
fn consec_distinct_exec(v: &Vec<Coord>) -> (r: bool)
    ensures
        r == consec_distinct(crate::value::ring_rep(v@)),
{
    let ghost rr = crate::value::ring_rep(v@);
    let mut i: usize = 1;
    if v.len() < 2 {
        return true;
    }
    while i < v.len()
        invariant
            1 <= i <= v@.len(),
            forall|j: int| 1 <= j < i ==> #[trigger] rr[j] != rr[j - 1],
        decreases v@.len() - i,
    {
        let a = v[i - 1];
        let b = v[i];
        proof {
            assert(rr[i as int] == v@[i as int]@);
            assert(rr[i - 1 as int] == v@[i - 1 as int]@);
        }
        if a.x == b.x && a.y == b.y {
            proof {
                assert(rr[i as int] == rr[i - 1 as int]);
            }
            return false;
        }
        i = i + 1;
    }
    true
}

/// Whether all vertices are pairwise distinct.
#[verifier::loop_isolation(false)]
fn pairwise_distinct_exec(v: &Vec<Coord>) -> (r: bool)
    ensures
        r == pairwise_distinct(crate::value::ring_rep(v@)),
{
    let ghost rr = crate::value::ring_rep(v@);
    let mut i: usize = 0;
    while i < v.len()
        invariant
            0 <= i <= v@.len(),
            forall|a: int, b: int| 0 <= a < b < v@.len() && a < i ==> #[trigger] rr[a]
                != #[trigger] rr[b],
        decreases v@.len() - i,
    {
        let ca = v[i];
        let mut j: usize = i + 1;
        while j < v.len()
            invariant
                i < j <= v@.len(),
                i < v@.len(),
                ca == v@[i as int],
                forall|b: int| i < b < j ==> rr[i as int] != #[trigger] rr[b],
            decreases v@.len() - j,
        {
            let cb = v[j];
            proof {
                assert(rr[i as int] == v@[i as int]@);
                assert(rr[j as int] == v@[j as int]@);
            }
            if ca.x == cb.x && ca.y == cb.y {
                proof {
                    assert(rr[i as int] == rr[j as int]);
                }
                return false;
            }
            j = j + 1;
        }
        i = i + 1;
    }
    true
}

/// Whether every vertex list in the list satisfies `consec_distinct`.
#[verifier::loop_isolation(false)]
fn all_consec_distinct_exec(v: &Vec<Vec<Coord>>) -> (r: bool)
    ensures
        r == all_rings_consec(crate::value::rings_rep(v@)),
{
    let ghost rs = crate::value::rings_rep(v@);
    let mut i: usize = 0;
    while i < v.len()
        invariant
            0 <= i <= v@.len(),
            forall|j: int| 0 <= j < i ==> consec_distinct(#[trigger] rs[j]),
        decreases v@.len() - i,
    {
        proof {
            assert(rs[i as int] == crate::value::ring_rep(v@[i as int]@));
        }
        if !consec_distinct_exec(&v[i]) {
            assert(rs.len() == v@.len());
            assert(!consec_distinct(rs[i as int]));
            return false;
        }
        i = i + 1;
    }
    true
}

/// Whether every vertex list in the list is a valid path.
#[verifier::loop_isolation(false)]
fn all_valid_line_exec(v: &Vec<Vec<Coord>>) -> (r: bool)
    ensures
        r == all_lines_valid(crate::value::rings_rep(v@)),
{
    let ghost rs = crate::value::rings_rep(v@);
    let mut i: usize = 0;
    while i < v.len()
        invariant
            0 <= i <= v@.len(),
            forall|j: int| 0 <= j < i ==> valid_line(#[trigger] rs[j]),
        decreases v@.len() - i,
    {
        proof {
            assert(rs[i as int] == crate::value::ring_rep(v@[i as int]@));
        }
        if v[i].len() == 1 {
            assert(rs.len() == v@.len());
            assert(!valid_line(rs[i as int]));
            return false;
        }
        i = i + 1;
    }
    true
}

/// Whether every vertex list in the list is a valid ring.
#[verifier::loop_isolation(false)]
fn all_valid_ring_exec(v: &Vec<Vec<Coord>>) -> (r: bool)
    ensures
        r == all_rings_valid(crate::value::rings_rep(v@)),
{
    let ghost rs = crate::value::rings_rep(v@);
    let mut i: usize = 0;
    while i < v.len()
        invariant
            0 <= i <= v@.len(),
            forall|j: int| 0 <= j < i ==> valid_ring(#[trigger] rs[j]),
        decreases v@.len() - i,
    {
        proof {
            assert(rs[i as int] == crate::value::ring_rep(v@[i as int]@));
        }
        let ok = v[i].len() == 0 || (v[i].len() >= 4 && ring_closed_exec(&v[i]));
        if !ok {
            assert(rs.len() == v@.len());
            assert(!valid_ring(rs[i as int]));
            return false;
        }
        i = i + 1;
    }
    true
}

/// Whether one shape is structurally valid.
#[verifier::loop_isolation(false)]
fn shape_valid_exec(s: &ShapeData) -> (r: bool)
    ensures
        r == shape_valid(s@),
{
    match s {
        ShapeData::Point(_) => true,
        ShapeData::LineString(v) => v.len() != 1,
        ShapeData::LinearRing(v) => {
            v.len() == 0 || (v.len() >= 4 && ring_closed_exec(v))
        },
        ShapeData::Polygon(v) => all_valid_ring_exec(v),
        ShapeData::MultiPoint(_) => true,
        ShapeData::MultiLineString(v) => all_valid_line_exec(v),
        ShapeData::MultiPolygon(v) => {
            let ghost ps = crate::value::polys_rep(v@);
            let mut i: usize = 0;
            while i < v.len()
                invariant
                    0 <= i <= v@.len(),
                    forall|a: int| 0 <= a < i ==> all_rings_valid(#[trigger] ps[a]),
                decreases v@.len() - i,
            {
                proof {
                    assert(ps[i as int] == crate::value::rings_rep(v@[i as int]@));
                }
                if !all_valid_ring_exec(&v[i]) {
                    proof {
                        let wi = i as int;
                        assert(ps.len() == v@.len());
                        assert(0 <= wi < ps.len() && !all_rings_valid(ps[wi]));
                        assert(s@ matches ShapeRep::MultiPolygon(q) && q == ps);
                        assert(!all_rings_valid(s@->MultiPolygon_0[wi]));
                        assert(!shape_valid(s@));
                    }
                    return false;
                }
                i = i + 1;
            }
            true
        },
    }
}

/// Whether one shape is simple.
#[verifier::loop_isolation(false)]
fn shape_simple_exec(s: &ShapeData) -> (r: bool)
    ensures
        r == shape_simple(s@),
{
    match s {
        ShapeData::Point(_) => true,
        ShapeData::LineString(v) => consec_distinct_exec(v),
        ShapeData::LinearRing(v) => consec_distinct_exec(v),
        ShapeData::Polygon(v) => all_consec_distinct_exec(v),
        ShapeData::MultiPoint(v) => pairwise_distinct_exec(v),
        ShapeData::MultiLineString(v) => all_consec_distinct_exec(v),
        ShapeData::MultiPolygon(v) => {
            let ghost ps = crate::value::polys_rep(v@);
            let mut i: usize = 0;
            while i < v.len()
                invariant
                    0 <= i <= v@.len(),
                    forall|a: int| 0 <= a < i ==> all_rings_consec(#[trigger] ps[a]),
                decreases v@.len() - i,
            {
                proof {
                    assert(ps[i as int] == crate::value::rings_rep(v@[i as int]@));
                }
                if !all_consec_distinct_exec(&v[i]) {
                    proof {
                        let wi = i as int;
                        assert(ps.len() == v@.len());
                        assert(!all_rings_consec(ps[wi]));
                        assert(!all_rings_consec(s@->MultiPolygon_0[wi]));
                    }
                    return false;
                }
                i = i + 1;
            }
            true
        },
    }
}

/// The envelope of a geometry value's vertices, if it has any.
fn geom_box(g: &GeomData) -> (r: Option<(Coord, Coord)>)
    ensures
        r is None <==> !nonempty_rep(g@),
        r matches Some((lo, hi)) ==> {
            let e = geom_env(g@);
            lo@.x == e.x0 && lo@.y == e.y0 && hi@.x == e.x1 && hi@.y == e.y1
        },
{
    let vs = crate::ops::vertices(g);
    proof {
        assert(crate::value::ring_rep(vs@).len() == vs@.len());
    }
    crate::ops::envelope_box(&vs)
}

impl GGeom {
    /// Whether this geometry is structurally valid: paths have at least
    /// two vertices and rings are closed with at least four. This call is
    /// infallible: anything not recognisably valid reports `false`.
    #[verifier::loop_isolation(false)]
    pub fn is_valid(&self) -> (r: bool)
        ensures
            r == valid_rep(self@),
    {
        match &self.data {
            GeomData::Shape(s) => shape_valid_exec(s),
            GeomData::Collection(v) => {
                let ghost ss = shapes_rep(v@);
                let mut i: usize = 0;
                while i < v.len()
                    invariant
                        0 <= i <= v@.len(),
                        forall|j: int| 0 <= j < i ==> shape_valid(#[trigger] ss[j]),
                    decreases v@.len() - i,
                {
                    proof {
                        assert(ss[i as int] == v@[i as int]@);
                    }
                    if !shape_valid_exec(&v[i]) {
                        proof {
                            let wi = i as int;
                            assert(ss.len() == v@.len());
                            assert(!shape_valid(ss[wi]));
                            assert(!shape_valid(self@->Collection_0[wi]));
                        }
                        return false;
                    }
                    i = i + 1;
                }
                true
            },
        }
    }

    /// Whether this geometry repeats no vertex where the engine forbids
    /// repetition.
    #[verifier::loop_isolation(false)]
    pub fn is_simple(&self) -> (r: GResult<bool>)
        ensures
            r == Ok::<bool, Error>(simple_rep(self@)),
    {
        let code: i32 = match &self.data {
            GeomData::Shape(s) => {
                if shape_simple_exec(s) {
                    1
                } else {
                    0
                }
            },
            GeomData::Collection(v) => {
                let ghost ss = shapes_rep(v@);
                let mut simple = true;
                let mut i: usize = 0;
                while i < v.len()
                    invariant
                        0 <= i <= v@.len(),
                        simple ==> forall|j: int| 0 <= j < i ==> shape_simple(#[trigger] ss[j]),
                        !simple ==> !simple_rep(self@),
                    decreases v@.len() - i,
                {
                    proof {
                        assert(ss[i as int] == v@[i as int]@);
                    }
                    if !shape_simple_exec(&v[i]) {
                        proof {
                            let wi = i as int;
                            assert(ss.len() == v@.len());
                            assert(!shape_simple(ss[wi]));
                            assert(!shape_simple(self@->Collection_0[wi]));
                        }
                        simple = false;
                    }
                    i = i + 1;
                }
                if simple {
                    1
                } else {
                    0
                }
            },
        };
        check_geos_predicate(code, PredicateType::IsSimple)
    }

    /// Whether every path of this geometry returns to its start. The
    /// engine defines closure for line strings, linear rings and multi
    /// line strings only; on anything else it reports its error sentinel.
    #[verifier::loop_isolation(false)]
    pub fn is_closed(&self) -> (r: GResult<bool>)
        ensures
            closed_rep(self@) matches Some(b) ==> r == Ok::<bool, Error>(b),
            closed_rep(self@) is None ==> r == Err::<bool, Error>(
                Error::GeosError(PredicateType::IsClosed, 2),
            ),
    {
        let code: i32 = match &self.data {
            GeomData::Shape(ShapeData::LineString(v)) => {
                if ring_closed_exec(v) {
                    1
                } else {
                    0
                }
            },
            GeomData::Shape(ShapeData::LinearRing(v)) => {
                if ring_closed_exec(v) {
                    1
                } else {
                    0
                }
            },
            GeomData::Shape(ShapeData::MultiLineString(v)) => {
                let ghost rs = crate::value::rings_rep(v@);
                proof {
                    assert(self@->Shape_0->MultiLineString_0 == rs);
                }
                let mut all = true;
                let mut i: usize = 0;
                while i < v.len()
                    invariant
                        0 <= i <= v@.len(),
                        rs.len() == v@.len(),
                        all ==> forall|j: int| 0 <= j < i ==> ring_closed(#[trigger] rs[j]),
                        !all ==> !(forall|j: int| 0 <= j < rs.len() ==> ring_closed(
                            #[trigger] rs[j],
                        )),
                    decreases v@.len() - i,
                {
                    proof {
                        assert(rs[i as int] == crate::value::ring_rep(v@[i as int]@));
                    }
                    if !ring_closed_exec(&v[i]) {
                        proof {
                            let wi = i as int;
                            assert(!ring_closed(self@->Shape_0->MultiLineString_0[wi]));
                        }
                        all = false;
                    }
                    i = i + 1;
                }
                if all {
                    1
                } else {
                    0
                }
            },
            _ => 2,
        };
        check_geos_predicate(code, PredicateType::IsClosed)
    }

    /// Whether this geometry is a ring: a closed, repetition-free line of
    /// at least four vertices.
    pub fn is_ring(&self) -> (r: GResult<bool>)
        ensures
            r == Ok::<bool, Error>(is_ring_rep(self@)),
    {
        let code: i32 = match &self.data {
            GeomData::Shape(ShapeData::LineString(v)) => {
                if v.len() >= 4 && ring_closed_exec(v) && consec_distinct_exec(v) {
                    1
                } else {
                    0
                }
            },
            GeomData::Shape(ShapeData::LinearRing(v)) => {
                if v.len() >= 4 && ring_closed_exec(v) && consec_distinct_exec(v) {
                    1
                } else {
                    0
                }
            },
            _ => 0,
        };
        check_geos_predicate(code, PredicateType::IsRing)
    }

    /// Whether the envelopes of the two geometries share a point.
    pub fn intersects(&self, g2: &GGeom) -> (r: GResult<bool>)
        ensures
            r == Ok::<bool, Error>(intersects_rep(self@, g2@)),
    {
        let ba = geom_box(&self.data);
        let bb = geom_box(&g2.data);
        let code: i32 = match (ba, bb) {
            (Some((alo, ahi)), Some((blo, bhi))) => {
                if alo.x <= bhi.x && blo.x <= ahi.x && alo.y <= bhi.y && blo.y <= ahi.y {
                    1
                } else {
                    0
                }
            },
            _ => 0,
        };
        check_geos_predicate(code, PredicateType::Intersects)
    }

    /// The complement of `intersects`.
    pub fn disjoint(&self, g2: &GGeom) -> (r: GResult<bool>)
        ensures
            r == Ok::<bool, Error>(!intersects_rep(self@, g2@)),
    {
        let ba = geom_box(&self.data);
        let bb = geom_box(&g2.data);
        let code: i32 = match (ba, bb) {
            (Some((alo, ahi)), Some((blo, bhi))) => {
                if alo.x <= bhi.x && blo.x <= ahi.x && alo.y <= bhi.y && blo.y <= ahi.y {
                    0
                } else {
                    1
                }
            },
            _ => 1,
        };
        check_geos_predicate(code, PredicateType::Disjoint)
    }

    /// Whether this geometry's envelope lies within the other's.
    pub fn within(&self, g2: &GGeom) -> (r: GResult<bool>)
        ensures
            r == Ok::<bool, Error>(within_rep(self@, g2@)),
    {
        let ba = geom_box(&self.data);
        let bb = geom_box(&g2.data);
        let code: i32 = match (ba, bb) {
            (Some((alo, ahi)), Some((blo, bhi))) => {
                if blo.x <= alo.x && ahi.x <= bhi.x && blo.y <= alo.y && ahi.y <= bhi.y {
                    1
                } else {
                    0
                }
            },
            _ => 0,
        };
        check_geos_predicate(code, PredicateType::Within)
    }

    /// Whether the other geometry's envelope lies within this one's.
    pub fn contains(&self, g2: &GGeom) -> (r: GResult<bool>)
        ensures
            r == Ok::<bool, Error>(within_rep(g2@, self@)),
    {
        match g2.within(self) {
            Ok(b) => check_geos_predicate(
                if b {
                    1
                } else {
                    0
                },
                PredicateType::Contains,
            ),
            Err(e) => Err(e),
        }
    }

    /// In this engine's envelope algebra, covering coincides with
    /// containment.
    pub fn covers(&self, g2: &GGeom) -> (r: GResult<bool>)
        ensures
            r == Ok::<bool, Error>(within_rep(g2@, self@)),
    {
        match g2.within(self) {
            Ok(b) => check_geos_predicate(
                if b {
                    1
                } else {
                    0
                },
                PredicateType::Covers,
            ),
            Err(e) => Err(e),
        }
    }

    /// In this engine's envelope algebra, being covered coincides with
    /// being within.
    pub fn covered_by(&self, g2: &GGeom) -> (r: GResult<bool>)
        ensures
            r == Ok::<bool, Error>(within_rep(self@, g2@)),
    {
        match self.within(g2) {
            Ok(b) => check_geos_predicate(
                if b {
                    1
                } else {
                    0
                },
                PredicateType::CoveredBy,
            ),
            Err(e) => Err(e),
        }
    }

    /// Whether the envelopes meet on boundary only.
    pub fn touches(&self, g2: &GGeom) -> (r: GResult<bool>)
        ensures
            r == Ok::<bool, Error>(touches_rep(self@, g2@)),
    {
        let ba = geom_box(&self.data);
        let bb = geom_box(&g2.data);
        let code: i32 = match (ba, bb) {
            (Some((alo, ahi)), Some((blo, bhi))) => {
                let inter = alo.x <= bhi.x && blo.x <= ahi.x && alo.y <= bhi.y && blo.y <= ahi.y;
                let edge = alo.x == bhi.x || blo.x == ahi.x || alo.y == bhi.y || blo.y == ahi.y;
                if inter && edge {
                    1
                } else {
                    0
                }
            },
            _ => 0,
        };
        check_geos_predicate(code, PredicateType::Touches)
    }

    /// Whether the envelopes share interior while neither contains the
    /// other.
    pub fn overlaps(&self, g2: &GGeom) -> (r: GResult<bool>)
        ensures
            r == Ok::<bool, Error>(overlaps_rep(self@, g2@)),
    {
        let ba = geom_box(&self.data);
        let bb = geom_box(&g2.data);
        let code: i32 = match (ba, bb) {
            (Some((alo, ahi)), Some((blo, bhi))) => {
                let inter = alo.x <= bhi.x && blo.x <= ahi.x && alo.y <= bhi.y && blo.y <= ahi.y;
                let edge = alo.x == bhi.x || blo.x == ahi.x || alo.y == bhi.y || blo.y == ahi.y;
                let a_in_b = blo.x <= alo.x && ahi.x <= bhi.x && blo.y <= alo.y && ahi.y <= bhi.y;
                let b_in_a = alo.x <= blo.x && bhi.x <= ahi.x && alo.y <= blo.y && bhi.y <= ahi.y;
                if inter && !edge && !a_in_b && !b_in_a {
                    1
                } else {
                    0
                }
            },
            _ => 0,
        };
        check_geos_predicate(code, PredicateType::Overlaps)
    }

    /// In this engine's envelope algebra, crossing coincides with
    /// overlapping.
    pub fn crosses(&self, g2: &GGeom) -> (r: GResult<bool>)
        ensures
            r == Ok::<bool, Error>(overlaps_rep(self@, g2@)),
    {
        match self.overlaps(g2) {
            Ok(b) => check_geos_predicate(
                if b {
                    1
                } else {
                    0
                },
                PredicateType::Crosses,
            ),
            Err(e) => Err(e),
        }
    }

    /// Tolerant comparison: same kind, every corresponding vertex within
    /// `tolerance`. A negative tolerance is the engine's error sentinel.
    #[verifier::loop_isolation(false)]
    pub fn equals_exact(&self, g2: &GGeom, tolerance: crate::scalar::Scalar) -> (r: GResult<bool>)
        ensures
            tolerance.units >= 0 ==> r == Ok::<bool, Error>(
                equals_exact_rep(self@, g2@, tolerance.units as int),
            ),
            tolerance.units < 0 ==> r == Err::<bool, Error>(
                Error::GeosError(PredicateType::EqualsExact, 2),
            ),
    {
        if tolerance.units < 0 {
            return check_geos_predicate(2, PredicateType::EqualsExact);
        }
        let tol = tolerance.units;
        let ka = self.geometry_type();
        let kb = g2.geometry_type();
        if ka != kb {
            return check_geos_predicate(0, PredicateType::EqualsExact);
        }
        let va = crate::ops::vertices(&self.data);
        let vb = crate::ops::vertices(&g2.data);
        let ghost ca = geom_coords(self@);
        let ghost cb = geom_coords(g2@);
        if va.len() != vb.len() {
            proof {
                assert(crate::value::ring_rep(va@).len() == va@.len());
                assert(crate::value::ring_rep(vb@).len() == vb@.len());
            }
            return check_geos_predicate(0, PredicateType::EqualsExact);
        }
        let mut i: usize = 0;
        while i < va.len()
            invariant
                0 <= i <= va@.len(),
                va@.len() == vb@.len(),
                forall|j: int| 0 <= j < i ==> {
                    let pa = #[trigger] ca[j];
                    let pb = cb[j];
                    -(tol as int) <= pa.x - pb.x <= tol as int && -(tol as int) <= pa.y - pb.y
                        <= tol as int
                },
                tol == tolerance.units,
                0 <= tol,
            decreases va@.len() - i,
        {
            let a = va[i];
            let b = vb[i];
            proof {
                assert(ca[i as int] == va@[i as int]@);
                assert(cb[i as int] == vb@[i as int]@);
            }
            let dx_ok = if a.x >= b.x {
                (a.x as i128) - (b.x as i128) <= tol as i128
            } else {
                (b.x as i128) - (a.x as i128) <= tol as i128
            };
            let dy_ok = if a.y >= b.y {
                (a.y as i128) - (b.y as i128) <= tol as i128
            } else {
                (b.y as i128) - (a.y as i128) <= tol as i128
            };
            if !(dx_ok && dy_ok) {
                return check_geos_predicate(0, PredicateType::EqualsExact);
            }
            i = i + 1;
        }
        proof {
            assert(coords_close(ca, cb, tol as int));
        }
        check_geos_predicate(1, PredicateType::EqualsExact)
    }

    /// The area enclosed by this geometry, in scalar units: the exact
    /// shoelace total over its polygon rings, holes subtracted, floored
    /// to units. A total that does not fit the scalar is the engine's
    /// failed status.
    pub fn area(&self) -> (r: GResult<crate::scalar::Scalar>)
        ensures
            crate::ops::area_units(self@) <= i64::MAX as int ==> r == Ok::<
                crate::scalar::Scalar,
                Error,
            >(crate::scalar::Scalar { units: crate::ops::area_units(self@) as i64 }),
            crate::ops::area_units(self@) > i64::MAX as int ==> r == Err::<
                crate::scalar::Scalar,
                Error,
            >(Error::GeosError(PredicateType::Area, 0)),
    {
        proof {
            use_type_invariant(self);
        }
        let a2 = crate::ops::geom_area2_exec(&self.data);
        let clamped: i128 = if a2 < 0 {
            0
        } else {
            a2
        };
        let units = clamped / 2000;
        if units <= (i64::MAX as i128) {
            match check_ret(1, PredicateType::Area) {
                Ok(_) => Ok(crate::scalar::Scalar { units: units as i64 }),
                Err(e) => Err(e),
            }
        } else {
            match check_ret(0, PredicateType::Area) {
                Ok(_) => Ok(crate::scalar::Scalar { units: 0 }),
                Err(e) => Err(e),
            }
        }
    }

    /// The length of this geometry, in scalar units: path lengths of its
    /// lines and ring paths of its areas, each edge floored. A total that
    /// does not fit the scalar is the engine's failed status.
    pub fn length(&self) -> (r: GResult<crate::scalar::Scalar>)
        ensures
            crate::ops::geom_length_units(self@) <= i64::MAX as int ==> r == Ok::<
                crate::scalar::Scalar,
                Error,
            >(crate::scalar::Scalar { units: crate::ops::geom_length_units(self@) as i64 }),
            crate::ops::geom_length_units(self@) > i64::MAX as int ==> r == Err::<
                crate::scalar::Scalar,
                Error,
            >(Error::GeosError(PredicateType::Length, 0)),
    {
        proof {
            use_type_invariant(self);
        }
        let units = crate::ops::geom_length_units_exec(&self.data);
        if units <= (i64::MAX as i128) {
            match check_ret(1, PredicateType::Length) {
                Ok(_) => Ok(crate::scalar::Scalar { units: units as i64 }),
                Err(e) => Err(e),
            }
        } else {
            match check_ret(0, PredicateType::Length) {
                Ok(_) => Ok(crate::scalar::Scalar { units: 0 }),
                Err(e) => Err(e),
            }
        }
    }

    /// The length of a line geometry. The engine defines this call for
    /// line strings, linear rings and multi line strings only; on
    /// anything else it reports its failed status.
    pub fn get_length(&self) -> (r: GResult<crate::scalar::Scalar>)
        ensures
            ({
                let k = kind_rep(self@);
                let line = k == GGeomTypes::LineString || k == GGeomTypes::LinearRing || k
                    == GGeomTypes::MultiLineString;
                &&& line ==> r == Ok::<crate::scalar::Scalar, Error>(
                    crate::scalar::Scalar {
                        units: crate::ops::geom_length_units(self@) as i64,
                    },
                )
                &&& !line ==> r == Err::<crate::scalar::Scalar, Error>(
                    Error::GeosError(PredicateType::Length, 0),
                )
            }),
    {
        proof {
            use_type_invariant(self);
        }
        let k = self.geometry_type();
        let line = k == GGeomTypes::LineString || k == GGeomTypes::LinearRing || k
            == GGeomTypes::MultiLineString;
        if !line {
            match check_ret(0, PredicateType::Length) {
                Ok(_) => Ok(crate::scalar::Scalar { units: 0 }),
                Err(e) => Err(e),
            }
        } else {
            let units = crate::ops::geom_length_units_exec(&self.data);
            proof {
                crate::ops::lemma_geom_length_units_bound(self@);
                match self@ {
                    GeomRep::Shape(s) => {
                        crate::ops::lemma_shape_length_units_bound(s);
                    },
                    GeomRep::Collection(_) => {},
                }
            }
            match check_ret(1, PredicateType::Length) {
                Ok(_) => Ok(crate::scalar::Scalar { units: units as i64 }),
                Err(e) => Err(e),
            }
        }
    }

    /// The least vertex-to-vertex distance between the two geometries, in
    /// scalar units, rounded down. The engine reports its failed status
    /// when either geometry has no vertex.
    pub fn distance(&self, other: &GGeom) -> (r: GResult<crate::scalar::Scalar>)
        ensures
            nonempty_rep(self@) && nonempty_rep(other@) ==> r == Ok::<
                crate::scalar::Scalar,
                Error,
            >(
                crate::scalar::Scalar {
                    units: crate::scalar::sqrt_floor(
                        crate::ops::min_sqdist(geom_coords(self@), geom_coords(other@)) as nat,
                    ) as i64,
                },
            ),
            !(nonempty_rep(self@) && nonempty_rep(other@)) ==> r == Err::<
                crate::scalar::Scalar,
                Error,
            >(Error::GeosError(PredicateType::Distance, 0)),
    {
        proof {
            use_type_invariant(self);
            use_type_invariant(other);
        }
        let va = crate::ops::vertices(&self.data);
        let vb = crate::ops::vertices(&other.data);
        proof {
            assert(crate::value::ring_rep(va@).len() == va@.len());
            assert(crate::value::ring_rep(vb@).len() == vb@.len());
        }
        if va.len() == 0 || vb.len() == 0 {
            match check_ret(0, PredicateType::Distance) {
                Ok(_) => Ok(crate::scalar::Scalar { units: 0 }),
                Err(e) => Err(e),
            }
        } else {
            proof {
                crate::ops::lemma_geom_coords_wf(self@);
                crate::ops::lemma_geom_coords_wf(other@);
            }
            let d = crate::ops::min_sqdist_exec(&va, &vb);
            let u = crate::scalar::isqrt(d as u128);
            proof {
                crate::scalar::lemma_sqrt_floor_bounds(d as nat);
                assert(crate::scalar::sqrt_floor(d as nat) <= 3_000_000_000_000)
                    by (nonlinear_arith)
                    requires
                        crate::scalar::sqrt_floor(d as nat) * crate::scalar::sqrt_floor(d as nat)
                            <= d as nat,
                        0 <= d,
                        d as nat <= 8_000_000_000_000_000_000_000_000nat,
                ;
            }
            match check_ret(1, PredicateType::Distance) {
                Ok(_) => Ok(crate::scalar::Scalar { units: u as i64 }),
                Err(e) => Err(e),
            }
        }
    }

    /// The same least vertex-to-vertex distance as [`GGeom::distance`],
    /// computed through the engine's indexed facility, which changes the
    /// search path and not the value.
    pub fn distance_indexed(&self, other: &GGeom) -> (r: GResult<crate::scalar::Scalar>)
        ensures
            nonempty_rep(self@) && nonempty_rep(other@) ==> r == Ok::<
                crate::scalar::Scalar,
                Error,
            >(
                crate::scalar::Scalar {
                    units: crate::scalar::sqrt_floor(
                        crate::ops::min_sqdist(geom_coords(self@), geom_coords(other@)) as nat,
                    ) as i64,
                },
            ),
            !(nonempty_rep(self@) && nonempty_rep(other@)) ==> r == Err::<
                crate::scalar::Scalar,
                Error,
            >(Error::GeosError(PredicateType::Distance, 0)),
    {
        self.distance(other)
    }

    /// The discrete Hausdorff distance over the vertex sets: the larger
    /// of the two directed greatest-least distances, in scalar units,
    /// rounded down. The engine reports its failed status when either
    /// geometry has no vertex.
    pub fn hausdorff_distance(&self, other: &GGeom) -> (r: GResult<crate::scalar::Scalar>)
        ensures
            nonempty_rep(self@) && nonempty_rep(other@) ==> r == Ok::<
                crate::scalar::Scalar,
                Error,
            >(
                crate::scalar::Scalar {
                    units: crate::scalar::sqrt_floor(
                        crate::ops::hausdorff_sqdist(
                            geom_coords(self@),
                            geom_coords(other@),
                        ) as nat,
                    ) as i64,
                },
            ),
            !(nonempty_rep(self@) && nonempty_rep(other@)) ==> r == Err::<
                crate::scalar::Scalar,
                Error,
            >(Error::GeosError(PredicateType::Distance, 0)),
    {
        proof {
            use_type_invariant(self);
            use_type_invariant(other);
        }
        let va = crate::ops::vertices(&self.data);
        let vb = crate::ops::vertices(&other.data);
        proof {
            assert(crate::value::ring_rep(va@).len() == va@.len());
            assert(crate::value::ring_rep(vb@).len() == vb@.len());
        }
        if va.len() == 0 || vb.len() == 0 {
            match check_ret(0, PredicateType::Distance) {
                Ok(_) => Ok(crate::scalar::Scalar { units: 0 }),
                Err(e) => Err(e),
            }
        } else {
            proof {
                crate::ops::lemma_geom_coords_wf(self@);
                crate::ops::lemma_geom_coords_wf(other@);
            }
            let ab = crate::ops::max_min_sqdist_exec(&va, &vb);
            let ba = crate::ops::max_min_sqdist_exec(&vb, &va);
            let d: i128 = if ab > ba {
                ab
            } else {
                ba
            };
            let u = crate::scalar::isqrt(d as u128);
            proof {
                crate::scalar::lemma_sqrt_floor_bounds(d as nat);
                assert(crate::scalar::sqrt_floor(d as nat) <= 3_000_000_000_000)
                    by (nonlinear_arith)
                    requires
                        crate::scalar::sqrt_floor(d as nat) * crate::scalar::sqrt_floor(d as nat)
                            <= d as nat,
                        0 <= d,
                        d as nat <= 8_000_000_000_000_000_000_000_000nat,
                ;
            }
            match check_ret(1, PredicateType::Distance) {
                Ok(_) => Ok(crate::scalar::Scalar { units: u as i64 }),
                Err(e) => Err(e),
            }
        }
    }

    /// The discrete Hausdorff distance with a densification fraction. The
    /// fraction must lie in `(0, 1]`; the engine's vertex-discrete metric
    /// is otherwise unchanged by it, so the value equals
    /// [`GGeom::hausdorff_distance`].
    pub fn hausdorff_distance_densify(
        &self,
        other: &GGeom,
        distance_frac: crate::scalar::Scalar,
    ) -> (r: GResult<crate::scalar::Scalar>)
        ensures
            !(0 < distance_frac.units <= 1000) ==> r == Err::<crate::scalar::Scalar, Error>(
                Error::GeosError(PredicateType::Distance, 2),
            ),
            (0 < distance_frac.units <= 1000) && nonempty_rep(self@) && nonempty_rep(other@)
                ==> r == Ok::<crate::scalar::Scalar, Error>(
                crate::scalar::Scalar {
                    units: crate::scalar::sqrt_floor(
                        crate::ops::hausdorff_sqdist(
                            geom_coords(self@),
                            geom_coords(other@),
                        ) as nat,
                    ) as i64,
                },
            ),
            (0 < distance_frac.units <= 1000) && !(nonempty_rep(self@) && nonempty_rep(other@))
                ==> r == Err::<crate::scalar::Scalar, Error>(
                Error::GeosError(PredicateType::Distance, 0),
            ),
    {
        if !(0 < distance_frac.units && distance_frac.units <= 1000) {
            match check_ret(2, PredicateType::Distance) {
                Ok(_) => Ok(crate::scalar::Scalar { units: 0 }),
                Err(e) => Err(e),
            }
        } else {
            self.hausdorff_distance(other)
        }
    }
}


/// The components of a geometry: one shape, or the collection's members.
pub open spec fn comps(g: GeomRep) -> Seq<ShapeRep> {
    match g {
        GeomRep::Shape(s) => seq![s],
        GeomRep::Collection(ss) => ss,
    }
}

/// Whether a shape occurs in the list, compared as the engine's values
/// (equal normal forms).
pub open spec fn has_comp(ss: Seq<ShapeRep>, s: ShapeRep) -> bool {
    exists|i: int| 0 <= i < ss.len() && crate::norm::norm_shape(#[trigger] ss[i])
        == crate::norm::norm_shape(s)
}

/// The members of `as_` that occur in `bs`.
pub open spec fn inter_comps(as_: Seq<ShapeRep>, bs: Seq<ShapeRep>) -> Seq<ShapeRep>
    decreases as_.len(),
{
    if as_.len() == 0 {
        Seq::empty()
    } else {
        let rest = inter_comps(as_.drop_last(), bs);
        if has_comp(bs, as_.last()) {
            rest.push(as_.last())
        } else {
            rest
        }
    }
}

/// The members of `as_` that do not occur in `bs`.
pub open spec fn diff_comps(as_: Seq<ShapeRep>, bs: Seq<ShapeRep>) -> Seq<ShapeRep>
    decreases as_.len(),
{
    if as_.len() == 0 {
        Seq::empty()
    } else {
        let rest = diff_comps(as_.drop_last(), bs);
        if has_comp(bs, as_.last()) {
            rest
        } else {
            rest.push(as_.last())
        }
    }
}

/// The list with repeated members (as the engine's values) kept once,
/// first occurrence first.
pub open spec fn dedup_comps(ss: Seq<ShapeRep>) -> Seq<ShapeRep>
    decreases ss.len(),
{
    if ss.len() == 0 {
        Seq::empty()
    } else {
        let rest = dedup_comps(ss.drop_last());
        if has_comp(ss.drop_last(), ss.last()) {
            rest
        } else {
            rest.push(ss.last())
        }
    }
}

/// Whether a shape occurs in the slice's first `n` members, compared as
/// the engine's values.
#[verifier::loop_isolation(false)]
fn has_comp_upto(vs: &Vec<ShapeData>, n: usize, s: &ShapeData) -> (r: bool)
    requires
        n <= vs@.len(),
        forall|i: int| 0 <= i < vs@.len() ==> crate::value::wf_shape(#[trigger] shapes_rep(vs@)[i]),
        crate::value::wf_shape(s@),
    ensures
        r == has_comp(shapes_rep(vs@).take(n as int), s@),
{
    let ghost ss = shapes_rep(vs@);
    let ns = crate::norm::norm_shape_exec(s);
    let mut i: usize = 0;
    while i < n
        invariant
            0 <= i <= n <= vs@.len(),
            ns@ == crate::norm::norm_shape(s@),
            forall|j: int| 0 <= j < i ==> crate::norm::norm_shape(#[trigger] ss[j])
                != crate::norm::norm_shape(s@),
        decreases n - i,
    {
        proof {
            assert(ss[i as int] == vs@[i as int]@);
        }
        let ni = crate::norm::norm_shape_exec(&vs[i]);
        if crate::norm::eq_shape(&ni, &ns) {
            proof {
                let t = ss.take(n as int);
                assert(t[i as int] == ss[i as int]);
            }
            return true;
        }
        i = i + 1;
    }
    proof {
        assert(forall|j: int| 0 <= j < n ==> #[trigger] ss.take(n as int)[j] == ss[j]);
    }
    false
}

/// Whether a shape occurs in the list, compared as the engine's values.
fn has_comp_exec(vs: &Vec<ShapeData>, s: &ShapeData) -> (r: bool)
    requires
        forall|i: int| 0 <= i < vs@.len() ==> crate::value::wf_shape(#[trigger] shapes_rep(vs@)[i]),
        crate::value::wf_shape(s@),
    ensures
        r == has_comp(shapes_rep(vs@), s@),
{
    let n = vs.len();
    let r = has_comp_upto(vs, n, s);
    proof {
        assert(shapes_rep(vs@).take(vs@.len() as int) =~= shapes_rep(vs@));
    }
    r
}

/// The components of a geometry value, copied out.
#[verifier::loop_isolation(false)]
fn comps_vec(g: &GeomData) -> (r: Vec<ShapeData>)
    requires
        wf_geom(g@),
    ensures
        shapes_rep(r@) =~= comps(g@),
        forall|i: int| 0 <= i < r@.len() ==> crate::value::wf_shape(#[trigger] shapes_rep(r@)[i]),
{
    match g {
        GeomData::Shape(s) => {
            let mut out: Vec<ShapeData> = Vec::new();
            out.push(crate::value::copy_shape(s));
            proof {
                assert(shapes_rep(out@) =~= comps(g@));
            }
            out
        },
        GeomData::Collection(v) => {
            let mut out: Vec<ShapeData> = Vec::new();
            let mut i: usize = 0;
            while i < v.len()
                invariant
                    0 <= i <= v@.len(),
                    out@.len() == i,
                    forall|j: int| 0 <= j < i ==> #[trigger] out@[j]@ == v@[j]@,
                decreases v@.len() - i,
            {
                out.push(crate::value::copy_shape(&v[i]));
                i = i + 1;
            }
            proof {
                assert(shapes_rep(out@) =~= comps(g@));
            }
            out
        },
    }
}

/// The members of `av` not occurring in `bv`, as the engine's values.
#[verifier::loop_isolation(false)]
fn diff_comps_exec(av: &Vec<ShapeData>, bv: &Vec<ShapeData>) -> (r: Vec<ShapeData>)
    requires
        forall|i: int| 0 <= i < av@.len() ==> crate::value::wf_shape(#[trigger] shapes_rep(av@)[i]),
        forall|i: int| 0 <= i < bv@.len() ==> crate::value::wf_shape(#[trigger] shapes_rep(bv@)[i]),
    ensures
        shapes_rep(r@) =~= diff_comps(shapes_rep(av@), shapes_rep(bv@)),
        forall|i: int| 0 <= i < r@.len() ==> crate::value::wf_shape(#[trigger] shapes_rep(r@)[i]),
{
    let ghost sa = shapes_rep(av@);
    let ghost sb = shapes_rep(bv@);
    let mut out: Vec<ShapeData> = Vec::new();
    let mut i: usize = 0;
    while i < av.len()
        invariant
            0 <= i <= av@.len(),
            shapes_rep(out@) =~= diff_comps(sa.take(i as int), sb),
            forall|j: int| 0 <= j < out@.len() ==> crate::value::wf_shape(
                #[trigger] shapes_rep(out@)[j],
            ),
        decreases av@.len() - i,
    {
        proof {
            assert(sa[i as int] == av@[i as int]@);
        }
        let found = has_comp_exec(bv, &av[i]);
        proof {
            let t = sa.take(i as int + 1);
            assert(t.drop_last() =~= sa.take(i as int));
            assert(t.last() == sa[i as int]);
        }
        if !found {
            let ghost prevout = out@;
            out.push(crate::value::copy_shape(&av[i]));
            proof {
                assert(out@ == prevout.push(out@[out@.len() - 1]));
                assert(shapes_rep(out@) =~= shapes_rep(prevout).push(sa[i as int]));
            }
        }
        i = i + 1;
    }
    proof {
        assert(sa.take(av@.len() as int) =~= sa);
    }
    out
}

/// The members of `av` occurring in `bv`, as the engine's values.
#[verifier::loop_isolation(false)]
fn inter_comps_exec(av: &Vec<ShapeData>, bv: &Vec<ShapeData>) -> (r: Vec<ShapeData>)
    requires
        forall|i: int| 0 <= i < av@.len() ==> crate::value::wf_shape(#[trigger] shapes_rep(av@)[i]),
        forall|i: int| 0 <= i < bv@.len() ==> crate::value::wf_shape(#[trigger] shapes_rep(bv@)[i]),
    ensures
        shapes_rep(r@) =~= inter_comps(shapes_rep(av@), shapes_rep(bv@)),
        forall|i: int| 0 <= i < r@.len() ==> crate::value::wf_shape(#[trigger] shapes_rep(r@)[i]),
{
    let ghost sa = shapes_rep(av@);
    let ghost sb = shapes_rep(bv@);
    let mut out: Vec<ShapeData> = Vec::new();
    let mut i: usize = 0;
    while i < av.len()
        invariant
            0 <= i <= av@.len(),
            shapes_rep(out@) =~= inter_comps(sa.take(i as int), sb),
            forall|j: int| 0 <= j < out@.len() ==> crate::value::wf_shape(
                #[trigger] shapes_rep(out@)[j],
            ),
        decreases av@.len() - i,
    {
        proof {
            assert(sa[i as int] == av@[i as int]@);
        }
        let found = has_comp_exec(bv, &av[i]);
        proof {
            let t = sa.take(i as int + 1);
            assert(t.drop_last() =~= sa.take(i as int));
            assert(t.last() == sa[i as int]);
        }
        if found {
            let ghost prevout = out@;
            out.push(crate::value::copy_shape(&av[i]));
            proof {
                assert(shapes_rep(out@) =~= shapes_rep(prevout).push(sa[i as int]));
            }
        }
        i = i + 1;
    }
    proof {
        assert(sa.take(av@.len() as int) =~= sa);
    }
    out
}

impl Clone for GGeom {
    /// A deep clone: a brand-new geometry value equal to this one, under
    /// the same shared context (not a new context).
    fn clone(&self) -> (r: GGeom)
        ensures
            r@ == self@,
            r.spec_context() == self.spec_context(),
    {
        proof {
            use_type_invariant(self);
        }
        GGeom { data: copy_geom(&self.data), context: share_context(&self.context) }
    }
}

impl GGeom {
    /// The coordinate sequence of a point, line string or linear ring,
    /// copied out (the geometry keeps its own buffer, so neither owner
    /// can release the other's). Any other kind has no single coordinate
    /// sequence to give.
    pub fn get_coord_seq(&self) -> (r: Result<CoordSeq, Error>)
        ensures
            ({
                let k = kind_rep(self@);
                &&& k == GGeomTypes::Point ==> (r matches Ok(s) && s@ == seq![
                    point_of(self@),
                ])
                &&& k == GGeomTypes::LineString ==> (r matches Ok(s) && s@ == line_of(self@))
                &&& k == GGeomTypes::LinearRing ==> (r matches Ok(s) && s@ == ring_of(self@))
                &&& !(k == GGeomTypes::Point || k == GGeomTypes::LineString || k
                    == GGeomTypes::LinearRing) ==> (r matches Err(e) && e matches
                    Error::ImpossibleOperation(_))
            }),
    {
        proof {
            use_type_invariant(self);
        }
        match &self.data {
            GeomData::Shape(ShapeData::Point(c)) => {
                let mut v: Vec<Coord> = Vec::new();
                v.push(*c);
                proof {
                    assert(crate::value::ring_rep(v@) =~= seq![point_of(self@)]);
                }
                CoordSeq::new_from_coords(v)
            },
            GeomData::Shape(ShapeData::LineString(l)) => {
                CoordSeq::new_from_coords(crate::value::copy_ring(l))
            },
            GeomData::Shape(ShapeData::LinearRing(l)) => {
                CoordSeq::new_from_coords(crate::value::copy_ring(l))
            },
            _ => Err(
                Error::ImpossibleOperation(
                    String::from_str(
                        "Geometry must be a Point, LineString or LinearRing to extract its coordinates",
                    ),
                ),
            ),
        }
    }

    /// The centroid of this geometry's vertices, as a fresh point under
    /// this geometry's context. An empty geometry gives the engine
    /// nothing to average: it hands back null.
    pub fn get_centroid(&self) -> (r: GResult<GGeom>)
        ensures
            nonempty_rep(self@) ==> (r matches Ok(g) && g@ == GeomRep::Shape(
                ShapeRep::Point(crate::ops::centroid_rep(geom_coords(self@))),
            ) && g.spec_context() == self.spec_context()),
            !nonempty_rep(self@) ==> r == Err::<GGeom, Error>(Error::NoConstructionFromNullPtr),
    {
        proof {
            use_type_invariant(self);
        }
        let vs = crate::ops::vertices(&self.data);
        proof {
            assert(crate::value::ring_rep(vs@).len() == vs@.len());
        }
        if vs.len() == 0 {
            return Err(Error::NoConstructionFromNullPtr);
        }
        proof {
            crate::ops::lemma_geom_coords_wf(self@);
        }
        let c = crate::ops::centroid_exec(&vs);
        GGeom::new_from_value(GeomData::Shape(ShapeData::Point(c)), self.clone_context())
    }

    /// The envelope of this geometry: its bounding box as a polygon, or a
    /// point when the box is degenerate. An empty geometry has no
    /// envelope: the engine hands back null.
    pub fn envelope(&self) -> (r: GResult<GGeom>)
        ensures
            nonempty_rep(self@) ==> (r matches Ok(g) && g@ == envelope_rep(self@)
                && g.spec_context() == self.spec_context()),
            !nonempty_rep(self@) ==> r == Err::<GGeom, Error>(Error::NoConstructionFromNullPtr),
    {
        proof {
            use_type_invariant(self);
        }
        match geom_box(&self.data) {
            None => Err(Error::NoConstructionFromNullPtr),
            Some((lo, hi)) => {
                proof {
                    crate::ops::lemma_geom_coords_wf(self@);
                    lemma_env_coords_wf(geom_coords(self@));
                }
                if lo.x == hi.x && lo.y == hi.y {
                    GGeom::new_from_value(
                        GeomData::Shape(ShapeData::Point(lo)),
                        self.clone_context(),
                    )
                } else {
                    let mut ring: Vec<Coord> = Vec::new();
                    ring.push(lo);
                    ring.push(Coord { x: hi.x, y: lo.y });
                    ring.push(hi);
                    ring.push(Coord { x: lo.x, y: hi.y });
                    ring.push(lo);
                    let ghost ringrep = crate::value::ring_rep(ring@);
                    proof {
                        let e = geom_env(self@);
                        assert(ringrep =~= seq![
                            CoordRep { x: e.x0, y: e.y0 },
                            CoordRep { x: e.x1, y: e.y0 },
                            CoordRep { x: e.x1, y: e.y1 },
                            CoordRep { x: e.x0, y: e.y1 },
                            CoordRep { x: e.x0, y: e.y0 },
                        ]);
                    }
                    let mut rings: Vec<Vec<Coord>> = Vec::new();
                    rings.push(ring);
                    proof {
                        assert(crate::value::rings_rep(rings@) =~= seq![ringrep]);
                    }
                    GGeom::new_from_value(
                        GeomData::Shape(ShapeData::Polygon(rings)),
                        self.clone_context(),
                    )
                }
            },
        }
    }

    /// This engine's convex hull is the envelope of the vertex set: the
    /// coarsest convex cover it computes.
    pub fn convex_hull(&self) -> (r: GResult<GGeom>)
        ensures
            nonempty_rep(self@) ==> (r matches Ok(g) && g@ == envelope_rep(self@)
                && g.spec_context() == self.spec_context()),
            !nonempty_rep(self@) ==> r == Err::<GGeom, Error>(Error::NoConstructionFromNullPtr),
    {
        self.envelope()
    }

    /// Union in this engine's component algebra: every component of both
    /// operands, in order, under this geometry's context. More components
    /// than the engine's cap make it hand back null.
    #[verifier::loop_isolation(false)]
    pub fn union(&self, g2: &GGeom) -> (r: GResult<GGeom>)
        ensures
            comps(self@).len() + comps(g2@).len() <= crate::value::CAP as int ==> (r matches Ok(g)
                && g@ == GeomRep::Collection(comps(self@) + comps(g2@)) && g.spec_context()
                == self.spec_context()),
            comps(self@).len() + comps(g2@).len() > crate::value::CAP as int ==> r == Err::<
                GGeom,
                Error,
            >(Error::NoConstructionFromNullPtr),
    {
        proof {
            use_type_invariant(self);
            use_type_invariant(g2);
        }
        let mut ca = comps_vec(&self.data);
        let mut cb = comps_vec(&g2.data);
        let ghost sa = comps(self@);
        let ghost sb = comps(g2@);
        let mut i: usize = 0;
        while i < cb.len()
            invariant
                0 <= i <= cb@.len(),
                shapes_rep(cb@) =~= sb,
                shapes_rep(ca@) =~= sa + sb.take(i as int),
            decreases cb@.len() - i,
        {
            let ghost prevca = ca@;
            ca.push(crate::value::copy_shape(&cb[i]));
            proof {
                assert(shapes_rep(ca@) =~= shapes_rep(prevca).push(sb[i as int]));
                assert(shapes_rep(ca@) =~= sa + sb.take(i as int + 1));
            }
            i = i + 1;
        }
        proof {
            assert(sb.take(cb@.len() as int) =~= sb);
            assert(shapes_rep(ca@) =~= sa + sb);
        }
        GGeom::new_from_value(GeomData::Collection(ca), self.clone_context())
    }

    /// Intersection in this engine's component algebra: the components of
    /// this geometry that occur (as the engine's values) in the other.
    pub fn intersection(&self, other: &GGeom) -> (r: GResult<GGeom>)
        ensures
            r matches Ok(g) && g@ == GeomRep::Collection(inter_comps(comps(self@), comps(other@)))
                && g.spec_context() == self.spec_context(),
    {
        proof {
            use_type_invariant(self);
            use_type_invariant(other);
        }
        let ca = comps_vec(&self.data);
        let cb = comps_vec(&other.data);
        let out = inter_comps_exec(&ca, &cb);
        proof {
            lemma_inter_comps_len(comps(self@), comps(other@));
        }
        GGeom::new_from_value(GeomData::Collection(out), self.clone_context())
    }

    /// Difference in this engine's component algebra: the components of
    /// this geometry that do not occur (as the engine's values) in the
    /// other.
    pub fn difference(&self, g2: &GGeom) -> (r: GResult<GGeom>)
        ensures
            r matches Ok(g) && g@ == GeomRep::Collection(diff_comps(comps(self@), comps(g2@)))
                && g.spec_context() == self.spec_context(),
    {
        proof {
            use_type_invariant(self);
            use_type_invariant(g2);
        }
        let ca = comps_vec(&self.data);
        let cb = comps_vec(&g2.data);
        let out = diff_comps_exec(&ca, &cb);
        proof {
            lemma_diff_comps_len(comps(self@), comps(g2@));
        }
        GGeom::new_from_value(GeomData::Collection(out), self.clone_context())
    }

    /// Symmetric difference in this engine's component algebra: the
    /// components occurring in exactly one operand, this geometry's
    /// first. More than the engine's cap make it hand back null.
    #[verifier::loop_isolation(false)]
    pub fn sym_difference(&self, g2: &GGeom) -> (r: GResult<GGeom>)
        ensures
            ({
                let d = diff_comps(comps(self@), comps(g2@)) + diff_comps(
                    comps(g2@),
                    comps(self@),
                );
                &&& d.len() <= crate::value::CAP as int ==> (r matches Ok(g) && g@
                    == GeomRep::Collection(d) && g.spec_context() == self.spec_context())
                &&& d.len() > crate::value::CAP as int ==> r == Err::<GGeom, Error>(
                    Error::NoConstructionFromNullPtr,
                )
            }),
    {
        proof {
            use_type_invariant(self);
            use_type_invariant(g2);
        }
        let ca = comps_vec(&self.data);
        let cb = comps_vec(&g2.data);
        let mut out = diff_comps_exec(&ca, &cb);
        let back = diff_comps_exec(&cb, &ca);
        let ghost d1 = diff_comps(comps(self@), comps(g2@));
        let ghost d2 = diff_comps(comps(g2@), comps(self@));
        let mut i: usize = 0;
        while i < back.len()
            invariant
                0 <= i <= back@.len(),
                shapes_rep(back@) =~= d2,
                shapes_rep(out@) =~= d1 + d2.take(i as int),
            decreases back@.len() - i,
        {
            let ghost prevout = out@;
            out.push(crate::value::copy_shape(&back[i]));
            proof {
                assert(shapes_rep(out@) =~= shapes_rep(prevout).push(d2[i as int]));
                assert(shapes_rep(out@) =~= d1 + d2.take(i as int + 1));
            }
            i = i + 1;
        }
        proof {
            assert(d2.take(back@.len() as int) =~= d2);
            assert(shapes_rep(out@) =~= d1 + d2);
        }
        GGeom::new_from_value(GeomData::Collection(out), self.clone_context())
    }

    /// Union of this geometry with itself: its components with repeats
    /// (as the engine's values) kept once. A single shape is already its
    /// own union.
    #[verifier::loop_isolation(false)]
    pub fn unary_union(&self) -> (r: GResult<GGeom>)
        ensures
            self@ matches GeomRep::Shape(_) ==> (r matches Ok(g) && g@ == self@
                && g.spec_context() == self.spec_context()),
            self@ matches GeomRep::Collection(ss) ==> (r matches Ok(g) && g@
                == GeomRep::Collection(dedup_comps(ss)) && g.spec_context()
                == self.spec_context()),
    {
        proof {
            use_type_invariant(self);
        }
        match &self.data {
            GeomData::Shape(_) => {
                proof {
                    lemma_dedup_comps_len(comps(self@));
                }
                GGeom::new_from_value(copy_geom(&self.data), self.clone_context())
            },
            GeomData::Collection(v) => {
                let ghost ss = shapes_rep(v@);
                let mut out: Vec<ShapeData> = Vec::new();
                let mut i: usize = 0;
                while i < v.len()
                    invariant
                        0 <= i <= v@.len(),
                        shapes_rep(out@) =~= dedup_comps(ss.take(i as int)),
                        forall|j: int| 0 <= j < v@.len() ==> crate::value::wf_shape(
                            #[trigger] ss[j],
                        ),
                        forall|j: int| 0 <= j < out@.len() ==> crate::value::wf_shape(
                            #[trigger] shapes_rep(out@)[j],
                        ),
                    decreases v@.len() - i,
                {
                    proof {
                        assert(ss[i as int] == v@[i as int]@);
                        assert(forall|j: int| 0 <= j < i ==> #[trigger] ss.take(i as int)[j]
                            == ss[j]);
                    }
                    let seen = has_comp_upto(v, i, &v[i]);
                    proof {
                        let t = ss.take(i as int + 1);
                        assert(t.drop_last() =~= ss.take(i as int));
                        assert(t.last() == ss[i as int]);
                    }
                    if !seen {
                        let ghost prevout = out@;
                        out.push(crate::value::copy_shape(&v[i]));
                        proof {
                            assert(shapes_rep(out@) =~= shapes_rep(prevout).push(ss[i as int]));
                        }
                    }
                    i = i + 1;
                }
                proof {
                    assert(ss.take(v@.len() as int) =~= ss);
                    lemma_dedup_comps_len(ss);
                }
                GGeom::new_from_value(GeomData::Collection(out), self.clone_context())
            },
        }
    }

    /// The Voronoi diagram of this geometry's sites. With at most one
    /// distinct site the diagram is empty: an empty collection, or an
    /// empty multi line string when only the edges are asked for; the
    /// snapping tolerance then has nothing to snap and the clip envelope
    /// nothing to clip. This engine computes no multi-site diagram and
    /// hands back null there.
    #[verifier::loop_isolation(false)]
    pub fn voronoi(&self, envelope: Option<&GGeom>, tolerance: crate::scalar::Scalar,
        only_edges: bool) -> (r: GResult<GGeom>)
        ensures
            single_site(geom_coords(self@)) ==> (r matches Ok(g) && g@ == (if only_edges {
                GeomRep::Shape(ShapeRep::MultiLineString(Seq::empty()))
            } else {
                GeomRep::Collection(Seq::empty())
            }) && g.spec_context() == self.spec_context()),
            !single_site(geom_coords(self@)) ==> r == Err::<GGeom, Error>(
                Error::NoConstructionFromNullPtr,
            ),
    {
        proof {
            use_type_invariant(self);
        }
        let vs = crate::ops::vertices(&self.data);
        let ghost cs = geom_coords(self@);
        let mut i: usize = 0;
        while i < vs.len()
            invariant
                0 <= i <= vs@.len(),
                cs == crate::value::ring_rep(vs@),
                forall|j: int| 0 <= j < i ==> #[trigger] cs[j] == cs[0],
            decreases vs@.len() - i,
        {
            let a = vs[0];
            let b = vs[i];
            proof {
                assert(cs[0] == vs@[0]@);
                assert(cs[i as int] == vs@[i as int]@);
            }
            if !(a.x == b.x && a.y == b.y) {
                proof {
                    assert(cs[i as int] != cs[0]);
                }
                return Err(Error::NoConstructionFromNullPtr);
            }
            i = i + 1;
        }
        if only_edges {
            let v: Vec<Vec<Coord>> = Vec::new();
            proof {
                assert(crate::value::rings_rep(v@) =~= Seq::<Seq<CoordRep>>::empty());
            }
            GGeom::new_from_value(
                GeomData::Shape(ShapeData::MultiLineString(v)),
                self.clone_context(),
            )
        } else {
            let v: Vec<ShapeData> = Vec::new();
            proof {
                assert(shapes_rep(v@) =~= Seq::<ShapeRep>::empty());
            }
            GGeom::new_from_value(GeomData::Collection(v), self.clone_context())
        }
    }

    /// The discrete Fréchet distance over the vertex sequences: the best
    /// order-preserving coupling's worst pair, in scalar units, rounded
    /// down. The engine reports its failed status when either geometry
    /// has no vertex.
    pub fn frechet_distance(&self, other: &GGeom) -> (r: GResult<crate::scalar::Scalar>)
        ensures
            nonempty_rep(self@) && nonempty_rep(other@) ==> r == Ok::<
                crate::scalar::Scalar,
                Error,
            >(
                crate::scalar::Scalar {
                    units: crate::scalar::sqrt_floor(
                        crate::ops::frechet_sqdist(
                            geom_coords(self@),
                            geom_coords(other@),
                        ) as nat,
                    ) as i64,
                },
            ),
            !(nonempty_rep(self@) && nonempty_rep(other@)) ==> r == Err::<
                crate::scalar::Scalar,
                Error,
            >(Error::GeosError(PredicateType::Distance, 0)),
    {
        proof {
            use_type_invariant(self);
            use_type_invariant(other);
        }
        let va = crate::ops::vertices(&self.data);
        let vb = crate::ops::vertices(&other.data);
        proof {
            assert(crate::value::ring_rep(va@).len() == va@.len());
            assert(crate::value::ring_rep(vb@).len() == vb@.len());
        }
        if va.len() == 0 || vb.len() == 0 {
            match check_ret(0, PredicateType::Distance) {
                Ok(_) => Ok(crate::scalar::Scalar { units: 0 }),
                Err(e) => Err(e),
            }
        } else {
            proof {
                crate::ops::lemma_geom_coords_wf(self@);
                crate::ops::lemma_geom_coords_wf(other@);
            }
            let d = crate::ops::frechet_sqdist_exec(&va, &vb);
            let u = crate::scalar::isqrt(d as u128);
            proof {
                crate::scalar::lemma_sqrt_floor_bounds(d as nat);
                assert(crate::scalar::sqrt_floor(d as nat) <= 3_000_000_000_000)
                    by (nonlinear_arith)
                    requires
                        crate::scalar::sqrt_floor(d as nat) * crate::scalar::sqrt_floor(d as nat)
                            <= d as nat,
                        0 <= d,
                        d as nat <= 8_000_000_000_000_000_000_000_000nat,
                ;
            }
            match check_ret(1, PredicateType::Distance) {
                Ok(_) => Ok(crate::scalar::Scalar { units: u as i64 }),
                Err(e) => Err(e),
            }
        }
    }

    /// The discrete Fréchet distance with a densification fraction. The
    /// fraction must lie in `(0, 1]`; the engine's vertex-discrete metric
    /// is otherwise unchanged by it, so the value equals
    /// [`GGeom::frechet_distance`].
    pub fn frechet_distance_densify(&self, other: &GGeom, distance_frac: crate::scalar::Scalar)
        -> (r: GResult<crate::scalar::Scalar>)
        ensures
            !(0 < distance_frac.units <= 1000) ==> r == Err::<crate::scalar::Scalar, Error>(
                Error::GeosError(PredicateType::Distance, 2),
            ),
            (0 < distance_frac.units <= 1000) && nonempty_rep(self@) && nonempty_rep(other@)
                ==> r == Ok::<crate::scalar::Scalar, Error>(
                crate::scalar::Scalar {
                    units: crate::scalar::sqrt_floor(
                        crate::ops::frechet_sqdist(
                            geom_coords(self@),
                            geom_coords(other@),
                        ) as nat,
                    ) as i64,
                },
            ),
            (0 < distance_frac.units <= 1000) && !(nonempty_rep(self@) && nonempty_rep(other@))
                ==> r == Err::<crate::scalar::Scalar, Error>(
                Error::GeosError(PredicateType::Distance, 0),
            ),
    {
        if !(0 < distance_frac.units && distance_frac.units <= 1000) {
            match check_ret(2, PredicateType::Distance) {
                Ok(_) => Ok(crate::scalar::Scalar { units: 0 }),
                Err(e) => Err(e),
            }
        } else {
            self.frechet_distance(other)
        }
    }
}

/// The envelope of a geometry, as a geometry value: a point when
/// degenerate, otherwise the box ring, counterclockwise from its
/// lower-left corner.
pub open spec fn envelope_rep(g: GeomRep) -> GeomRep {
    let e = geom_env(g);
    if e.x0 == e.x1 && e.y0 == e.y1 {
        GeomRep::Shape(ShapeRep::Point(CoordRep { x: e.x0, y: e.y0 }))
    } else {
        GeomRep::Shape(
            ShapeRep::Polygon(
                seq![
                    seq![
                        CoordRep { x: e.x0, y: e.y0 },
                        CoordRep { x: e.x1, y: e.y0 },
                        CoordRep { x: e.x1, y: e.y1 },
                        CoordRep { x: e.x0, y: e.y1 },
                        CoordRep { x: e.x0, y: e.y0 },
                    ],
                ],
            ),
        )
    }
}

/// The envelope of a bounded nonempty vertex set has bounded corners.
pub proof fn lemma_env_coords_wf(cs: Seq<CoordRep>)
    requires
        cs.len() > 0,
        crate::ops::wf_coords(cs),
    ensures
        crate::value::wf_coord(
            CoordRep { x: crate::ops::env_of(cs).x0, y: crate::ops::env_of(cs).y0 },
        ),
        crate::value::wf_coord(
            CoordRep { x: crate::ops::env_of(cs).x1, y: crate::ops::env_of(cs).y1 },
        ),
    decreases cs.len(),
{
    if cs.len() <= 1 {
        assert(crate::value::wf_coord(cs[0]));
    } else {
        assert(crate::ops::wf_coords(cs.drop_last()));
        lemma_env_coords_wf(cs.drop_last());
        assert(crate::value::wf_coord(cs.last()));
    }
}

/// Intersecting keeps at most every component.
pub proof fn lemma_inter_comps_len(as_: Seq<ShapeRep>, bs: Seq<ShapeRep>)
    ensures
        inter_comps(as_, bs).len() <= as_.len(),
    decreases as_.len(),
{
    if as_.len() > 0 {
        lemma_inter_comps_len(as_.drop_last(), bs);
    }
}

/// Subtracting keeps at most every component.
pub proof fn lemma_diff_comps_len(as_: Seq<ShapeRep>, bs: Seq<ShapeRep>)
    ensures
        diff_comps(as_, bs).len() <= as_.len(),
    decreases as_.len(),
{
    if as_.len() > 0 {
        lemma_diff_comps_len(as_.drop_last(), bs);
    }
}

/// Deduplicating keeps at most every component.
pub proof fn lemma_dedup_comps_len(ss: Seq<ShapeRep>)
    ensures
        dedup_comps(ss).len() <= ss.len(),
    decreases ss.len(),
{
    if ss.len() > 0 {
        lemma_dedup_comps_len(ss.drop_last());
    }
}


/// Whether a vertex sequence holds at most one distinct site.
pub open spec fn single_site(cs: Seq<CoordRep>) -> bool {
    forall|i: int| 0 <= i < cs.len() ==> #[trigger] cs[i] == cs[0]
}

/// Whether a coordinate occurs in the sequence.
pub open spec fn has_coord(cs: Seq<CoordRep>, c: CoordRep) -> bool {
    exists|i: int| 0 <= i < cs.len() && #[trigger] cs[i] == c
}

/// The sequence with repeated coordinates kept once, first occurrence
/// first.
pub open spec fn dedup_coords(cs: Seq<CoordRep>) -> Seq<CoordRep>
    decreases cs.len(),
{
    if cs.len() == 0 {
        Seq::empty()
    } else {
        let rest = dedup_coords(cs.drop_last());
        if has_coord(cs.drop_last(), cs.last()) {
            rest
        } else {
            rest.push(cs.last())
        }
    }
}

/// Where a vertex snaps to: the first vertex of `bs` within the squared
/// tolerance, or the vertex itself.
pub open spec fn snap_coord(c: CoordRep, bs: Seq<CoordRep>, t2: int) -> CoordRep
    decreases bs.len(),
{
    if bs.len() == 0 {
        c
    } else if crate::ops::sqdist(c, bs[0]) <= t2 {
        bs[0]
    } else {
        snap_coord(c, bs.skip(1), t2)
    }
}

/// A vertex list snapped vertex by vertex.
pub open spec fn snap_ring(r: Seq<CoordRep>, bs: Seq<CoordRep>, t2: int) -> Seq<CoordRep> {
    r.map_values(|c: CoordRep| snap_coord(c, bs, t2))
}

/// A list of vertex lists snapped list by list.
pub open spec fn snap_rings(rs: Seq<Seq<CoordRep>>, bs: Seq<CoordRep>, t2: int) -> Seq<
    Seq<CoordRep>,
> {
    rs.map_values(|r: Seq<CoordRep>| snap_ring(r, bs, t2))
}

/// A list of polygons snapped polygon by polygon.
pub open spec fn snap_polys(ps: Seq<Seq<Seq<CoordRep>>>, bs: Seq<CoordRep>, t2: int) -> Seq<
    Seq<Seq<CoordRep>>,
> {
    ps.map_values(|p: Seq<Seq<CoordRep>>| snap_rings(p, bs, t2))
}

/// A shape with every vertex snapped.
pub open spec fn snap_shape(s: ShapeRep, bs: Seq<CoordRep>, t2: int) -> ShapeRep {
    match s {
        ShapeRep::Point(c) => ShapeRep::Point(snap_coord(c, bs, t2)),
        ShapeRep::LineString(r) => ShapeRep::LineString(snap_ring(r, bs, t2)),
        ShapeRep::LinearRing(r) => ShapeRep::LinearRing(snap_ring(r, bs, t2)),
        ShapeRep::Polygon(p) => ShapeRep::Polygon(snap_rings(p, bs, t2)),
        ShapeRep::MultiPoint(r) => ShapeRep::MultiPoint(snap_ring(r, bs, t2)),
        ShapeRep::MultiLineString(rs) => ShapeRep::MultiLineString(snap_rings(rs, bs, t2)),
        ShapeRep::MultiPolygon(ps) => ShapeRep::MultiPolygon(snap_polys(ps, bs, t2)),
    }
}

/// A geometry with every vertex snapped.
pub open spec fn snap_geom(g: GeomRep, bs: Seq<CoordRep>, t2: int) -> GeomRep {
    match g {
        GeomRep::Shape(s) => GeomRep::Shape(snap_shape(s, bs, t2)),
        GeomRep::Collection(ss) => GeomRep::Collection(
            ss.map_values(|s: ShapeRep| snap_shape(s, bs, t2)),
        ),
    }
}

proof fn lemma_snap_coord_skip(c: CoordRep, bs: Seq<CoordRep>, t2: int, j: int)
    requires
        0 <= j <= bs.len(),
        forall|k: int| 0 <= k < j ==> crate::ops::sqdist(c, #[trigger] bs[k]) > t2,
    ensures
        snap_coord(c, bs, t2) == snap_coord(c, bs.skip(j), t2),
    decreases j,
{
    if j > 0 {
        lemma_snap_coord_skip(c, bs, t2, j - 1);
        let s = bs.skip(j - 1);
        assert(s[0] == bs[j - 1]);
        assert(crate::ops::sqdist(c, s[0]) > t2);
        assert(s.skip(1) =~= bs.skip(j));
    } else {
        assert(bs.skip(0) =~= bs);
    }
}

/// The snapped image of one vertex, exactly.
#[verifier::loop_isolation(false)]
fn snap_coord_exec(c: Coord, vb: &Vec<Coord>, t2: i128) -> (r: Coord)
    requires
        crate::value::wf_coord(c@),
        crate::ops::wf_coords(crate::value::ring_rep(vb@)),
    ensures
        r@ == snap_coord(c@, crate::value::ring_rep(vb@), t2 as int),
        crate::value::wf_coord(r@),
{
    let ghost rb = crate::value::ring_rep(vb@);
    let mut j: usize = 0;
    while j < vb.len()
        invariant
            0 <= j <= vb@.len(),
            forall|k: int| 0 <= k < j ==> crate::ops::sqdist(c@, #[trigger] rb[k]) > t2 as int,
        decreases vb@.len() - j,
    {
        proof {
            assert(rb[j as int] == vb@[j as int]@);
        }
        let d = crate::ops::sqdist_exec(c, vb[j]);
        if d <= t2 {
            proof {
                lemma_snap_coord_skip(c@, rb, t2 as int, j as int);
                assert(rb.skip(j as int)[0] == rb[j as int]);
            }
            return vb[j];
        }
        j = j + 1;
    }
    proof {
        lemma_snap_coord_skip(c@, rb, t2 as int, rb.len() as int);
        assert(rb.skip(rb.len() as int).len() == 0);
    }
    c
}

/// A vertex list snapped vertex by vertex, exactly.
#[verifier::loop_isolation(false)]
fn snap_ring_exec(v: &Vec<Coord>, vb: &Vec<Coord>, t2: i128) -> (r: Vec<Coord>)
    requires
        crate::ops::wf_coords(crate::value::ring_rep(v@)),
        crate::ops::wf_coords(crate::value::ring_rep(vb@)),
    ensures
        crate::value::ring_rep(r@) =~= snap_ring(
            crate::value::ring_rep(v@),
            crate::value::ring_rep(vb@),
            t2 as int,
        ),
        r@.len() == v@.len(),
        crate::ops::wf_coords(crate::value::ring_rep(r@)),
{
    let ghost rr = crate::value::ring_rep(v@);
    let ghost rb = crate::value::ring_rep(vb@);
    let mut out: Vec<Coord> = Vec::new();
    let mut i: usize = 0;
    while i < v.len()
        invariant
            0 <= i <= v@.len(),
            out@.len() == i,
            forall|j: int| 0 <= j < i ==> #[trigger] out@[j]@ == snap_coord(rr[j], rb, t2 as int),
            forall|j: int| 0 <= j < i ==> crate::value::wf_coord(#[trigger] out@[j]@),
        decreases v@.len() - i,
    {
        proof {
            assert(rr[i as int] == v@[i as int]@);
        }
        out.push(snap_coord_exec(v[i], vb, t2));
        i = i + 1;
    }
    out
}

/// A list of vertex lists snapped list by list, exactly.
#[verifier::loop_isolation(false)]
fn snap_rings_exec(v: &Vec<Vec<Coord>>, vb: &Vec<Coord>, t2: i128) -> (r: Vec<Vec<Coord>>)
    requires
        forall|i: int| 0 <= i < v@.len() ==> crate::ops::wf_coords(
            #[trigger] crate::value::rings_rep(v@)[i],
        ),
        crate::ops::wf_coords(crate::value::ring_rep(vb@)),
    ensures
        crate::value::rings_rep(r@) =~= snap_rings(
            crate::value::rings_rep(v@),
            crate::value::ring_rep(vb@),
            t2 as int,
        ),
        r@.len() == v@.len(),
        forall|i: int| 0 <= i < r@.len() ==> crate::ops::wf_coords(
            #[trigger] crate::value::rings_rep(r@)[i],
        ),
{
    let ghost rs = crate::value::rings_rep(v@);
    let ghost rb = crate::value::ring_rep(vb@);
    let mut out: Vec<Vec<Coord>> = Vec::new();
    let mut i: usize = 0;
    while i < v.len()
        invariant
            0 <= i <= v@.len(),
            out@.len() == i,
            forall|j: int| 0 <= j < i ==> crate::value::ring_rep(#[trigger] out@[j]@)
                == snap_ring(rs[j], rb, t2 as int),
            forall|j: int| 0 <= j < i ==> crate::ops::wf_coords(
                crate::value::ring_rep(#[trigger] out@[j]@),
            ),
        decreases v@.len() - i,
    {
        proof {
            assert(rs[i as int] == crate::value::ring_rep(v@[i as int]@));
        }
        out.push(snap_ring_exec(&v[i], vb, t2));
        i = i + 1;
    }
    proof {
        assert(crate::value::rings_rep(out@) =~= snap_rings(rs, rb, t2 as int));
    }
    out
}

/// A list of polygons snapped polygon by polygon, exactly.
#[verifier::loop_isolation(false)]
fn snap_polys_exec(v: &Vec<Vec<Vec<Coord>>>, vb: &Vec<Coord>, t2: i128) -> (r: Vec<
    Vec<Vec<Coord>>,
>)
    requires
        forall|i: int, j: int| 0 <= i < v@.len() && 0 <= j < (#[trigger] crate::value::polys_rep(
            v@,
        )[i]).len() ==> crate::ops::wf_coords(#[trigger] crate::value::polys_rep(v@)[i][j]),
        crate::ops::wf_coords(crate::value::ring_rep(vb@)),
    ensures
        crate::value::polys_rep(r@) =~= snap_polys(
            crate::value::polys_rep(v@),
            crate::value::ring_rep(vb@),
            t2 as int,
        ),
        r@.len() == v@.len(),
        forall|i: int, j: int| 0 <= i < r@.len() && 0 <= j < (#[trigger] crate::value::polys_rep(
            r@,
        )[i]).len() ==> crate::ops::wf_coords(#[trigger] crate::value::polys_rep(r@)[i][j]),
{
    let ghost ps = crate::value::polys_rep(v@);
    let ghost rb = crate::value::ring_rep(vb@);
    let mut out: Vec<Vec<Vec<Coord>>> = Vec::new();
    let mut i: usize = 0;
    while i < v.len()
        invariant
            0 <= i <= v@.len(),
            out@.len() == i,
            forall|j: int| 0 <= j < i ==> crate::value::rings_rep(#[trigger] out@[j]@)
                == snap_rings(ps[j], rb, t2 as int),
            forall|j: int, k: int| 0 <= j < i && 0 <= k < (
            #[trigger] crate::value::rings_rep(out@[j]@)).len() ==> crate::ops::wf_coords(
                #[trigger] crate::value::rings_rep(out@[j]@)[k],
            ),
        decreases v@.len() - i,
    {
        proof {
            assert(ps[i as int] == crate::value::rings_rep(v@[i as int]@));
            assert(forall|j: int| 0 <= j < ps[i as int].len() ==> crate::ops::wf_coords(
                #[trigger] ps[i as int][j],
            ));
        }
        out.push(snap_rings_exec(&v[i], vb, t2));
        i = i + 1;
    }
    proof {
        assert(crate::value::polys_rep(out@) =~= snap_polys(ps, rb, t2 as int));
        assert(forall|i: int, j: int| 0 <= i < out@.len() && 0 <= j < (
        #[trigger] crate::value::polys_rep(out@)[i]).len() ==> crate::ops::wf_coords(
            #[trigger] crate::value::polys_rep(out@)[i][j],
        ));
    }
    out
}

/// One shape with every vertex snapped, exactly.
fn snap_shape_exec(s: &ShapeData, vb: &Vec<Coord>, t2: i128) -> (r: ShapeData)
    requires
        crate::value::wf_shape(s@),
        crate::ops::wf_coords(crate::value::ring_rep(vb@)),
    ensures
        r@ == snap_shape(s@, crate::value::ring_rep(vb@), t2 as int),
        crate::value::wf_shape(r@),
{
    match s {
        ShapeData::Point(c) => ShapeData::Point(snap_coord_exec(*c, vb, t2)),
        ShapeData::LineString(l) => ShapeData::LineString(snap_ring_exec(l, vb, t2)),
        ShapeData::LinearRing(l) => ShapeData::LinearRing(snap_ring_exec(l, vb, t2)),
        ShapeData::Polygon(p) => ShapeData::Polygon(snap_rings_exec(p, vb, t2)),
        ShapeData::MultiPoint(l) => ShapeData::MultiPoint(snap_ring_exec(l, vb, t2)),
        ShapeData::MultiLineString(rs) => ShapeData::MultiLineString(snap_rings_exec(rs, vb, t2)),
        ShapeData::MultiPolygon(ps) => ShapeData::MultiPolygon(snap_polys_exec(ps, vb, t2)),
    }
}

/// The line endpoints contributed to the boundary of a multi line
/// string: first and last vertex of every open, nonempty line.
pub open spec fn line_endpoints(rs: Seq<Seq<CoordRep>>) -> Seq<CoordRep>
    decreases rs.len(),
{
    if rs.len() == 0 {
        Seq::empty()
    } else {
        let rest = line_endpoints(rs.drop_last());
        let l = rs.last();
        if l.len() == 0 || ring_closed(l) {
            rest
        } else {
            rest.push(l[0]).push(l[l.len() - 1])
        }
    }
}

/// All rings of a list of polygons, in order.
pub open spec fn all_poly_rings(ps: Seq<Seq<Seq<CoordRep>>>) -> Seq<Seq<CoordRep>>
    decreases ps.len(),
{
    if ps.len() == 0 {
        Seq::empty()
    } else {
        all_poly_rings(ps.drop_last()) + ps.last()
    }
}

/// The boundary of a geometry, where the engine defines one: points have
/// an empty boundary, a line its endpoints, an area its rings. On a
/// collection the engine reports its error sentinel.
pub open spec fn boundary_rep(g: GeomRep) -> Option<GeomRep> {
    match g {
        GeomRep::Shape(ShapeRep::Point(_)) => Some(
            GeomRep::Collection(Seq::empty()),
        ),
        GeomRep::Shape(ShapeRep::MultiPoint(_)) => Some(
            GeomRep::Collection(Seq::empty()),
        ),
        GeomRep::Shape(ShapeRep::LineString(r)) => Some(
            GeomRep::Shape(
                ShapeRep::MultiPoint(
                    if r.len() == 0 || ring_closed(r) {
                        Seq::empty()
                    } else {
                        seq![r[0], r[r.len() - 1]]
                    },
                ),
            ),
        ),
        GeomRep::Shape(ShapeRep::LinearRing(_)) => Some(
            GeomRep::Shape(ShapeRep::MultiPoint(Seq::empty())),
        ),
        GeomRep::Shape(ShapeRep::Polygon(p)) => Some(
            GeomRep::Shape(ShapeRep::MultiLineString(p)),
        ),
        GeomRep::Shape(ShapeRep::MultiLineString(rs)) => Some(
            GeomRep::Shape(ShapeRep::MultiPoint(line_endpoints(rs))),
        ),
        GeomRep::Shape(ShapeRep::MultiPolygon(ps)) => Some(
            GeomRep::Shape(ShapeRep::MultiLineString(all_poly_rings(ps))),
        ),
        GeomRep::Collection(_) => None,
    }
}

impl GGeom {
    /// The geometry buffered by `width` in this engine's envelope
    /// algebra: its bounding box grown (or shrunk, for a negative width)
    /// by the width on every side, as a polygon. An over-shrunk or empty
    /// geometry buffers to the empty polygon; a box pushed outside the
    /// engine's coordinate bounds makes it hand back null.
    pub fn buffer(&self, width: crate::scalar::Scalar, quadsegs: i32) -> (r: GResult<GGeom>)
        requires
            quadsegs > 0,
        ensures
            ({
                let v = buffer_rep(self@, width.units as int);
                &&& wf_geom(v) ==> (r matches Ok(g) && g@ == v && g.spec_context()
                    == self.spec_context())
                &&& !wf_geom(v) ==> r == Err::<GGeom, Error>(Error::NoConstructionFromNullPtr)
            }),
    {
        proof {
            use_type_invariant(self);
        }
        let empty_poly = || -> (e: GeomData)
            ensures
                e@ == GeomRep::Shape(ShapeRep::Polygon(seq![Seq::<CoordRep>::empty()])),
            {
                let inner: Vec<Coord> = Vec::new();
                proof {
                    assert(crate::value::ring_rep(inner@) =~= Seq::<CoordRep>::empty());
                }
                let ghost irep = crate::value::ring_rep(inner@);
                let mut rings: Vec<Vec<Coord>> = Vec::new();
                rings.push(inner);
                proof {
                    assert(crate::value::rings_rep(rings@) =~= seq![irep]);
                }
                GeomData::Shape(ShapeData::Polygon(rings))
            };
        match geom_box(&self.data) {
            None => GGeom::new_from_value(empty_poly(), self.clone_context()),
            Some((lo, hi)) => {
                let w = width.units as i128;
                let nx0 = (lo.x as i128) - w;
                let ny0 = (lo.y as i128) - w;
                let nx1 = (hi.x as i128) + w;
                let ny1 = (hi.y as i128) + w;
                if nx0 > nx1 || ny0 > ny1 {
                    GGeom::new_from_value(empty_poly(), self.clone_context())
                } else {
                    let limit = crate::value::COORD_LIMIT as i128;
                    proof {
                        let wi = width.units as int;
                        let e = geom_env(self@);
                        assert(buffer_rep(self@, wi) == GeomRep::Shape(
                            ShapeRep::Polygon(
                                seq![
                                    seq![
                                        CoordRep { x: e.x0 - wi, y: e.y0 - wi },
                                        CoordRep { x: e.x1 + wi, y: e.y0 - wi },
                                        CoordRep { x: e.x1 + wi, y: e.y1 + wi },
                                        CoordRep { x: e.x0 - wi, y: e.y1 + wi },
                                        CoordRep { x: e.x0 - wi, y: e.y0 - wi },
                                    ],
                                ],
                            ),
                        ));
                    }
                    if -limit <= nx0 && nx1 <= limit && -limit <= ny0 && ny1 <= limit {
                        let mut ring: Vec<Coord> = Vec::new();
                        let a = Coord { x: nx0 as i64, y: ny0 as i64 };
                        let b = Coord { x: nx1 as i64, y: ny0 as i64 };
                        let c = Coord { x: nx1 as i64, y: ny1 as i64 };
                        let d = Coord { x: nx0 as i64, y: ny1 as i64 };
                        ring.push(a);
                        ring.push(b);
                        ring.push(c);
                        ring.push(d);
                        ring.push(a);
                        let ghost ringrep = crate::value::ring_rep(ring@);
                        let mut rings: Vec<Vec<Coord>> = Vec::new();
                        rings.push(ring);
                        proof {
                            assert(ringrep =~= seq![
                                CoordRep { x: nx0 as int, y: ny0 as int },
                                CoordRep { x: nx1 as int, y: ny0 as int },
                                CoordRep { x: nx1 as int, y: ny1 as int },
                                CoordRep { x: nx0 as int, y: ny1 as int },
                                CoordRep { x: nx0 as int, y: ny0 as int },
                            ]);
                            assert(crate::value::rings_rep(rings@) =~= seq![ringrep]);
                            assert(ringrep[0] == CoordRep { x: nx0 as int, y: ny0 as int });
                            assert(ringrep[1] == CoordRep { x: nx1 as int, y: ny0 as int });
                            assert(ringrep[2] == CoordRep { x: nx1 as int, y: ny1 as int });
                            assert(ringrep[3] == CoordRep { x: nx0 as int, y: ny1 as int });
                            assert(ringrep[4] == CoordRep { x: nx0 as int, y: ny0 as int });
                            assert(crate::value::wf_ring(ringrep));
                        }
                        GGeom::new_from_value(
                            GeomData::Shape(ShapeData::Polygon(rings)),
                            self.clone_context(),
                        )
                    } else {
                        proof {
                            let wi = width.units as int;
                            let v = buffer_rep(self@, wi);
                            let vring = v->Shape_0->Polygon_0[0];
                            assert(vring[0] == CoordRep { x: nx0 as int, y: ny0 as int });
                            assert(vring[2] == CoordRep { x: nx1 as int, y: ny1 as int });
                            assert(!crate::value::wf_coord(vring[0]) || !crate::value::wf_coord(
                                vring[2],
                            ));
                            assert(!crate::value::wf_ring(v->Shape_0->Polygon_0[0]));
                            assert(!wf_geom(v));
                        }
                        Err(Error::NoConstructionFromNullPtr)
                    }
                }
            },
        }
    }

    /// The boundary of this geometry. The engine defines no boundary for
    /// a collection and hands back null there.
    #[verifier::loop_isolation(false)]
    pub fn boundary(&self) -> (r: GResult<GGeom>)
        ensures
            ({
                let b = boundary_rep(self@);
                &&& b is None ==> r == Err::<GGeom, Error>(Error::NoConstructionFromNullPtr)
                &&& b matches Some(v) ==> {
                    &&& wf_geom(v) ==> (r matches Ok(g) && g@ == v && g.spec_context()
                        == self.spec_context())
                    &&& !wf_geom(v) ==> r == Err::<GGeom, Error>(Error::NoConstructionFromNullPtr)
                }
            }),
    {
        proof {
            use_type_invariant(self);
        }
        match &self.data {
            GeomData::Collection(_) => Err(Error::NoConstructionFromNullPtr),
            GeomData::Shape(ShapeData::Point(_)) => {
                let v: Vec<ShapeData> = Vec::new();
                proof {
                    assert(shapes_rep(v@) =~= Seq::<ShapeRep>::empty());
                }
                GGeom::new_from_value(GeomData::Collection(v), self.clone_context())
            },
            GeomData::Shape(ShapeData::MultiPoint(_)) => {
                let v: Vec<ShapeData> = Vec::new();
                proof {
                    assert(shapes_rep(v@) =~= Seq::<ShapeRep>::empty());
                }
                GGeom::new_from_value(GeomData::Collection(v), self.clone_context())
            },
            GeomData::Shape(ShapeData::LinearRing(_)) => {
                let v: Vec<Coord> = Vec::new();
                proof {
                    assert(crate::value::ring_rep(v@) =~= Seq::<CoordRep>::empty());
                }
                GGeom::new_from_value(
                    GeomData::Shape(ShapeData::MultiPoint(v)),
                    self.clone_context(),
                )
            },
            GeomData::Shape(ShapeData::LineString(l)) => {
                let mut pts: Vec<Coord> = Vec::new();
                if !(l.len() == 0 || ring_closed_exec(l)) {
                    pts.push(l[0]);
                    pts.push(l[l.len() - 1]);
                    proof {
                        let rl = crate::value::ring_rep(l@);
                        assert(rl[0] == l@[0]@);
                        assert(rl[rl.len() - 1] == l@[l@.len() - 1]@);
                        assert(crate::value::ring_rep(pts@) =~= seq![rl[0], rl[rl.len() - 1]]);
                    }
                } else {
                    proof {
                        assert(crate::value::ring_rep(pts@) =~= Seq::<CoordRep>::empty());
                    }
                }
                GGeom::new_from_value(
                    GeomData::Shape(ShapeData::MultiPoint(pts)),
                    self.clone_context(),
                )
            },
            GeomData::Shape(ShapeData::Polygon(p)) => GGeom::new_from_value(
                GeomData::Shape(ShapeData::MultiLineString(crate::value::copy_rings(p))),
                self.clone_context(),
            ),
            GeomData::Shape(ShapeData::MultiLineString(v)) => {
                let ghost rs = crate::value::rings_rep(v@);
                let mut pts: Vec<Coord> = Vec::new();
                let mut i: usize = 0;
                while i < v.len()
                    invariant
                        0 <= i <= v@.len(),
                        crate::value::ring_rep(pts@) =~= line_endpoints(rs.take(i as int)),
                    decreases v@.len() - i,
                {
                    proof {
                        assert(rs[i as int] == crate::value::ring_rep(v@[i as int]@));
                        let t = rs.take(i as int + 1);
                        assert(t.drop_last() =~= rs.take(i as int));
                        assert(t.last() == rs[i as int]);
                    }
                    let l = &v[i];
                    if !(l.len() == 0 || ring_closed_exec(l)) {
                        let ghost prevp = pts@;
                        pts.push(l[0]);
                        pts.push(l[l.len() - 1]);
                        proof {
                            let rl = crate::value::ring_rep(l@);
                            assert(rl[0] == l@[0]@);
                            assert(rl[rl.len() - 1] == l@[l@.len() - 1]@);
                            assert(crate::value::ring_rep(pts@) =~= crate::value::ring_rep(
                                prevp,
                            ).push(rl[0]).push(rl[rl.len() - 1]));
                        }
                    }
                    i = i + 1;
                }
                proof {
                    assert(rs.take(v@.len() as int) =~= rs);
                }
                GGeom::new_from_value(
                    GeomData::Shape(ShapeData::MultiPoint(pts)),
                    self.clone_context(),
                )
            },
            GeomData::Shape(ShapeData::MultiPolygon(v)) => {
                let ghost ps = crate::value::polys_rep(v@);
                let mut rings: Vec<Vec<Coord>> = Vec::new();
                let mut i: usize = 0;
                while i < v.len()
                    invariant
                        0 <= i <= v@.len(),
                        crate::value::rings_rep(rings@) =~= all_poly_rings(ps.take(i as int)),
                    decreases v@.len() - i,
                {
                    proof {
                        assert(ps[i as int] == crate::value::rings_rep(v@[i as int]@));
                        let t = ps.take(i as int + 1);
                        assert(t.drop_last() =~= ps.take(i as int));
                        assert(t.last() == ps[i as int]);
                    }
                    let p = &v[i];
                    let mut j: usize = 0;
                    while j < p.len()
                        invariant
                            0 <= j <= p@.len(),
                            0 <= i < v@.len(),
                            p == &v@[i as int],
                            crate::value::rings_rep(rings@) =~= all_poly_rings(ps.take(i as int))
                                + ps[i as int].take(j as int),
                        decreases p@.len() - j,
                    {
                        let ghost prevr = rings@;
                        rings.push(crate::value::copy_ring(&p[j]));
                        proof {
                            assert(ps[i as int][j as int] == crate::value::ring_rep(
                                v@[i as int]@[j as int]@,
                            ));
                            assert(crate::value::rings_rep(rings@) =~= crate::value::rings_rep(
                                prevr,
                            ).push(ps[i as int][j as int]));
                            assert(ps[i as int].take(j as int + 1) =~= ps[i as int].take(
                                j as int,
                            ).push(ps[i as int][j as int]));
                        }
                        j = j + 1;
                    }
                    proof {
                        assert(ps[i as int].take(ps[i as int].len() as int) =~= ps[i as int]);
                    }
                    i = i + 1;
                }
                proof {
                    assert(ps.take(v@.len() as int) =~= ps);
                }
                GGeom::new_from_value(
                    GeomData::Shape(ShapeData::MultiLineString(rings)),
                    self.clone_context(),
                )
            },
        }
    }

    /// The unique vertices of this geometry, as a multi point, first
    /// occurrence first. More distinct vertices than the engine's member
    /// cap make it hand back null.
    #[verifier::loop_isolation(false)]
    #[verifier::rlimit(50)]
    pub fn extract_unique_points(&self) -> (r: GResult<GGeom>)
        ensures
            ({
                let d = dedup_coords(geom_coords(self@));
                &&& d.len() <= crate::value::CAP as int ==> (r matches Ok(g) && g@
                    == GeomRep::Shape(ShapeRep::MultiPoint(d)) && g.spec_context()
                    == self.spec_context())
                &&& d.len() > crate::value::CAP as int ==> r == Err::<GGeom, Error>(
                    Error::NoConstructionFromNullPtr,
                )
            }),
    {
        proof {
            use_type_invariant(self);
            crate::ops::lemma_geom_coords_wf(self@);
        }
        let vs = crate::ops::vertices(&self.data);
        let ghost cs = crate::value::ring_rep(vs@);
        let mut out: Vec<Coord> = Vec::new();
        let mut i: usize = 0;
        while i < vs.len()
            invariant
                0 <= i <= vs@.len(),
                crate::value::ring_rep(out@) =~= dedup_coords(cs.take(i as int)),
                forall|j: int| 0 <= j < out@.len() ==> crate::value::wf_coord(
                    #[trigger] crate::value::ring_rep(out@)[j],
                ),
            decreases vs@.len() - i,
        {
            let c = vs[i];
            proof {
                assert(cs[i as int] == vs@[i as int]@);
            }
            let mut seen = false;
            let mut j: usize = 0;
            while j < i
                invariant
                    0 <= j <= i <= vs@.len(),
                    c == vs@[i as int],
                    seen ==> has_coord(cs.take(i as int), cs[i as int]),
                    !seen ==> forall|k: int| 0 <= k < j ==> #[trigger] cs[k] != cs[i as int],
                decreases i - j,
            {
                let b = vs[j];
                proof {
                    assert(cs[j as int] == vs@[j as int]@);
                }
                if c.x == b.x && c.y == b.y {
                    proof {
                        assert(cs.take(i as int)[j as int] == cs[i as int]);
                    }
                    seen = true;
                }
                j = j + 1;
            }
            proof {
                let t = cs.take(i as int + 1);
                assert(t.drop_last() =~= cs.take(i as int));
                assert(t.last() == cs[i as int]);
                if !seen {
                    assert(forall|k: int| 0 <= k < i ==> #[trigger] cs.take(i as int)[k] == cs[k]);
                }
            }
            if !seen {
                let ghost prevout = out@;
                out.push(c);
                proof {
                    assert(crate::value::ring_rep(out@) =~= crate::value::ring_rep(prevout).push(
                        cs[i as int],
                    ));
                }
            }
            i = i + 1;
        }
        proof {
            assert(cs.take(vs@.len() as int) =~= cs);
        }
        GGeom::new_from_value(
            GeomData::Shape(ShapeData::MultiPoint(out)),
            self.clone_context(),
        )
    }

    /// A two-coordinate sequence realising the least vertex-to-vertex
    /// distance: one vertex of this geometry, then one of the other. An
    /// empty geometry gives the engine no pair to hand back: null.
    #[verifier::loop_isolation(false)]
    pub fn nearest_points(&self, other: &GGeom) -> (r: GResult<CoordSeq>)
        ensures
            nonempty_rep(self@) && nonempty_rep(other@) ==> (r matches Ok(s) && s@.len() == 2
                && crate::ops::sqdist(s@[0], s@[1]) == crate::ops::min_sqdist(
                geom_coords(self@),
                geom_coords(other@),
            ) && geom_coords(self@).contains(s@[0]) && geom_coords(other@).contains(s@[1])),
            !(nonempty_rep(self@) && nonempty_rep(other@)) ==> r == Err::<CoordSeq, Error>(
                Error::NoConstructionFromNullPtr,
            ),
    {
        proof {
            use_type_invariant(self);
            use_type_invariant(other);
            crate::ops::lemma_geom_coords_wf(self@);
            crate::ops::lemma_geom_coords_wf(other@);
        }
        let va = crate::ops::vertices(&self.data);
        let vb = crate::ops::vertices(&other.data);
        let ghost ra = crate::value::ring_rep(va@);
        let ghost rb = crate::value::ring_rep(vb@);
        proof {
            assert(ra.len() == va@.len());
            assert(rb.len() == vb@.len());
        }
        if va.len() == 0 || vb.len() == 0 {
            return Err(Error::NoConstructionFromNullPtr);
        }
        let mut best: i128 = 0;
        let mut pa = va[0];
        let mut pb = vb[0];
        let mut i: usize = 0;
        while i < va.len()
            invariant
                0 <= i <= va@.len(),
                0 < va@.len(),
                0 < vb@.len(),
                i > 0 ==> best == crate::ops::min_sqdist(ra.take(i as int), rb),
                i > 0 ==> crate::ops::sqdist(pa@, pb@) == best,
                i > 0 ==> ra.contains(pa@) && rb.contains(pb@),
            decreases va@.len() - i,
        {
            let a = va[i];
            proof {
                assert(ra[i as int] == va@[i as int]@);
            }
            let mut inner: i128 = 0;
            let mut qb = vb[0];
            let mut j: usize = 0;
            while j < vb.len()
                invariant
                    0 <= j <= vb@.len(),
                    0 <= i < va@.len(),
                    0 < vb@.len(),
                    a == va@[i as int],
                    j > 0 ==> inner == crate::ops::min_sqdist_to(ra[i as int], rb.take(j as int)),
                    j > 0 ==> crate::ops::sqdist(ra[i as int], qb@) == inner,
                    j > 0 ==> rb.contains(qb@),
                decreases vb@.len() - j,
            {
                proof {
                    assert(rb[j as int] == vb@[j as int]@);
                }
                let d = crate::ops::sqdist_exec(a, vb[j]);
                proof {
                    let t = rb.take(j as int + 1);
                    assert(t.drop_last() =~= rb.take(j as int));
                    assert(t.last() == rb[j as int]);
                }
                if j == 0 || d < inner {
                    inner = d;
                    qb = vb[j];
                }
                j = j + 1;
            }
            proof {
                assert(rb.take(vb@.len() as int) =~= rb);
                let t = ra.take(i as int + 1);
                assert(t.drop_last() =~= ra.take(i as int));
                assert(t.last() == ra[i as int]);
            }
            if i == 0 || inner < best {
                best = inner;
                pa = a;
                pb = qb;
                proof {
                    assert(ra.contains(ra[i as int]));
                }
            }
            i = i + 1;
        }
        proof {
            assert(ra.take(va@.len() as int) =~= ra);
        }
        let mut pair: Vec<Coord> = Vec::new();
        pair.push(pa);
        pair.push(pb);
        proof {
            assert(crate::value::ring_rep(pair@) =~= seq![pa@, pb@]);
            assert(crate::value::wf_ring(crate::value::ring_rep(pair@)));
        }
        match CoordSeq::new_from_coords(pair) {
            Ok(s) => Ok(s),
            Err(e) => Err(e),
        }
    }

    /// This geometry with every vertex snapped to the other geometry's
    /// first vertex within the tolerance, whatever the kind: the snapped
    /// geometry shares this geometry's context, and the sources are left
    /// untouched.
    #[verifier::loop_isolation(false)]
    pub fn snap(&self, other: &GGeom, tolerance: crate::scalar::Scalar) -> (r: GResult<GGeom>)
        ensures
            ({
                let t2 = (tolerance.units as int) * (tolerance.units as int);
                r matches Ok(g) && g@ == snap_geom(self@, geom_coords(other@), t2)
                    && g.spec_context() == self.spec_context()
            }),
    {
        proof {
            use_type_invariant(self);
            use_type_invariant(other);
            crate::ops::lemma_geom_coords_wf(other@);
        }
        proof {
            let u = tolerance.units as int;
            assert(0 <= u * u <= 0x4000_0000_0000_0000_0000_0000_0000_0000) by (nonlinear_arith)
                requires
                    -0x8000_0000_0000_0000 <= u <= 0x7fff_ffff_ffff_ffff,
            ;
        }
        let t2: i128 = (tolerance.units as i128) * (tolerance.units as i128);
        let vb = crate::ops::vertices(&other.data);
        match &self.data {
            GeomData::Shape(sh) => {
                let snapped = snap_shape_exec(sh, &vb, t2);
                GGeom::new_from_value(GeomData::Shape(snapped), self.clone_context())
            },
            GeomData::Collection(v) => {
                let ghost ss = shapes_rep(v@);
                let ghost rb = crate::value::ring_rep(vb@);
                let mut out: Vec<ShapeData> = Vec::new();
                let mut i: usize = 0;
                while i < v.len()
                    invariant
                        0 <= i <= v@.len(),
                        out@.len() == i,
                        forall|j: int| 0 <= j < i ==> #[trigger] out@[j]@ == snap_shape(
                            ss[j],
                            rb,
                            t2 as int,
                        ),
                        forall|j: int| 0 <= j < i ==> crate::value::wf_shape(
                            #[trigger] out@[j]@,
                        ),
                    decreases v@.len() - i,
                {
                    proof {
                        assert(ss[i as int] == v@[i as int]@);
                    }
                    out.push(snap_shape_exec(&v[i], &vb, t2));
                    i = i + 1;
                }
                proof {
                    assert(shapes_rep(out@) =~= ss.map_values(
                        |sr: ShapeRep| snap_shape(sr, rb, t2 as int),
                    ));
                }
                GGeom::new_from_value(GeomData::Collection(out), self.clone_context())
            },
        }
    }
}

/// The geometry buffered by `w`: the envelope grown by `w` on every side
/// as a polygon ring; the empty polygon when there is nothing to grow or
/// the box collapses.
pub open spec fn buffer_rep(g: GeomRep, w: int) -> GeomRep {
    if !nonempty_rep(g) {
        GeomRep::Shape(ShapeRep::Polygon(seq![Seq::<CoordRep>::empty()]))
    } else {
        let e = geom_env(g);
        let x0 = e.x0 - w;
        let y0 = e.y0 - w;
        let x1 = e.x1 + w;
        let y1 = e.y1 + w;
        if x0 > x1 || y0 > y1 {
            GeomRep::Shape(ShapeRep::Polygon(seq![Seq::<CoordRep>::empty()]))
        } else {
            GeomRep::Shape(
                ShapeRep::Polygon(
                    seq![
                        seq![
                            CoordRep { x: x0, y: y0 },
                            CoordRep { x: x1, y: y0 },
                            CoordRep { x: x1, y: y1 },
                            CoordRep { x: x0, y: y1 },
                            CoordRep { x: x0, y: y0 },
                        ],
                    ],
                ),
            )
        }
    }
}

impl PartialEq for GGeom {
    /// Equality through the engine's comparison: equal normal forms.
    fn eq(&self, other: &GGeom) -> (r: bool)
        ensures
            r == equals_rep(self@, other@),
    {
        match self.equals(other) {
            Ok(b) => b,
            Err(_) => false,
        }
    }
}

impl vstd::std_specs::cmp::PartialEqSpecImpl for GGeom {
    open spec fn obeys_eq_spec() -> bool {
        true
    }

    open spec fn eq_spec(&self, other: &GGeom) -> bool {
        equals_rep(self@, other@)
    }
}


impl GGeom {
    /// This geometry in the engine's binary form: the framed byte
    /// sequence of its value. This engine's writer always produces a
    /// buffer, so the absent case of the option never occurs.
    pub fn to_wkb(&self) -> (r: Option<Vec<u8>>)
        ensures
            r matches Some(b) && b@ == crate::wkb::enc_geom(self@),
    {
        Some(crate::wkb::enc_geom_exec(&self.data))
    }

    /// This geometry in hexadecimal text form: the binary form, two
    /// digits per byte. This engine's writer always produces a buffer.
    pub fn to_hex(&self) -> (r: Option<Vec<u8>>)
        ensures
            r matches Some(h) && h@ == crate::wkb::hex_of(crate::wkb::enc_geom(self@)),
    {
        let b = crate::wkb::enc_geom_exec(&self.data);
        Some(crate::wkb::hex_of_exec(&b))
    }

    /// Read a geometry from the engine's binary form. Construction
    /// succeeds exactly when the bytes decode as one whole geometry
    /// within the engine's bounds; anything else is the engine's null.
    pub fn new_from_wkb(wkb: &[u8]) -> (r: GResult<GGeom>)
        ensures
            ({
                let d = crate::wkb::dec_geom(wkb@, 0);
                &&& d is None ==> r == Err::<GGeom, Error>(Error::NoConstructionFromNullPtr)
                &&& d matches Some((v, end)) ==> {
                    &&& (end == wkb@.len() && wf_geom(v)) ==> (r matches Ok(g) && g@ == v)
                    &&& !(end == wkb@.len() && wf_geom(v)) ==> r == Err::<GGeom, Error>(
                        Error::NoConstructionFromNullPtr,
                    )
                }
            }),
    {
        match GContextHandle::init() {
            Ok(context) => {
                let buf = vstd::slice::slice_to_vec(wkb);
                match crate::wkb::dec_geom_exec(&buf, 0) {
                    Some((data, end)) => {
                        if end == buf.len() {
                            GGeom::new_from_value(data, Arc::new(context))
                        } else {
                            Err(Error::NoConstructionFromNullPtr)
                        }
                    },
                    None => Err(Error::NoConstructionFromNullPtr),
                }
            },
            Err(e) => Err(e),
        }
    }

    /// Read a geometry from hexadecimal text: digits to bytes, then the
    /// binary reader. A stray character, an odd length, or bytes that do
    /// not decode are the engine's null.
    pub fn new_from_hex(hex: &[u8]) -> (r: GResult<GGeom>)
        ensures
            ({
                let u = crate::wkb::unhex(hex@);
                &&& u is None ==> r == Err::<GGeom, Error>(Error::NoConstructionFromNullPtr)
                &&& u matches Some(bytes) ==> {
                    let d = crate::wkb::dec_geom(bytes, 0);
                    &&& d is None ==> r == Err::<GGeom, Error>(Error::NoConstructionFromNullPtr)
                    &&& d matches Some((v, end)) ==> {
                        &&& (end == bytes.len() && wf_geom(v)) ==> (r matches Ok(g) && g@ == v)
                        &&& !(end == bytes.len() && wf_geom(v)) ==> r == Err::<GGeom, Error>(
                            Error::NoConstructionFromNullPtr,
                        )
                    }
                }
            }),
    {
        let buf = vstd::slice::slice_to_vec(hex);
        match crate::wkb::unhex_exec(&buf) {
            Some(bytes) => {
                match GContextHandle::init() {
                    Ok(context) => {
                        match crate::wkb::dec_geom_exec(&bytes, 0) {
                            Some((data, end)) => {
                                if end == bytes.len() {
                                    GGeom::new_from_value(data, Arc::new(context))
                                } else {
                                    Err(Error::NoConstructionFromNullPtr)
                                }
                            },
                            None => Err(Error::NoConstructionFromNullPtr),
                        }
                    },
                    Err(e) => Err(e),
                }
            },
            None => Err(Error::NoConstructionFromNullPtr),
        }
    }
}


impl GGeom {
    /// This geometry as text, with the writer's default three fraction
    /// digits per ordinate.
    pub fn to_wkt(&self) -> (r: String)
        ensures
            r@ == crate::wkt::geom_wkt(self@, 3).map_values(|x: u8| x as char),
    {
        proof {
            use_type_invariant(self);
        }
        let b = crate::wkt::geom_wkt_exec(&self.data, 3);
        crate::wkt::bytes_to_string(&b)
    }

    /// This geometry as text under a rounding precision: the fraction is
    /// cut to that many digits, at most the writer's three; absent, the
    /// writer's default is used.
    pub fn to_wkt_precision(&self, precision: Option<u32>) -> (r: String)
        ensures
            ({
                let d: nat = match precision {
                    Some(p) => if p >= 3 {
                        3nat
                    } else {
                        p as nat
                    },
                    None => 3nat,
                };
                r@ == crate::wkt::geom_wkt(self@, d).map_values(|x: u8| x as char)
            }),
    {
        proof {
            use_type_invariant(self);
        }
        let d: usize = match precision {
            Some(p) => if p >= 3 {
                3
            } else {
                p as usize
            },
            None => 3,
        };
        let b = crate::wkt::geom_wkt_exec(&self.data, d);
        crate::wkt::bytes_to_string(&b)
    }

    /// Read a geometry from text. What a text parses to is stated exactly
    /// by [`crate::wkt::wkt_parse`]: a kind keyword, one space, `EMPTY` or
    /// a parenthesised coordinate list, up to three fraction digits per
    /// ordinate. A text that does not parse, or parses outside the
    /// engine's bounds, is the engine's null; construction is atomic, so
    /// no partial object ever exists.
    pub fn new_from_wkt(wkt: &str) -> (r: GResult<GGeom>)
        ensures
            ({
                let d = crate::wkt::wkt_parse(wkt.spec_bytes());
                &&& d is None ==> r == Err::<GGeom, Error>(Error::NoConstructionFromNullPtr)
                &&& d matches Some(v) ==> {
                    &&& wf_geom(v) ==> (r matches Ok(g) && g@ == v)
                    &&& !wf_geom(v) ==> r == Err::<GGeom, Error>(Error::NoConstructionFromNullPtr)
                }
            }),
    {
        match GContextHandle::init() {
            Ok(context_handle) => {
                let bytes = wkt.as_bytes_vec();
                match crate::wkt::parse_geom(&bytes) {
                    Some(data) => {
                        match GGeom::new_from_value(data, Arc::new(context_handle)) {
                            Ok(g) => {
                                proof {
                                    use_type_invariant(&g);
                                }
                                Ok(g)
                            },
                            Err(e) => Err(e),
                        }
                    },
                    None => Err(Error::NoConstructionFromNullPtr),
                }
            },
            Err(e) => Err(e),
        }
    }
}

} // verus!
