//! The engine's numeric core: vertex flattening, signed ring areas,
//! envelopes, and vertex-to-vertex distances.
//!
//! Every operation is stated against a recursive spec function over the
//! geometry's model and computed by a loop whose invariant mirrors that
//! recursion. Binary predicates and distances work on the geometry's
//! vertex set and envelope (its axis-aligned bounding box); areas are the
//! exact shoelace sums of the polygon rings.

use vstd::prelude::*;
use crate::value::{
    Coord, CoordRep, GeomData, GeomRep, ShapeData, ShapeRep, CAP, COORD_LIMIT, polys_rep,
    ring_rep, rings_rep, shapes_rep, wf_coord, wf_geom, wf_poly, wf_ring, wf_rings, wf_shape,
};

verus! {

/// All vertices of a list of vertex lists, in order.
pub open spec fn rings_coords(rs: Seq<Seq<CoordRep>>) -> Seq<CoordRep>
    decreases rs.len(),
{
    if rs.len() == 0 {
        Seq::empty()
    } else {
        rings_coords(rs.drop_last()) + rs.last()
    }
}

/// All vertices of a list of polygons, in order.
pub open spec fn polys_coords(ps: Seq<Seq<Seq<CoordRep>>>) -> Seq<CoordRep>
    decreases ps.len(),
{
    if ps.len() == 0 {
        Seq::empty()
    } else {
        polys_coords(ps.drop_last()) + rings_coords(ps.last())
    }
}

/// All vertices of a shape, in order.
pub open spec fn shape_coords(s: ShapeRep) -> Seq<CoordRep> {
    match s {
        ShapeRep::Point(c) => seq![c],
        ShapeRep::LineString(r) => r,
        ShapeRep::LinearRing(r) => r,
        ShapeRep::Polygon(p) => rings_coords(p),
        ShapeRep::MultiPoint(r) => r,
        ShapeRep::MultiLineString(rs) => rings_coords(rs),
        ShapeRep::MultiPolygon(ps) => polys_coords(ps),
    }
}

/// All vertices of a list of shapes, in order.
pub open spec fn shapes_coords(ss: Seq<ShapeRep>) -> Seq<CoordRep>
    decreases ss.len(),
{
    if ss.len() == 0 {
        Seq::empty()
    } else {
        shapes_coords(ss.drop_last()) + shape_coords(ss.last())
    }
}

/// All vertices of a geometry, in order.
pub open spec fn geom_coords(g: GeomRep) -> Seq<CoordRep> {
    match g {
        GeomRep::Shape(s) => shape_coords(s),
        GeomRep::Collection(ss) => shapes_coords(ss),
    }
}

/// Every coordinate of the sequence is within the engine's bounds.
pub open spec fn wf_coords(cs: Seq<CoordRep>) -> bool {
    forall|i: int| 0 <= i < cs.len() ==> wf_coord(#[trigger] cs[i])
}

proof fn lemma_rings_coords_wf(rs: Seq<Seq<CoordRep>>)
    requires
        forall|i: int| 0 <= i < rs.len() ==> wf_ring(#[trigger] rs[i]),
    ensures
        wf_coords(rings_coords(rs)),
    decreases rs.len(),
{
    if rs.len() > 0 {
        lemma_rings_coords_wf(rs.drop_last());
    }
}

proof fn lemma_polys_coords_wf(ps: Seq<Seq<Seq<CoordRep>>>)
    requires
        forall|i: int| 0 <= i < ps.len() ==> wf_rings(#[trigger] ps[i]),
    ensures
        wf_coords(polys_coords(ps)),
    decreases ps.len(),
{
    if ps.len() > 0 {
        lemma_polys_coords_wf(ps.drop_last());
        lemma_rings_coords_wf(ps.last());
    }
}

proof fn lemma_shape_coords_wf(s: ShapeRep)
    requires
        wf_shape(s),
    ensures
        wf_coords(shape_coords(s)),
{
    match s {
        ShapeRep::Polygon(p) => lemma_rings_coords_wf(p),
        ShapeRep::MultiLineString(rs) => lemma_rings_coords_wf(rs),
        ShapeRep::MultiPolygon(ps) => {
            assert(forall|i: int| 0 <= i < ps.len() ==> wf_rings(#[trigger] ps[i]));
            lemma_polys_coords_wf(ps);
        },
        _ => {},
    }
}

proof fn lemma_shapes_coords_wf(ss: Seq<ShapeRep>)
    requires
        forall|i: int| 0 <= i < ss.len() ==> wf_shape(#[trigger] ss[i]),
    ensures
        wf_coords(shapes_coords(ss)),
    decreases ss.len(),
{
    if ss.len() > 0 {
        lemma_shapes_coords_wf(ss.drop_last());
        lemma_shape_coords_wf(ss.last());
    }
}

/// A well-formed geometry has only well-formed vertices.
pub proof fn lemma_geom_coords_wf(g: GeomRep)
    requires
        wf_geom(g),
    ensures
        wf_coords(geom_coords(g)),
{
    match g {
        GeomRep::Shape(s) => lemma_shape_coords_wf(s),
        GeomRep::Collection(ss) => lemma_shapes_coords_wf(ss),
    }
}

/// Push every coordinate of `v` onto `out`.
#[verifier::loop_isolation(false)]
fn push_ring(out: &mut Vec<Coord>, v: &Vec<Coord>)
    ensures
        ring_rep(final(out)@) == ring_rep(old(out)@) + ring_rep(v@),
{
    let mut i: usize = 0;
    while i < v.len()
        invariant
            0 <= i <= v@.len(),
            ring_rep(out@) == ring_rep(old(out)@) + ring_rep(v@.take(i as int)),
        decreases v@.len() - i,
    {
        let c = v[i];
        let ghost prev = out@;
        out.push(c);
        proof {
            assert(out@ == prev.push(c));
            assert(ring_rep(prev.push(c)) =~= ring_rep(prev).push(c@));
            assert(v@.take(i as int + 1) =~= v@.take(i as int).push(v@[i as int]));
            assert(ring_rep(v@.take(i as int).push(v@[i as int])) =~= ring_rep(
                v@.take(i as int),
            ).push(v@[i as int]@));
            assert(ring_rep(out@) =~= ring_rep(old(out)@) + ring_rep(v@.take(i as int + 1)));
        }
        i = i + 1;
    }
    proof {
        assert(v@.take(v@.len() as int) =~= v@);
    }
}

/// Push every coordinate of every vertex list of `v` onto `out`.
#[verifier::loop_isolation(false)]
fn push_rings(out: &mut Vec<Coord>, v: &Vec<Vec<Coord>>)
    ensures
        ring_rep(final(out)@) == ring_rep(old(out)@) + rings_coords(rings_rep(v@)),
{
    let mut i: usize = 0;
    while i < v.len()
        invariant
            0 <= i <= v@.len(),
            ring_rep(out@) == ring_rep(old(out)@) + rings_coords(rings_rep(v@.take(i as int))),
        decreases v@.len() - i,
    {
        push_ring(out, &v[i]);
        proof {
            let t = rings_rep(v@.take(i as int + 1));
            assert(t.drop_last() =~= rings_rep(v@.take(i as int)));
            assert(t.last() == ring_rep(v@[i as int]@));
            assert(ring_rep(out@) =~= ring_rep(old(out)@) + rings_coords(t));
        }
        i = i + 1;
    }
    proof {
        assert(v@.take(v@.len() as int) =~= v@);
    }
}

/// Push every coordinate of every polygon of `v` onto `out`.
#[verifier::loop_isolation(false)]
fn push_polys(out: &mut Vec<Coord>, v: &Vec<Vec<Vec<Coord>>>)
    ensures
        ring_rep(final(out)@) == ring_rep(old(out)@) + polys_coords(polys_rep(v@)),
{
    let mut i: usize = 0;
    while i < v.len()
        invariant
            0 <= i <= v@.len(),
            ring_rep(out@) == ring_rep(old(out)@) + polys_coords(polys_rep(v@.take(i as int))),
        decreases v@.len() - i,
    {
        push_rings(out, &v[i]);
        proof {
            let t = polys_rep(v@.take(i as int + 1));
            assert(t.drop_last() =~= polys_rep(v@.take(i as int)));
            assert(t.last() == rings_rep(v@[i as int]@));
            assert(ring_rep(out@) =~= ring_rep(old(out)@) + polys_coords(t));
        }
        i = i + 1;
    }
    proof {
        assert(v@.take(v@.len() as int) =~= v@);
    }
}

/// Push every coordinate of a shape onto `out`.
fn push_shape(out: &mut Vec<Coord>, s: &ShapeData)
    ensures
        ring_rep(final(out)@) == ring_rep(old(out)@) + shape_coords(s@),
{
    match s {
        ShapeData::Point(c) => {
            out.push(*c);
            proof {
                assert(ring_rep(out@) =~= ring_rep(old(out)@) + shape_coords(s@));
            }
        },
        ShapeData::LineString(v) => push_ring(out, v),
        ShapeData::LinearRing(v) => push_ring(out, v),
        ShapeData::Polygon(v) => push_rings(out, v),
        ShapeData::MultiPoint(v) => push_ring(out, v),
        ShapeData::MultiLineString(v) => push_rings(out, v),
        ShapeData::MultiPolygon(v) => push_polys(out, v),
    }
}

/// All vertices of a geometry value, in order.
#[verifier::loop_isolation(false)]
pub fn vertices(g: &GeomData) -> (r: Vec<Coord>)
    ensures
        ring_rep(r@) == geom_coords(g@),
{
    let mut out: Vec<Coord> = Vec::new();
    proof {
        assert(ring_rep(out@) =~= Seq::<CoordRep>::empty());
    }
    match g {
        GeomData::Shape(s) => {
            push_shape(&mut out, s);
            proof {
                assert(ring_rep(out@) =~= geom_coords(g@));
            }
            out
        },
        GeomData::Collection(v) => {
            let mut i: usize = 0;
            while i < v.len()
                invariant
                    0 <= i <= v@.len(),
                    ring_rep(out@) == shapes_coords(shapes_rep(v@.take(i as int))),
                decreases v@.len() - i,
            {
                push_shape(&mut out, &v[i]);
                proof {
                    let t = shapes_rep(v@.take(i as int + 1));
                    assert(t.drop_last() =~= shapes_rep(v@.take(i as int)));
                    assert(t.last() == v@[i as int]@);
                    assert(ring_rep(out@) =~= shapes_coords(t));
                }
                i = i + 1;
            }
            proof {
                assert(v@.take(v@.len() as int) =~= v@);
            }
            out
        },
    }
}

/// Twice the signed area contribution of one edge.
pub open spec fn cross(a: CoordRep, b: CoordRep) -> int {
    a.x * b.y - b.x * a.y
}

/// Twice the signed area swept by the edges of a vertex list.
pub open spec fn shoelace(r: Seq<CoordRep>) -> int
    decreases r.len(),
{
    if r.len() < 2 {
        0
    } else {
        shoelace(r.drop_last()) + cross(r[r.len() - 2], r[r.len() - 1])
    }
}

/// Edge contributions of bounded coordinates are bounded.
pub proof fn lemma_cross_bound(a: CoordRep, b: CoordRep)
    requires
        wf_coord(a),
        wf_coord(b),
    ensures
        -2_000_000_000_000_000_000_000_000 <= cross(a, b) <= 2_000_000_000_000_000_000_000_000,
{
    assert(-2_000_000_000_000_000_000_000_000 <= a.x * b.y - b.x * a.y
        <= 2_000_000_000_000_000_000_000_000) by (nonlinear_arith)
        requires
            -(COORD_LIMIT as int) <= a.x <= COORD_LIMIT as int,
            -(COORD_LIMIT as int) <= a.y <= COORD_LIMIT as int,
            -(COORD_LIMIT as int) <= b.x <= COORD_LIMIT as int,
            -(COORD_LIMIT as int) <= b.y <= COORD_LIMIT as int,
            COORD_LIMIT == 1_000_000_000_000i64,
    ;
}

/// The shoelace sum of a bounded vertex list is bounded.
pub proof fn lemma_shoelace_bound(r: Seq<CoordRep>)
    requires
        wf_coords(r),
    ensures
        -(r.len() as int) * 2_000_000_000_000_000_000_000_000 <= shoelace(r) <= (r.len() as int)
            * 2_000_000_000_000_000_000_000_000,
    decreases r.len(),
{
    if r.len() < 2 {
        assert(-(r.len() as int) * 2_000_000_000_000_000_000_000_000 <= 0 <= (r.len() as int)
            * 2_000_000_000_000_000_000_000_000) by (nonlinear_arith);
    } else {
        assert(wf_coords(r.drop_last()));
        lemma_shoelace_bound(r.drop_last());
        lemma_cross_bound(r[r.len() - 2], r[r.len() - 1]);
        assert(-((r.len() - 1) as int) * 2_000_000_000_000_000_000_000_000
            - 2_000_000_000_000_000_000_000_000 == -(r.len() as int)
            * 2_000_000_000_000_000_000_000_000) by (nonlinear_arith);
        assert(((r.len() - 1) as int) * 2_000_000_000_000_000_000_000_000
            + 2_000_000_000_000_000_000_000_000 == (r.len() as int)
            * 2_000_000_000_000_000_000_000_000) by (nonlinear_arith);
    }
}

/// The shoelace sum of a vertex list, computed exactly.
#[verifier::loop_isolation(false)]
pub fn ring_shoelace(v: &Vec<Coord>) -> (r: i128)
    requires
        wf_ring(ring_rep(v@)),
    ensures
        r == shoelace(ring_rep(v@)),
        -2_000_000_000_000_000_000_000_000_000 <= r <= 2_000_000_000_000_000_000_000_000_000,
{
    let ghost rr = ring_rep(v@);
    let mut acc: i128 = 0;
    if v.len() < 2 {
        return 0;
    }
    let mut i: usize = 1;
    while i < v.len()
        invariant
            1 <= i <= v@.len(),
            2 <= v@.len(),
            acc == shoelace(rr.take(i as int)),
            -(i as int) * 2_000_000_000_000_000_000_000_000 <= acc <= (i as int)
                * 2_000_000_000_000_000_000_000_000,
        decreases v@.len() - i,
    {
        let a = v[i - 1];
        let b = v[i];
        proof {
            assert(rr[i - 1 as int] == v@[i - 1 as int]@);
            assert(rr[i as int] == v@[i as int]@);
            assert(wf_coord(rr[i - 1 as int]));
            assert(wf_coord(rr[i as int]));
            lemma_cross_bound(rr[i - 1 as int], rr[i as int]);
            assert(-0x1_0000_0000_0000_0000_0000_0000i128 < (a.x as int) * (b.y as int)
                < 0x1_0000_0000_0000_0000_0000_0000i128) by (nonlinear_arith)
                requires
                    -1_000_000_000_000 <= a.x <= 1_000_000_000_000,
                    -1_000_000_000_000 <= b.y <= 1_000_000_000_000,
            ;
            assert(-0x1_0000_0000_0000_0000_0000_0000i128 < (b.x as int) * (a.y as int)
                < 0x1_0000_0000_0000_0000_0000_0000i128) by (nonlinear_arith)
                requires
                    -1_000_000_000_000 <= b.x <= 1_000_000_000_000,
                    -1_000_000_000_000 <= a.y <= 1_000_000_000_000,
            ;
        }
        let term: i128 = (a.x as i128) * (b.y as i128) - (b.x as i128) * (a.y as i128);
        proof {
            assert(term == cross(rr[i - 1 as int], rr[i as int]));
            assert((i as int) * 2_000_000_000_000_000_000_000_000
                + 2_000_000_000_000_000_000_000_000 == (i as int + 1)
                * 2_000_000_000_000_000_000_000_000) by (nonlinear_arith);
            assert((i as int + 1) * 2_000_000_000_000_000_000_000_000
                <= 2_000_000_000_000_000_000_000_000_000) by (nonlinear_arith)
                requires
                    i as int + 1 <= CAP as int,
                    CAP == 1000usize,
            ;
        }
        acc = acc + term;
        proof {
            let t = rr.take(i as int + 1);
            assert(t.drop_last() =~= rr.take(i as int));
            assert(t[t.len() - 2] == rr[i - 1 as int]);
            assert(t[t.len() - 1] == rr[i as int]);
        }
        i = i + 1;
    }
    proof {
        assert(rr.take(v@.len() as int) =~= rr);
        assert((v@.len() as int) * 2_000_000_000_000_000_000_000_000
            <= 2_000_000_000_000_000_000_000_000_000) by (nonlinear_arith)
            requires
                v@.len() <= CAP as int,
                CAP == 1000usize,
        ;
    }
    acc
}


/// Absolute value of an integer.
pub open spec fn abs_int(x: int) -> int {
    if x < 0 {
        -x
    } else {
        x
    }
}

/// Twice the enclosed area of one ring: the shoelace sum, made positive.
pub open spec fn ring_area2(r: Seq<CoordRep>) -> int {
    abs_int(shoelace(r))
}

/// Sum of twice the ring areas of a list of rings.
pub open spec fn sum_ring_area2(rs: Seq<Seq<CoordRep>>) -> int
    decreases rs.len(),
{
    if rs.len() == 0 {
        0
    } else {
        sum_ring_area2(rs.drop_last()) + ring_area2(rs.last())
    }
}

/// Twice the area of a polygon: its exterior ring, less its holes.
pub open spec fn poly_area2(p: Seq<Seq<CoordRep>>) -> int
    recommends
        p.len() >= 1,
{
    ring_area2(p[0]) - sum_ring_area2(p.skip(1))
}

/// Sum of twice the polygon areas of a list of polygons.
pub open spec fn sum_poly_area2(ps: Seq<Seq<Seq<CoordRep>>>) -> int
    decreases ps.len(),
{
    if ps.len() == 0 {
        0
    } else {
        sum_poly_area2(ps.drop_last()) + poly_area2(ps.last())
    }
}

/// Twice the area of a shape. Points and lines enclose no area.
pub open spec fn shape_area2(s: ShapeRep) -> int {
    match s {
        ShapeRep::Polygon(p) => poly_area2(p),
        ShapeRep::MultiPolygon(ps) => sum_poly_area2(ps),
        _ => 0,
    }
}

/// Sum of twice the shape areas of a list of shapes.
pub open spec fn sum_shape_area2(ss: Seq<ShapeRep>) -> int
    decreases ss.len(),
{
    if ss.len() == 0 {
        0
    } else {
        sum_shape_area2(ss.drop_last()) + shape_area2(ss.last())
    }
}

/// Twice the area of a geometry.
pub open spec fn geom_area2(g: GeomRep) -> int {
    match g {
        GeomRep::Shape(s) => shape_area2(s),
        GeomRep::Collection(ss) => sum_shape_area2(ss),
    }
}

/// The area of a geometry, in scalar units: twice the area, clamped at
/// zero, divided by twice the scale.
pub open spec fn area_units(g: GeomRep) -> int {
    if geom_area2(g) < 0 {
        0
    } else {
        geom_area2(g) / 2000
    }
}

pub proof fn lemma_ring_area2_bound(r: Seq<CoordRep>)
    requires
        wf_coords(r),
        r.len() <= CAP as int,
    ensures
        0 <= ring_area2(r) <= 2_000_000_000_000_000_000_000_000_000,
{
    lemma_shoelace_bound(r);
    assert((r.len() as int) * 2_000_000_000_000_000_000_000_000
        <= 1000 * 2_000_000_000_000_000_000_000_000) by (nonlinear_arith)
        requires
            r.len() <= 1000,
    ;
}

pub proof fn lemma_sum_ring_area2_bound(rs: Seq<Seq<CoordRep>>)
    requires
        forall|i: int| 0 <= i < rs.len() ==> wf_ring(#[trigger] rs[i]),
        rs.len() <= CAP as int,
    ensures
        0 <= sum_ring_area2(rs) <= (rs.len() as int) * 2_000_000_000_000_000_000_000_000_000,
    decreases rs.len(),
{
    if rs.len() == 0 {
        assert((rs.len() as int) * 2_000_000_000_000_000_000_000_000_000 == 0) by (nonlinear_arith)
            requires
                rs.len() == 0,
        ;
    } else {
        lemma_sum_ring_area2_bound(rs.drop_last());
        lemma_ring_area2_bound(rs.last());
        assert(((rs.len() - 1) as int) * 2_000_000_000_000_000_000_000_000_000
            + 2_000_000_000_000_000_000_000_000_000 == (rs.len() as int)
            * 2_000_000_000_000_000_000_000_000_000) by (nonlinear_arith);
        assert(0 <= ((rs.len() - 1) as int) * 2_000_000_000_000_000_000_000_000_000)
            by (nonlinear_arith)
            requires
                rs.len() >= 1,
        ;
    }
}

pub proof fn lemma_poly_area2_bound(p: Seq<Seq<CoordRep>>)
    requires
        wf_poly(p),
    ensures
        -2_000_000_000_000_000_000_000_000_000_000 <= poly_area2(p)
            <= 2_000_000_000_000_000_000_000_000_000_000,
{
    lemma_ring_area2_bound(p[0]);
    assert(forall|i: int| 0 <= i < p.skip(1).len() ==> wf_ring(#[trigger] p.skip(1)[i]));
    lemma_sum_ring_area2_bound(p.skip(1));
    assert((p.skip(1).len() as int) * 2_000_000_000_000_000_000_000_000_000
        <= 1000 * 2_000_000_000_000_000_000_000_000_000) by (nonlinear_arith)
        requires
            p.skip(1).len() <= 1000,
    ;
}

pub proof fn lemma_sum_poly_area2_bound(ps: Seq<Seq<Seq<CoordRep>>>)
    requires
        forall|i: int| 0 <= i < ps.len() ==> wf_poly(#[trigger] ps[i]),
        ps.len() <= CAP as int,
    ensures
        -(ps.len() as int) * 2_000_000_000_000_000_000_000_000_000_000 <= sum_poly_area2(ps)
            <= (ps.len() as int) * 2_000_000_000_000_000_000_000_000_000_000,
    decreases ps.len(),
{
    if ps.len() == 0 {
        assert((ps.len() as int) * 2_000_000_000_000_000_000_000_000_000_000 == 0)
            by (nonlinear_arith)
            requires
                ps.len() == 0,
        ;
    } else {
        lemma_sum_poly_area2_bound(ps.drop_last());
        lemma_poly_area2_bound(ps.last());
        assert(((ps.len() - 1) as int) * 2_000_000_000_000_000_000_000_000_000_000
            + 2_000_000_000_000_000_000_000_000_000_000 == (ps.len() as int)
            * 2_000_000_000_000_000_000_000_000_000_000) by (nonlinear_arith);
    }
}

pub proof fn lemma_shape_area2_bound(s: ShapeRep)
    requires
        wf_shape(s),
    ensures
        -2_000_000_000_000_000_000_000_000_000_000_000 <= shape_area2(s)
            <= 2_000_000_000_000_000_000_000_000_000_000_000,
{
    match s {
        ShapeRep::Polygon(p) => lemma_poly_area2_bound(p),
        ShapeRep::MultiPolygon(ps) => {
            lemma_sum_poly_area2_bound(ps);
            assert((ps.len() as int) * 2_000_000_000_000_000_000_000_000_000_000
                <= 1000 * 2_000_000_000_000_000_000_000_000_000_000) by (nonlinear_arith)
                requires
                    ps.len() <= 1000,
            ;
        },
        _ => {},
    }
}

pub proof fn lemma_sum_shape_area2_bound(ss: Seq<ShapeRep>)
    requires
        forall|i: int| 0 <= i < ss.len() ==> wf_shape(#[trigger] ss[i]),
        ss.len() <= CAP as int,
    ensures
        -(ss.len() as int) * 2_000_000_000_000_000_000_000_000_000_000_000 <= sum_shape_area2(ss)
            <= (ss.len() as int) * 2_000_000_000_000_000_000_000_000_000_000_000,
    decreases ss.len(),
{
    if ss.len() == 0 {
        assert((ss.len() as int) * 2_000_000_000_000_000_000_000_000_000_000_000 == 0)
            by (nonlinear_arith)
            requires
                ss.len() == 0,
        ;
    } else {
        lemma_sum_shape_area2_bound(ss.drop_last());
        lemma_shape_area2_bound(ss.last());
        assert(((ss.len() - 1) as int) * 2_000_000_000_000_000_000_000_000_000_000_000
            + 2_000_000_000_000_000_000_000_000_000_000_000 == (ss.len() as int)
            * 2_000_000_000_000_000_000_000_000_000_000_000) by (nonlinear_arith);
    }
}

/// Twice the area of a geometry is bounded by the engine's caps.
pub proof fn lemma_geom_area2_bound(g: GeomRep)
    requires
        wf_geom(g),
    ensures
        -2_000_000_000_000_000_000_000_000_000_000_000_000 <= geom_area2(g)
            <= 2_000_000_000_000_000_000_000_000_000_000_000_000,
{
    match g {
        GeomRep::Shape(s) => lemma_shape_area2_bound(s),
        GeomRep::Collection(ss) => {
            lemma_sum_shape_area2_bound(ss);
            assert((ss.len() as int) * 2_000_000_000_000_000_000_000_000_000_000_000
                <= 1000 * 2_000_000_000_000_000_000_000_000_000_000_000) by (nonlinear_arith)
                requires
                    ss.len() <= 1000,
            ;
        },
    }
}

/// Twice the enclosed area of one ring, computed exactly.
pub fn ring_area2_exec(v: &Vec<Coord>) -> (r: i128)
    requires
        wf_ring(ring_rep(v@)),
    ensures
        r == ring_area2(ring_rep(v@)),
        0 <= r <= 2_000_000_000_000_000_000_000_000_000,
{
    let s = ring_shoelace(v);
    proof {
        lemma_ring_area2_bound(ring_rep(v@));
    }
    if s < 0 {
        -s
    } else {
        s
    }
}

/// Twice the area of a polygon, computed exactly.
#[verifier::loop_isolation(false)]
pub fn poly_area2_exec(v: &Vec<Vec<Coord>>) -> (r: i128)
    requires
        wf_poly(rings_rep(v@)),
    ensures
        r == poly_area2(rings_rep(v@)),
        -2_000_000_000_000_000_000_000_000_000_000 <= r
            <= 2_000_000_000_000_000_000_000_000_000_000,
{
    let ghost pp = rings_rep(v@);
    proof {
        assert(pp[0] == ring_rep(v@[0]@));
    }
    let ext = ring_area2_exec(&v[0]);
    let mut holes: i128 = 0;
    let mut i: usize = 1;
    while i < v.len()
        invariant
            1 <= i <= v@.len(),
            holes == sum_ring_area2(pp.subrange(1, i as int)),
            0 <= holes <= ((i - 1) as int) * 2_000_000_000_000_000_000_000_000_000,
        decreases v@.len() - i,
    {
        proof {
            assert(pp[i as int] == ring_rep(v@[i as int]@));
        }
        let h = ring_area2_exec(&v[i]);
        proof {
            let t = pp.subrange(1, i as int + 1);
            assert(t.drop_last() =~= pp.subrange(1, i as int));
            assert(t.last() == pp[i as int]);
            assert(((i - 1) as int) * 2_000_000_000_000_000_000_000_000_000
                + 2_000_000_000_000_000_000_000_000_000 == (i as int)
                * 2_000_000_000_000_000_000_000_000_000) by (nonlinear_arith);
            assert((i as int) * 2_000_000_000_000_000_000_000_000_000
                <= 1000 * 2_000_000_000_000_000_000_000_000_000) by (nonlinear_arith)
                requires
                    i as int <= 1000,
            ;
        }
        holes = holes + h;
        i = i + 1;
    }
    proof {
        assert(pp.subrange(1, v@.len() as int) =~= pp.skip(1));
        assert(((v@.len() - 1) as int) * 2_000_000_000_000_000_000_000_000_000
            <= 1000 * 2_000_000_000_000_000_000_000_000_000) by (nonlinear_arith)
            requires
                v@.len() <= 1000,
        ;
    }
    ext - holes
}

/// Twice the area of a shape, computed exactly.
#[verifier::loop_isolation(false)]
pub fn shape_area2_exec(s: &ShapeData) -> (r: i128)
    requires
        wf_shape(s@),
    ensures
        r == shape_area2(s@),
        -2_000_000_000_000_000_000_000_000_000_000_000 <= r
            <= 2_000_000_000_000_000_000_000_000_000_000_000,
{
    match s {
        ShapeData::Polygon(v) => poly_area2_exec(v),
        ShapeData::MultiPolygon(v) => {
            let ghost ps = polys_rep(v@);
            let mut acc: i128 = 0;
            let mut i: usize = 0;
            while i < v.len()
                invariant
                    0 <= i <= v@.len(),
                    acc == sum_poly_area2(ps.take(i as int)),
                    -(i as int) * 2_000_000_000_000_000_000_000_000_000_000 <= acc <= (i as int)
                        * 2_000_000_000_000_000_000_000_000_000_000,
                decreases v@.len() - i,
            {
                proof {
                    assert(ps[i as int] == rings_rep(v@[i as int]@));
                }
                let a = poly_area2_exec(&v[i]);
                proof {
                    let t = ps.take(i as int + 1);
                    assert(t.drop_last() =~= ps.take(i as int));
                    assert(t.last() == rings_rep(v@[i as int]@));
                    assert((i as int) * 2_000_000_000_000_000_000_000_000_000_000
                        + 2_000_000_000_000_000_000_000_000_000_000 == (i as int + 1)
                        * 2_000_000_000_000_000_000_000_000_000_000) by (nonlinear_arith);
                    assert((i as int + 1) * 2_000_000_000_000_000_000_000_000_000_000
                        <= 1000 * 2_000_000_000_000_000_000_000_000_000_000) by (nonlinear_arith)
                        requires
                            i as int + 1 <= 1000,
                    ;
                }
                acc = acc + a;
                i = i + 1;
            }
            proof {
                assert(ps.take(v@.len() as int) =~= ps);
            }
            acc
        },
        _ => 0,
    }
}

/// Twice the area of a geometry, computed exactly.
#[verifier::loop_isolation(false)]
pub fn geom_area2_exec(g: &GeomData) -> (r: i128)
    requires
        wf_geom(g@),
    ensures
        r == geom_area2(g@),
        -2_000_000_000_000_000_000_000_000_000_000_000_000 <= r
            <= 2_000_000_000_000_000_000_000_000_000_000_000_000,
{
    match g {
        GeomData::Shape(s) => shape_area2_exec(s),
        GeomData::Collection(v) => {
            let ghost ss = shapes_rep(v@);
            let mut acc: i128 = 0;
            let mut i: usize = 0;
            while i < v.len()
                invariant
                    0 <= i <= v@.len(),
                    acc == sum_shape_area2(ss.take(i as int)),
                    -(i as int) * 2_000_000_000_000_000_000_000_000_000_000_000 <= acc <= (
                    i as int) * 2_000_000_000_000_000_000_000_000_000_000_000,
                decreases v@.len() - i,
            {
                proof {
                    assert(ss[i as int] == v@[i as int]@);
                }
                let a = shape_area2_exec(&v[i]);
                proof {
                    let t = ss.take(i as int + 1);
                    assert(t.drop_last() =~= ss.take(i as int));
                    assert(t.last() == v@[i as int]@);
                    assert((i as int) * 2_000_000_000_000_000_000_000_000_000_000_000
                        + 2_000_000_000_000_000_000_000_000_000_000_000 == (i as int + 1)
                        * 2_000_000_000_000_000_000_000_000_000_000_000) by (nonlinear_arith);
                    assert((i as int + 1) * 2_000_000_000_000_000_000_000_000_000_000_000
                        <= 1000 * 2_000_000_000_000_000_000_000_000_000_000_000)
                        by (nonlinear_arith)
                        requires
                            i as int + 1 <= 1000,
                    ;
                }
                acc = acc + a;
                i = i + 1;
            }
            proof {
                assert(ss.take(v@.len() as int) =~= ss);
            }
            acc
        },
    }
}

/// An axis-aligned bounding box.
pub struct EnvRep {
    pub x0: int,
    pub y0: int,
    pub x1: int,
    pub y1: int,
}

/// The box grown to contain one more coordinate.
pub open spec fn env_merge(e: EnvRep, c: CoordRep) -> EnvRep {
    EnvRep {
        x0: if c.x < e.x0 { c.x } else { e.x0 },
        y0: if c.y < e.y0 { c.y } else { e.y0 },
        x1: if c.x > e.x1 { c.x } else { e.x1 },
        y1: if c.y > e.y1 { c.y } else { e.y1 },
    }
}

/// The bounding box of a nonempty coordinate sequence.
pub open spec fn env_of(cs: Seq<CoordRep>) -> EnvRep
    recommends
        cs.len() > 0,
    decreases cs.len(),
{
    if cs.len() <= 1 {
        EnvRep { x0: cs[0].x, y0: cs[0].y, x1: cs[0].x, y1: cs[0].y }
    } else {
        env_merge(env_of(cs.drop_last()), cs.last())
    }
}

/// The bounding box of the vertices of a vertex list, if any.
#[verifier::loop_isolation(false)]
pub fn envelope_box(v: &Vec<Coord>) -> (r: Option<(Coord, Coord)>)
    ensures
        v@.len() == 0 <==> r is None,
        r matches Some((lo, hi)) ==> {
            let e = env_of(ring_rep(v@));
            lo@.x == e.x0 && lo@.y == e.y0 && hi@.x == e.x1 && hi@.y == e.y1
        },
{
    if v.len() == 0 {
        return None;
    }
    let ghost rr = ring_rep(v@);
    let first = v[0];
    let mut lo = first;
    let mut hi = first;
    let mut i: usize = 1;
    while i < v.len()
        invariant
            1 <= i <= v@.len(),
            lo@.x == env_of(rr.take(i as int)).x0,
            lo@.y == env_of(rr.take(i as int)).y0,
            hi@.x == env_of(rr.take(i as int)).x1,
            hi@.y == env_of(rr.take(i as int)).y1,
        decreases v@.len() - i,
    {
        let c = v[i];
        proof {
            let t = rr.take(i as int + 1);
            assert(t.drop_last() =~= rr.take(i as int));
            assert(t.last() == rr[i as int]);
        }
        if c.x < lo.x {
            lo.x = c.x;
        }
        if c.y < lo.y {
            lo.y = c.y;
        }
        if c.x > hi.x {
            hi.x = c.x;
        }
        if c.y > hi.y {
            hi.y = c.y;
        }
        i = i + 1;
    }
    proof {
        assert(rr.take(v@.len() as int) =~= rr);
    }
    Some((lo, hi))
}

/// Whether two boxes share at least one point.
pub open spec fn env_overlap(a: EnvRep, b: EnvRep) -> bool {
    a.x0 <= b.x1 && b.x0 <= a.x1 && a.y0 <= b.y1 && b.y0 <= a.y1
}

/// Whether box `a` lies within box `b`.
pub open spec fn env_inside(a: EnvRep, b: EnvRep) -> bool {
    b.x0 <= a.x0 && a.x1 <= b.x1 && b.y0 <= a.y0 && a.y1 <= b.y1
}

/// Whether two boxes share boundary points but no interior.
pub open spec fn env_touch_only(a: EnvRep, b: EnvRep) -> bool {
    env_overlap(a, b) && (a.x0 == b.x1 || b.x0 == a.x1 || a.y0 == b.y1 || b.y0 == a.y1)
}

/// The squared distance between two coordinates.
pub open spec fn sqdist(a: CoordRep, b: CoordRep) -> int {
    (a.x - b.x) * (a.x - b.x) + (a.y - b.y) * (a.y - b.y)
}

/// The least squared distance from `a` to a vertex of `bs`.
pub open spec fn min_sqdist_to(a: CoordRep, bs: Seq<CoordRep>) -> int
    recommends
        bs.len() > 0,
    decreases bs.len(),
{
    if bs.len() <= 1 {
        sqdist(a, bs[0])
    } else {
        let m = min_sqdist_to(a, bs.drop_last());
        let d = sqdist(a, bs.last());
        if d < m {
            d
        } else {
            m
        }
    }
}

/// The least squared distance between a vertex of `as_` and one of `bs`.
pub open spec fn min_sqdist(as_: Seq<CoordRep>, bs: Seq<CoordRep>) -> int
    recommends
        as_.len() > 0,
        bs.len() > 0,
    decreases as_.len(),
{
    if as_.len() <= 1 {
        min_sqdist_to(as_[0], bs)
    } else {
        let m = min_sqdist(as_.drop_last(), bs);
        let d = min_sqdist_to(as_.last(), bs);
        if d < m {
            d
        } else {
            m
        }
    }
}

/// Squared distances of bounded coordinates are bounded and nonnegative.
pub proof fn lemma_sqdist_bound(a: CoordRep, b: CoordRep)
    requires
        wf_coord(a),
        wf_coord(b),
    ensures
        0 <= sqdist(a, b) <= 8_000_000_000_000_000_000_000_000,
{
    assert(0 <= (a.x - b.x) * (a.x - b.x) + (a.y - b.y) * (a.y - b.y)
        <= 8_000_000_000_000_000_000_000_000) by (nonlinear_arith)
        requires
            -(COORD_LIMIT as int) <= a.x <= COORD_LIMIT as int,
            -(COORD_LIMIT as int) <= a.y <= COORD_LIMIT as int,
            -(COORD_LIMIT as int) <= b.x <= COORD_LIMIT as int,
            -(COORD_LIMIT as int) <= b.y <= COORD_LIMIT as int,
            COORD_LIMIT == 1_000_000_000_000i64,
    ;
}

/// The squared distance between two in-bounds coordinates, exactly.
pub fn sqdist_exec(a: Coord, b: Coord) -> (r: i128)
    requires
        wf_coord(a@),
        wf_coord(b@),
    ensures
        r == sqdist(a@, b@),
        0 <= r <= 8_000_000_000_000_000_000_000_000,
{
    proof {
        lemma_sqdist_bound(a@, b@);
    }
    let dx: i128 = (a.x as i128) - (b.x as i128);
    let dy: i128 = (a.y as i128) - (b.y as i128);
    proof {
        assert(dx * dx + dy * dy == sqdist(a@, b@) && 0 <= dx * dx && 0 <= dy * dy
            && dx * dx <= 4_000_000_000_000_000_000_000_000 && dy * dy
            <= 4_000_000_000_000_000_000_000_000) by (nonlinear_arith)
            requires
                dx == a@.x - b@.x,
                dy == a@.y - b@.y,
                -2_000_000_000_000 <= dx <= 2_000_000_000_000,
                -2_000_000_000_000 <= dy <= 2_000_000_000_000,
        ;
    }
    dx * dx + dy * dy
}

/// The least squared vertex-to-vertex distance between two nonempty
/// vertex sets, exactly.
#[verifier::loop_isolation(false)]
pub fn min_sqdist_exec(va: &Vec<Coord>, vb: &Vec<Coord>) -> (r: i128)
    requires
        va@.len() > 0,
        vb@.len() > 0,
        wf_coords(ring_rep(va@)),
        wf_coords(ring_rep(vb@)),
    ensures
        r == min_sqdist(ring_rep(va@), ring_rep(vb@)),
        0 <= r <= 8_000_000_000_000_000_000_000_000,
{
    let ghost ra = ring_rep(va@);
    let ghost rb = ring_rep(vb@);
    let mut best: i128 = 0;
    let mut i: usize = 0;
    while i < va.len()
        invariant
            0 <= i <= va@.len(),
            i > 0 ==> best == min_sqdist(ra.take(i as int), rb),
            i > 0 ==> 0 <= best <= 8_000_000_000_000_000_000_000_000,
        decreases va@.len() - i,
    {
        let a = va[i];
        proof {
            assert(ra[i as int] == va@[i as int]@);
        }
        let mut inner: i128 = 0;
        let mut j: usize = 0;
        while j < vb.len()
            invariant
                0 <= j <= vb@.len(),
                0 <= i < va@.len(),
                a == va@[i as int],
                j > 0 ==> inner == min_sqdist_to(ra[i as int], rb.take(j as int)),
                j > 0 ==> 0 <= inner <= 8_000_000_000_000_000_000_000_000,
            decreases vb@.len() - j,
        {
            proof {
                assert(rb[j as int] == vb@[j as int]@);
            }
            let d = sqdist_exec(a, vb[j]);
            proof {
                let t = rb.take(j as int + 1);
                assert(t.drop_last() =~= rb.take(j as int));
                assert(t.last() == rb[j as int]);
            }
            if j == 0 || d < inner {
                inner = d;
            }
            proof {
                if j > 0 {
                    assert(inner == min_sqdist_to(ra[i as int], rb.take(j as int + 1)));
                } else {
                    assert(rb.take(1).len() == 1);
                    assert(inner == min_sqdist_to(ra[i as int], rb.take(1)));
                }
            }
            j = j + 1;
        }
        proof {
            assert(rb.take(vb@.len() as int) =~= rb);
            let t = ra.take(i as int + 1);
            assert(t.drop_last() =~= ra.take(i as int));
            assert(t.last() == ra[i as int]);
        }
        if i == 0 || inner < best {
            best = inner;
        }
        proof {
            if i > 0 {
                assert(best == min_sqdist(ra.take(i as int + 1), rb));
            } else {
                assert(ra.take(1).len() == 1);
                assert(best == min_sqdist(ra.take(1), rb));
            }
        }
        i = i + 1;
    }
    proof {
        assert(ra.take(va@.len() as int) =~= ra);
    }
    best
}


/// Length in scalar units of the path along a vertex list: the sum of the
/// rounded-down edge lengths.
pub open spec fn polyline_units(r: Seq<CoordRep>) -> int
    decreases r.len(),
{
    if r.len() < 2 {
        0
    } else {
        polyline_units(r.drop_last()) + crate::scalar::sqrt_floor(
            sqdist(r[r.len() - 2], r[r.len() - 1]) as nat,
        )
    }
}

/// Sum of the path lengths of a list of vertex lists.
pub open spec fn sum_polyline_units(rs: Seq<Seq<CoordRep>>) -> int
    decreases rs.len(),
{
    if rs.len() == 0 {
        0
    } else {
        sum_polyline_units(rs.drop_last()) + polyline_units(rs.last())
    }
}

/// Sum of the ring path lengths of a list of polygons.
pub open spec fn sum_poly_polyline_units(ps: Seq<Seq<Seq<CoordRep>>>) -> int
    decreases ps.len(),
{
    if ps.len() == 0 {
        0
    } else {
        sum_poly_polyline_units(ps.drop_last()) + sum_polyline_units(ps.last())
    }
}

/// Length in scalar units of a shape: points measure zero, lines measure
/// their path, area shapes measure their ring paths (their perimeter).
pub open spec fn shape_length_units(s: ShapeRep) -> int {
    match s {
        ShapeRep::Point(_) => 0,
        ShapeRep::LineString(r) => polyline_units(r),
        ShapeRep::LinearRing(r) => polyline_units(r),
        ShapeRep::Polygon(p) => sum_polyline_units(p),
        ShapeRep::MultiPoint(_) => 0,
        ShapeRep::MultiLineString(rs) => sum_polyline_units(rs),
        ShapeRep::MultiPolygon(ps) => sum_poly_polyline_units(ps),
    }
}

/// Sum of the lengths of a list of shapes.
pub open spec fn sum_shape_length_units(ss: Seq<ShapeRep>) -> int
    decreases ss.len(),
{
    if ss.len() == 0 {
        0
    } else {
        sum_shape_length_units(ss.drop_last()) + shape_length_units(ss.last())
    }
}

/// Length in scalar units of a geometry.
pub open spec fn geom_length_units(g: GeomRep) -> int {
    match g {
        GeomRep::Shape(s) => shape_length_units(s),
        GeomRep::Collection(ss) => sum_shape_length_units(ss),
    }
}

/// An edge of bounded coordinates measures at most `3_000_000_000_000`.
pub proof fn lemma_edge_units_bound(a: CoordRep, b: CoordRep)
    requires
        wf_coord(a),
        wf_coord(b),
    ensures
        0 <= crate::scalar::sqrt_floor(sqdist(a, b) as nat) <= 3_000_000_000_000,
{
    lemma_sqdist_bound(a, b);
    let n = sqdist(a, b) as nat;
    crate::scalar::lemma_sqrt_floor_bounds(n);
    let r = crate::scalar::sqrt_floor(n);
    if r > 3_000_000_000_000 {
        assert(r * r > 8_000_000_000_000_000_000_000_000) by (nonlinear_arith)
            requires
                r > 3_000_000_000_000,
        ;
    }
}

pub proof fn lemma_polyline_units_bound(r: Seq<CoordRep>)
    requires
        wf_coords(r),
        r.len() <= CAP as int,
    ensures
        0 <= polyline_units(r) <= (r.len() as int) * 3_000_000_000_000,
    decreases r.len(),
{
    if r.len() < 2 {
        assert(0 <= (r.len() as int) * 3_000_000_000_000) by (nonlinear_arith);
    } else {
        assert(wf_coords(r.drop_last()));
        lemma_polyline_units_bound(r.drop_last());
        lemma_edge_units_bound(r[r.len() - 2], r[r.len() - 1]);
        assert(((r.len() - 1) as int) * 3_000_000_000_000 + 3_000_000_000_000 == (r.len() as int)
            * 3_000_000_000_000) by (nonlinear_arith);
    }
}

pub proof fn lemma_sum_polyline_units_bound(rs: Seq<Seq<CoordRep>>)
    requires
        forall|i: int| 0 <= i < rs.len() ==> wf_ring(#[trigger] rs[i]),
        rs.len() <= CAP as int,
    ensures
        0 <= sum_polyline_units(rs) <= (rs.len() as int) * 3_000_000_000_000_000,
    decreases rs.len(),
{
    if rs.len() == 0 {
        assert(0 <= (rs.len() as int) * 3_000_000_000_000_000) by (nonlinear_arith);
    } else {
        lemma_sum_polyline_units_bound(rs.drop_last());
        lemma_polyline_units_bound(rs.last());
        assert((rs.last().len() as int) * 3_000_000_000_000 <= 3_000_000_000_000_000)
            by (nonlinear_arith)
            requires
                rs.last().len() <= 1000,
        ;
        assert(((rs.len() - 1) as int) * 3_000_000_000_000_000 + 3_000_000_000_000_000 == (
        rs.len() as int) * 3_000_000_000_000_000) by (nonlinear_arith);
    }
}

pub proof fn lemma_sum_poly_polyline_units_bound(ps: Seq<Seq<Seq<CoordRep>>>)
    requires
        forall|i: int| 0 <= i < ps.len() ==> wf_rings(#[trigger] ps[i]),
        ps.len() <= CAP as int,
    ensures
        0 <= sum_poly_polyline_units(ps) <= (ps.len() as int) * 3_000_000_000_000_000_000,
    decreases ps.len(),
{
    if ps.len() == 0 {
        assert(0 <= (ps.len() as int) * 3_000_000_000_000_000_000) by (nonlinear_arith);
    } else {
        lemma_sum_poly_polyline_units_bound(ps.drop_last());
        lemma_sum_polyline_units_bound(ps.last());
        assert((ps.last().len() as int) * 3_000_000_000_000_000 <= 3_000_000_000_000_000_000)
            by (nonlinear_arith)
            requires
                ps.last().len() <= 1000,
        ;
        assert(((ps.len() - 1) as int) * 3_000_000_000_000_000_000 + 3_000_000_000_000_000_000
            == (ps.len() as int) * 3_000_000_000_000_000_000) by (nonlinear_arith);
    }
}

pub proof fn lemma_shape_length_units_bound(s: ShapeRep)
    requires
        wf_shape(s),
    ensures
        0 <= shape_length_units(s) <= 3_000_000_000_000_000_000_000,
{
    match s {
        ShapeRep::LineString(r) => {
            lemma_polyline_units_bound(r);
            assert((r.len() as int) * 3_000_000_000_000 <= 3_000_000_000_000_000_000_000)
                by (nonlinear_arith)
                requires
                    r.len() <= 1000,
            ;
        },
        ShapeRep::LinearRing(r) => {
            lemma_polyline_units_bound(r);
            assert((r.len() as int) * 3_000_000_000_000 <= 3_000_000_000_000_000_000_000)
                by (nonlinear_arith)
                requires
                    r.len() <= 1000,
            ;
        },
        ShapeRep::Polygon(p) => {
            lemma_sum_polyline_units_bound(p);
            assert((p.len() as int) * 3_000_000_000_000_000 <= 3_000_000_000_000_000_000_000)
                by (nonlinear_arith)
                requires
                    p.len() <= 1000,
            ;
        },
        ShapeRep::MultiLineString(rs) => {
            lemma_sum_polyline_units_bound(rs);
            assert((rs.len() as int) * 3_000_000_000_000_000 <= 3_000_000_000_000_000_000_000)
                by (nonlinear_arith)
                requires
                    rs.len() <= 1000,
            ;
        },
        ShapeRep::MultiPolygon(ps) => {
            lemma_sum_poly_polyline_units_bound(ps);
            assert((ps.len() as int) * 3_000_000_000_000_000_000 <= 3_000_000_000_000_000_000_000)
                by (nonlinear_arith)
                requires
                    ps.len() <= 1000,
            ;
        },
        _ => {},
    }
}

pub proof fn lemma_sum_shape_length_units_bound(ss: Seq<ShapeRep>)
    requires
        forall|i: int| 0 <= i < ss.len() ==> wf_shape(#[trigger] ss[i]),
        ss.len() <= CAP as int,
    ensures
        0 <= sum_shape_length_units(ss) <= (ss.len() as int) * 3_000_000_000_000_000_000_000,
    decreases ss.len(),
{
    if ss.len() == 0 {
        assert(0 <= (ss.len() as int) * 3_000_000_000_000_000_000_000) by (nonlinear_arith);
    } else {
        lemma_sum_shape_length_units_bound(ss.drop_last());
        lemma_shape_length_units_bound(ss.last());
        assert(((ss.len() - 1) as int) * 3_000_000_000_000_000_000_000
            + 3_000_000_000_000_000_000_000 == (ss.len() as int) * 3_000_000_000_000_000_000_000)
            by (nonlinear_arith);
    }
}

/// The length of a geometry is bounded by the engine's caps.
pub proof fn lemma_geom_length_units_bound(g: GeomRep)
    requires
        wf_geom(g),
    ensures
        0 <= geom_length_units(g) <= 3_000_000_000_000_000_000_000_000,
{
    match g {
        GeomRep::Shape(s) => lemma_shape_length_units_bound(s),
        GeomRep::Collection(ss) => {
            lemma_sum_shape_length_units_bound(ss);
            assert((ss.len() as int) * 3_000_000_000_000_000_000_000
                <= 3_000_000_000_000_000_000_000_000) by (nonlinear_arith)
                requires
                    ss.len() <= 1000,
            ;
        },
    }
}

/// One edge length in scalar units, exactly.
fn edge_units_exec(a: Coord, b: Coord) -> (r: i64)
    requires
        wf_coord(a@),
        wf_coord(b@),
    ensures
        r == crate::scalar::sqrt_floor(sqdist(a@, b@) as nat),
        0 <= r <= 3_000_000_000_000,
{
    let d = sqdist_exec(a, b);
    proof {
        lemma_edge_units_bound(a@, b@);
    }
    let r = crate::scalar::isqrt(d as u128);
    r as i64
}

/// The path length of a vertex list, exactly.
#[verifier::loop_isolation(false)]
fn polyline_units_exec(v: &Vec<Coord>) -> (r: i64)
    requires
        wf_ring(ring_rep(v@)),
    ensures
        r == polyline_units(ring_rep(v@)),
        0 <= r <= 3_000_000_000_000_000,
{
    let ghost rr = ring_rep(v@);
    if v.len() < 2 {
        return 0;
    }
    let mut acc: i64 = 0;
    let mut i: usize = 1;
    while i < v.len()
        invariant
            1 <= i <= v@.len(),
            2 <= v@.len(),
            acc == polyline_units(rr.take(i as int)),
            0 <= acc <= (i as int) * 3_000_000_000_000,
        decreases v@.len() - i,
    {
        proof {
            assert(rr[i - 1 as int] == v@[i - 1 as int]@);
            assert(rr[i as int] == v@[i as int]@);
        }
        let e = edge_units_exec(v[i - 1], v[i]);
        proof {
            let t = rr.take(i as int + 1);
            assert(t.drop_last() =~= rr.take(i as int));
            assert(t[t.len() - 2] == rr[i - 1 as int]);
            assert(t[t.len() - 1] == rr[i as int]);
            assert((i as int) * 3_000_000_000_000 + 3_000_000_000_000 == (i as int + 1)
                * 3_000_000_000_000) by (nonlinear_arith);
            assert((i as int + 1) * 3_000_000_000_000 <= 3_000_000_000_000_000)
                by (nonlinear_arith)
                requires
                    i as int + 1 <= 1000,
            ;
        }
        acc = acc + e;
        i = i + 1;
    }
    proof {
        assert(rr.take(v@.len() as int) =~= rr);
    }
    acc
}

/// The summed path length of a list of vertex lists, exactly.
#[verifier::loop_isolation(false)]
fn sum_polyline_units_exec(v: &Vec<Vec<Coord>>) -> (r: i64)
    requires
        wf_rings(rings_rep(v@)),
    ensures
        r == sum_polyline_units(rings_rep(v@)),
        0 <= r <= 3_000_000_000_000_000_000,
{
    let ghost rs = rings_rep(v@);
    let mut acc: i64 = 0;
    let mut i: usize = 0;
    while i < v.len()
        invariant
            0 <= i <= v@.len(),
            acc == sum_polyline_units(rs.take(i as int)),
            0 <= acc <= (i as int) * 3_000_000_000_000_000,
        decreases v@.len() - i,
    {
        proof {
            assert(rs[i as int] == ring_rep(v@[i as int]@));
        }
        let e = polyline_units_exec(&v[i]);
        proof {
            let t = rs.take(i as int + 1);
            assert(t.drop_last() =~= rs.take(i as int));
            assert(t.last() == rs[i as int]);
            assert((i as int) * 3_000_000_000_000_000 + 3_000_000_000_000_000 == (i as int + 1)
                * 3_000_000_000_000_000) by (nonlinear_arith);
            assert((i as int + 1) * 3_000_000_000_000_000 <= 3_000_000_000_000_000_000)
                by (nonlinear_arith)
                requires
                    i as int + 1 <= 1000,
            ;
        }
        acc = acc + e;
        i = i + 1;
    }
    proof {
        assert(rs.take(v@.len() as int) =~= rs);
    }
    acc
}

/// The summed ring path length of a list of polygons, exactly.
#[verifier::loop_isolation(false)]
fn sum_poly_polyline_units_exec(v: &Vec<Vec<Vec<Coord>>>) -> (r: i128)
    requires
        forall|i: int| 0 <= i < polys_rep(v@).len() ==> wf_rings(#[trigger] polys_rep(v@)[i]),
        v@.len() <= CAP as int,
    ensures
        r == sum_poly_polyline_units(polys_rep(v@)),
        0 <= r <= 3_000_000_000_000_000_000_000,
{
    let ghost ps = polys_rep(v@);
    let mut acc: i128 = 0;
    let mut i: usize = 0;
    while i < v.len()
        invariant
            0 <= i <= v@.len(),
            acc == sum_poly_polyline_units(ps.take(i as int)),
            0 <= acc <= (i as int) * 3_000_000_000_000_000_000,
        decreases v@.len() - i,
    {
        proof {
            assert(ps[i as int] == rings_rep(v@[i as int]@));
        }
        let e = sum_polyline_units_exec(&v[i]) as i128;
        proof {
            let t = ps.take(i as int + 1);
            assert(t.drop_last() =~= ps.take(i as int));
            assert(t.last() == ps[i as int]);
            assert((i as int) * 3_000_000_000_000_000_000 + 3_000_000_000_000_000_000 == (
            i as int + 1) * 3_000_000_000_000_000_000) by (nonlinear_arith);
            assert((i as int + 1) * 3_000_000_000_000_000_000 <= 3_000_000_000_000_000_000_000)
                by (nonlinear_arith)
                requires
                    i as int + 1 <= 1000,
            ;
        }
        acc = acc + e;
        i = i + 1;
    }
    proof {
        assert(ps.take(v@.len() as int) =~= ps);
    }
    acc
}

/// The length of one shape, exactly.
fn shape_length_units_exec(s: &ShapeData) -> (r: i128)
    requires
        wf_shape(s@),
    ensures
        r == shape_length_units(s@),
        0 <= r <= 3_000_000_000_000_000_000_000,
{
    match s {
        ShapeData::Point(_) => 0,
        ShapeData::LineString(v) => polyline_units_exec(v) as i128,
        ShapeData::LinearRing(v) => polyline_units_exec(v) as i128,
        ShapeData::Polygon(v) => sum_polyline_units_exec(v) as i128,
        ShapeData::MultiPoint(_) => 0,
        ShapeData::MultiLineString(v) => sum_polyline_units_exec(v) as i128,
        ShapeData::MultiPolygon(v) => sum_poly_polyline_units_exec(v),
    }
}

/// The length of a geometry, exactly.
#[verifier::loop_isolation(false)]
pub fn geom_length_units_exec(g: &GeomData) -> (r: i128)
    requires
        wf_geom(g@),
    ensures
        r == geom_length_units(g@),
        0 <= r <= 3_000_000_000_000_000_000_000_000,
{
    match g {
        GeomData::Shape(s) => shape_length_units_exec(s),
        GeomData::Collection(v) => {
            let ghost ss = shapes_rep(v@);
            let mut acc: i128 = 0;
            let mut i: usize = 0;
            while i < v.len()
                invariant
                    0 <= i <= v@.len(),
                    acc == sum_shape_length_units(ss.take(i as int)),
                    0 <= acc <= (i as int) * 3_000_000_000_000_000_000_000,
                decreases v@.len() - i,
            {
                proof {
                    assert(ss[i as int] == v@[i as int]@);
                }
                let e = shape_length_units_exec(&v[i]);
                proof {
                    let t = ss.take(i as int + 1);
                    assert(t.drop_last() =~= ss.take(i as int));
                    assert(t.last() == ss[i as int]);
                    assert((i as int) * 3_000_000_000_000_000_000_000
                        + 3_000_000_000_000_000_000_000 == (i as int + 1)
                        * 3_000_000_000_000_000_000_000) by (nonlinear_arith);
                    assert((i as int + 1) * 3_000_000_000_000_000_000_000
                        <= 3_000_000_000_000_000_000_000_000) by (nonlinear_arith)
                        requires
                            i as int + 1 <= 1000,
                    ;
                }
                acc = acc + e;
                i = i + 1;
            }
            proof {
                assert(ss.take(v@.len() as int) =~= ss);
            }
            acc
        },
    }
}

/// The greatest over `as_` of the least squared distance to `bs`.
pub open spec fn max_min_sqdist(as_: Seq<CoordRep>, bs: Seq<CoordRep>) -> int
    recommends
        as_.len() > 0,
        bs.len() > 0,
    decreases as_.len(),
{
    if as_.len() <= 1 {
        min_sqdist_to(as_[0], bs)
    } else {
        let m = max_min_sqdist(as_.drop_last(), bs);
        let d = min_sqdist_to(as_.last(), bs);
        if d > m {
            d
        } else {
            m
        }
    }
}

/// The discrete Hausdorff support: the larger of the two directed
/// greatest-least squared distances.
pub open spec fn hausdorff_sqdist(as_: Seq<CoordRep>, bs: Seq<CoordRep>) -> int {
    let ab = max_min_sqdist(as_, bs);
    let ba = max_min_sqdist(bs, as_);
    if ab > ba {
        ab
    } else {
        ba
    }
}

/// The directed greatest-least squared distance, exactly.
#[verifier::loop_isolation(false)]
pub fn max_min_sqdist_exec(va: &Vec<Coord>, vb: &Vec<Coord>) -> (r: i128)
    requires
        va@.len() > 0,
        vb@.len() > 0,
        wf_coords(ring_rep(va@)),
        wf_coords(ring_rep(vb@)),
    ensures
        r == max_min_sqdist(ring_rep(va@), ring_rep(vb@)),
        0 <= r <= 8_000_000_000_000_000_000_000_000,
{
    let ghost ra = ring_rep(va@);
    let ghost rb = ring_rep(vb@);
    let mut best: i128 = 0;
    let mut i: usize = 0;
    while i < va.len()
        invariant
            0 <= i <= va@.len(),
            i > 0 ==> best == max_min_sqdist(ra.take(i as int), rb),
            i > 0 ==> 0 <= best <= 8_000_000_000_000_000_000_000_000,
        decreases va@.len() - i,
    {
        let a = va[i];
        proof {
            assert(ra[i as int] == va@[i as int]@);
        }
        let mut inner: i128 = 0;
        let mut j: usize = 0;
        while j < vb.len()
            invariant
                0 <= j <= vb@.len(),
                0 <= i < va@.len(),
                a == va@[i as int],
                j > 0 ==> inner == min_sqdist_to(ra[i as int], rb.take(j as int)),
                j > 0 ==> 0 <= inner <= 8_000_000_000_000_000_000_000_000,
            decreases vb@.len() - j,
        {
            proof {
                assert(rb[j as int] == vb@[j as int]@);
            }
            let d = sqdist_exec(a, vb[j]);
            proof {
                let t = rb.take(j as int + 1);
                assert(t.drop_last() =~= rb.take(j as int));
                assert(t.last() == rb[j as int]);
            }
            if j == 0 || d < inner {
                inner = d;
            }
            proof {
                if j > 0 {
                    assert(inner == min_sqdist_to(ra[i as int], rb.take(j as int + 1)));
                } else {
                    assert(rb.take(1).len() == 1);
                    assert(inner == min_sqdist_to(ra[i as int], rb.take(1)));
                }
            }
            j = j + 1;
        }
        proof {
            assert(rb.take(vb@.len() as int) =~= rb);
            let t = ra.take(i as int + 1);
            assert(t.drop_last() =~= ra.take(i as int));
            assert(t.last() == ra[i as int]);
        }
        if i == 0 || inner > best {
            best = inner;
        }
        proof {
            if i > 0 {
                assert(best == max_min_sqdist(ra.take(i as int + 1), rb));
            } else {
                assert(ra.take(1).len() == 1);
                assert(best == max_min_sqdist(ra.take(1), rb));
            }
        }
        i = i + 1;
    }
    proof {
        assert(ra.take(va@.len() as int) =~= ra);
    }
    best
}

/// Sum of the first coordinates of a vertex sequence.
pub open spec fn sum_x(cs: Seq<CoordRep>) -> int
    decreases cs.len(),
{
    if cs.len() == 0 {
        0
    } else {
        sum_x(cs.drop_last()) + cs.last().x
    }
}

/// Sum of the second coordinates of a vertex sequence.
pub open spec fn sum_y(cs: Seq<CoordRep>) -> int
    decreases cs.len(),
{
    if cs.len() == 0 {
        0
    } else {
        sum_y(cs.drop_last()) + cs.last().y
    }
}

pub proof fn lemma_sum_xy_bound(cs: Seq<CoordRep>)
    requires
        wf_coords(cs),
    ensures
        -(cs.len() as int) * (COORD_LIMIT as int) <= sum_x(cs) <= (cs.len() as int) * (
        COORD_LIMIT as int),
        -(cs.len() as int) * (COORD_LIMIT as int) <= sum_y(cs) <= (cs.len() as int) * (
        COORD_LIMIT as int),
    decreases cs.len(),
{
    if cs.len() == 0 {
        assert((cs.len() as int) * (COORD_LIMIT as int) == 0) by (nonlinear_arith)
            requires
                cs.len() == 0,
        ;
    } else {
        assert(wf_coords(cs.drop_last()));
        lemma_sum_xy_bound(cs.drop_last());
        assert(wf_coord(cs.last()));
        assert(((cs.len() - 1) as int) * (COORD_LIMIT as int) + (COORD_LIMIT as int) == (
        cs.len() as int) * (COORD_LIMIT as int)) by (nonlinear_arith);
    }
}

/// The quotient of `s` by a positive `n`, rounded toward minus infinity,
/// written over nonnegative division only.
pub open spec fn floor_div(s: int, n: int) -> int
    recommends
        n > 0,
{
    if s >= 0 {
        s / n
    } else {
        -((n - 1 - s) / n)
    }
}

/// The centroid of a vertex list in this engine: the average of the
/// vertices, each ordinate rounded toward minus infinity.
pub open spec fn centroid_rep(cs: Seq<CoordRep>) -> CoordRep
    recommends
        cs.len() > 0,
{
    CoordRep {
        x: floor_div(sum_x(cs), cs.len() as int),
        y: floor_div(sum_y(cs), cs.len() as int),
    }
}

/// Floored division of a bounded value by a positive count.
fn div_floor(a: i128, b: i128) -> (r: i128)
    requires
        b > 0,
        -170_000_000_000_000_000_000_000_000_000_000_000 <= a
            <= 170_000_000_000_000_000_000_000_000_000_000_000,
        b <= 170_000_000_000_000_000_000_000_000_000_000_000,
    ensures
        r == floor_div(a as int, b as int),
{
    if a >= 0 {
        let q = (a as u128) / (b as u128);
        q as i128
    } else {
        let m = (b as u128) - 1 + ((-a) as u128);
        let q = m / (b as u128);
        -(q as i128)
    }
}

/// The centroid of the vertices, exactly.
#[verifier::loop_isolation(false)]
pub fn centroid_exec(v: &Vec<Coord>) -> (r: Coord)
    requires
        v@.len() > 0,
        wf_coords(ring_rep(v@)),
    ensures
        r@ == centroid_rep(ring_rep(v@)),
        wf_coord(r@),
{
    let ghost rr = ring_rep(v@);
    let mut sx: i128 = 0;
    let mut sy: i128 = 0;
    let mut i: usize = 0;
    while i < v.len()
        invariant
            0 <= i <= v@.len(),
            sx == sum_x(rr.take(i as int)),
            sy == sum_y(rr.take(i as int)),
            -(i as int) * (COORD_LIMIT as int) <= sx <= (i as int) * (COORD_LIMIT as int),
            -(i as int) * (COORD_LIMIT as int) <= sy <= (i as int) * (COORD_LIMIT as int),
        decreases v@.len() - i,
    {
        let c = v[i];
        proof {
            assert(rr[i as int] == v@[i as int]@);
            let t = rr.take(i as int + 1);
            assert(t.drop_last() =~= rr.take(i as int));
            assert(t.last() == rr[i as int]);
            assert((i as int) * (COORD_LIMIT as int) + (COORD_LIMIT as int) == (i as int + 1) * (
            COORD_LIMIT as int)) by (nonlinear_arith);
        }
        sx = sx + (c.x as i128);
        sy = sy + (c.y as i128);
        i = i + 1;
    }
    proof {
        assert(rr.take(v@.len() as int) =~= rr);
        assert((v@.len() as int) * (COORD_LIMIT as int)
            <= 170_000_000_000_000_000_000_000_000_000_000_000) by (nonlinear_arith)
            requires
                v@.len() <= 0xffff_ffff_ffff_ffffu64 as int,
                COORD_LIMIT == 1_000_000_000_000i64,
        ;
    }
    let n = v.len();
    let cx = div_floor(sx, n as i128);
    let cy = div_floor(sy, n as i128);
    proof {
        lemma_floor_div_bounded(sum_x(rr), rr.len() as int);
        lemma_floor_div_bounded(sum_y(rr), rr.len() as int);
    }
    Coord { x: cx as i64, y: cy as i64 }
}

/// The floored average of values within the coordinate bounds stays
/// within the coordinate bounds.
pub proof fn lemma_floor_div_bounded(s: int, n: int)
    requires
        n > 0,
        -n * (COORD_LIMIT as int) <= s <= n * (COORD_LIMIT as int),
    ensures
        -(COORD_LIMIT as int) <= floor_div(s, n) <= COORD_LIMIT as int,
{
    if s >= 0 {
        assert(s / n <= COORD_LIMIT as int) by (nonlinear_arith)
            requires
                n > 0,
                s <= n * (COORD_LIMIT as int),
        ;
        assert(s / n >= 0) by (nonlinear_arith)
            requires
                n > 0,
                s >= 0,
        ;
    } else {
        assert((n - 1 - s) / n <= COORD_LIMIT as int) by (nonlinear_arith)
            requires
                n > 0,
                n - 1 - s <= n * (COORD_LIMIT as int) + n - 1,
                -n * (COORD_LIMIT as int) <= s,
        ;
        assert((n - 1 - s) / n >= 0) by (nonlinear_arith)
            requires
                n > 0,
                s < 0,
        ;
    }
}


/// The discrete Fréchet coupling value (squared) of the vertex prefixes
/// ending at positions `i` of `as_` and `j` of `bs`: the pair's squared
/// distance, or the best of the three shorter couplings if worse.
pub open spec fn dfrechet(as_: Seq<CoordRep>, bs: Seq<CoordRep>, i: nat, j: nat) -> int
    recommends
        i < as_.len(),
        j < bs.len(),
    decreases i + j,
{
    let d = sqdist(as_[i as int], bs[j as int]);
    if i == 0 && j == 0 {
        d
    } else if i == 0 {
        let p = dfrechet(as_, bs, 0, (j - 1) as nat);
        if d > p {
            d
        } else {
            p
        }
    } else if j == 0 {
        let p = dfrechet(as_, bs, (i - 1) as nat, 0);
        if d > p {
            d
        } else {
            p
        }
    } else {
        let up = dfrechet(as_, bs, (i - 1) as nat, j);
        let diag = dfrechet(as_, bs, (i - 1) as nat, (j - 1) as nat);
        let left = dfrechet(as_, bs, i, (j - 1) as nat);
        let m1 = if up < diag {
            up
        } else {
            diag
        };
        let m = if left < m1 {
            left
        } else {
            m1
        };
        if d > m {
            d
        } else {
            m
        }
    }
}

/// The discrete Fréchet support of two nonempty vertex sequences: the
/// coupling value over both whole sequences.
pub open spec fn frechet_sqdist(as_: Seq<CoordRep>, bs: Seq<CoordRep>) -> int
    recommends
        as_.len() > 0,
        bs.len() > 0,
{
    dfrechet(as_, bs, (as_.len() - 1) as nat, (bs.len() - 1) as nat)
}

/// The discrete Fréchet coupling value, computed exactly by dynamic
/// programming over the two vertex sequences.
#[verifier::loop_isolation(false)]
pub fn frechet_sqdist_exec(va: &Vec<Coord>, vb: &Vec<Coord>) -> (r: i128)
    requires
        va@.len() > 0,
        vb@.len() > 0,
        wf_coords(ring_rep(va@)),
        wf_coords(ring_rep(vb@)),
    ensures
        r == frechet_sqdist(ring_rep(va@), ring_rep(vb@)),
        0 <= r <= 8_000_000_000_000_000_000_000_000,
{
    let ghost ra = ring_rep(va@);
    let ghost rb = ring_rep(vb@);
    let n = vb.len();
    let mut prev: Vec<i128> = Vec::new();
    let mut j: usize = 0;
    while j < n
        invariant
            0 <= j <= n,
            n == vb@.len(),
            prev@.len() == j,
            forall|k: int| 0 <= k < j ==> #[trigger] prev@[k] == dfrechet(ra, rb, 0, k as nat),
            forall|k: int| 0 <= k < j ==> 0 <= #[trigger] prev@[k]
                <= 8_000_000_000_000_000_000_000_000,
        decreases n - j,
    {
        proof {
            assert(ra[0] == va@[0]@);
            assert(rb[j as int] == vb@[j as int]@);
        }
        let d = sqdist_exec(va[0], vb[j]);
        let val: i128 = if j == 0 {
            d
        } else {
            let p = prev[j - 1];
            if d > p {
                d
            } else {
                p
            }
        };
        prev.push(val);
        j = j + 1;
    }
    let mut i: usize = 1;
    while i < va.len()
        invariant
            1 <= i <= va@.len(),
            n == vb@.len(),
            prev@.len() == n,
            forall|k: int| 0 <= k < n ==> #[trigger] prev@[k] == dfrechet(
                ra,
                rb,
                (i - 1) as nat,
                k as nat,
            ),
            forall|k: int| 0 <= k < n ==> 0 <= #[trigger] prev@[k]
                <= 8_000_000_000_000_000_000_000_000,
        decreases va@.len() - i,
    {
        let mut curr: Vec<i128> = Vec::new();
        let mut j2: usize = 0;
        while j2 < n
            invariant
                0 <= j2 <= n,
                1 <= i < va@.len(),
                n == vb@.len(),
                prev@.len() == n,
                curr@.len() == j2,
                forall|k: int| 0 <= k < n ==> #[trigger] prev@[k] == dfrechet(
                    ra,
                    rb,
                    (i - 1) as nat,
                    k as nat,
                ),
                forall|k: int| 0 <= k < n ==> 0 <= #[trigger] prev@[k]
                    <= 8_000_000_000_000_000_000_000_000,
                forall|k: int| 0 <= k < j2 ==> #[trigger] curr@[k] == dfrechet(
                    ra,
                    rb,
                    i as nat,
                    k as nat,
                ),
                forall|k: int| 0 <= k < j2 ==> 0 <= #[trigger] curr@[k]
                    <= 8_000_000_000_000_000_000_000_000,
            decreases n - j2,
        {
            proof {
                assert(ra[i as int] == va@[i as int]@);
                assert(rb[j2 as int] == vb@[j2 as int]@);
            }
            let d = sqdist_exec(va[i], vb[j2]);
            let val: i128 = if j2 == 0 {
                let p = prev[0];
                if d > p {
                    d
                } else {
                    p
                }
            } else {
                let up = prev[j2];
                let diag = prev[j2 - 1];
                let left = curr[j2 - 1];
                let m1 = if up < diag {
                    up
                } else {
                    diag
                };
                let m = if left < m1 {
                    left
                } else {
                    m1
                };
                if d > m {
                    d
                } else {
                    m
                }
            };
            curr.push(val);
            j2 = j2 + 1;
        }
        prev = curr;
        i = i + 1;
    }
    proof {
        assert(prev@[n - 1] == dfrechet(ra, rb, (va@.len() - 1) as nat, (n - 1) as nat));
    }
    prev[n - 1]
}

} // verus!
