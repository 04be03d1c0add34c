//! Normal form and value equality.
//!
//! The engine's normal form orients every polygon ring so that its
//! shoelace sum is nonnegative; nothing else changes. Two geometries are
//! equal exactly when their normal forms are the same value, so equality
//! is insensitive to ring orientation and to nothing else.

use vstd::prelude::*;
use crate::value::{
    Coord, CoordRep, GGeomTypes, GeomData, GeomRep, ShapeData, ShapeRep, polys_rep, ring_rep,
    rings_rep, shapes_rep, wf_ring, shape_kind,
};
use crate::ops::{ring_shoelace, shoelace};

verus! {

/// A ring oriented so that its shoelace sum is nonnegative.
pub open spec fn norm_ring(r: Seq<CoordRep>) -> Seq<CoordRep> {
    if shoelace(r) < 0 {
        r.reverse()
    } else {
        r
    }
}

/// A polygon with every ring oriented.
pub open spec fn norm_poly(p: Seq<Seq<CoordRep>>) -> Seq<Seq<CoordRep>> {
    p.map_values(|r: Seq<CoordRep>| norm_ring(r))
}

/// A shape in normal form: polygon rings oriented, all else unchanged.
pub open spec fn norm_shape(s: ShapeRep) -> ShapeRep {
    match s {
        ShapeRep::Polygon(p) => ShapeRep::Polygon(norm_poly(p)),
        ShapeRep::MultiPolygon(ps) => ShapeRep::MultiPolygon(
            ps.map_values(|p: Seq<Seq<CoordRep>>| norm_poly(p)),
        ),
        _ => s,
    }
}

/// A geometry in normal form.
pub open spec fn norm_geom(g: GeomRep) -> GeomRep {
    match g {
        GeomRep::Shape(s) => GeomRep::Shape(norm_shape(s)),
        GeomRep::Collection(ss) => GeomRep::Collection(
            ss.map_values(|s: ShapeRep| norm_shape(s)),
        ),
    }
}

/// Whether two geometries are the engine's same value: equal normal forms.
pub open spec fn equals_rep(a: GeomRep, b: GeomRep) -> bool {
    norm_geom(a) == norm_geom(b)
}

/// The vertex list reversed.
#[verifier::loop_isolation(false)]
fn reverse_ring(v: &Vec<Coord>) -> (r: Vec<Coord>)
    ensures
        ring_rep(r@) == ring_rep(v@).reverse(),
        r@.len() == v@.len(),
{
    let mut out: Vec<Coord> = Vec::new();
    let mut i: usize = 0;
    while i < v.len()
        invariant
            0 <= i <= v@.len(),
            out@.len() == i,
            forall|j: int| 0 <= j < i ==> out@[j] == v@[v@.len() - 1 - j],
        decreases v@.len() - i,
    {
        out.push(v[v.len() - 1 - i]);
        i = i + 1;
    }
    proof {
        assert(ring_rep(out@) =~= ring_rep(v@).reverse());
    }
    out
}

/// The ring oriented to a nonnegative shoelace sum.
pub fn norm_ring_exec(v: &Vec<Coord>) -> (r: Vec<Coord>)
    requires
        wf_ring(ring_rep(v@)),
    ensures
        ring_rep(r@) == norm_ring(ring_rep(v@)),
        r@.len() == v@.len(),
{
    let s = ring_shoelace(v);
    if s < 0 {
        reverse_ring(v)
    } else {
        crate::value::copy_ring(v)
    }
}

/// The polygon with every ring oriented.
#[verifier::loop_isolation(false)]
pub fn norm_poly_exec(v: &Vec<Vec<Coord>>) -> (r: Vec<Vec<Coord>>)
    requires
        forall|i: int| 0 <= i < v@.len() ==> wf_ring(#[trigger] rings_rep(v@)[i]),
    ensures
        rings_rep(r@) == norm_poly(rings_rep(v@)),
        r@.len() == v@.len(),
{
    let mut out: Vec<Vec<Coord>> = Vec::new();
    let mut i: usize = 0;
    while i < v.len()
        invariant
            0 <= i <= v@.len(),
            out@.len() == i,
            forall|j: int| 0 <= j < i ==> ring_rep(#[trigger] out@[j]@) == norm_ring(
                rings_rep(v@)[j],
            ),
        decreases v@.len() - i,
    {
        proof {
            assert(rings_rep(v@)[i as int] == ring_rep(v@[i as int]@));
        }
        out.push(norm_ring_exec(&v[i]));
        i = i + 1;
    }
    proof {
        assert(rings_rep(out@) =~= norm_poly(rings_rep(v@)));
    }
    out
}

/// The shape in normal form.
#[verifier::loop_isolation(false)]
pub fn norm_shape_exec(s: &ShapeData) -> (r: ShapeData)
    requires
        crate::value::wf_shape(s@),
    ensures
        r@ == norm_shape(s@),
{
    match s {
        ShapeData::Polygon(v) => {
            let r = ShapeData::Polygon(norm_poly_exec(v));
            proof {
                assert(r@ == norm_shape(s@));
            }
            r
        },
        ShapeData::MultiPolygon(v) => {
            let mut out: Vec<Vec<Vec<Coord>>> = Vec::new();
            let mut i: usize = 0;
            while i < v.len()
                invariant
                    0 <= i <= v@.len(),
                    out@.len() == i,
                    forall|j: int| 0 <= j < i ==> rings_rep(#[trigger] out@[j]@) == norm_poly(
                        polys_rep(v@)[j],
                    ),
                decreases v@.len() - i,
            {
                proof {
                    assert(polys_rep(v@)[i as int] == rings_rep(v@[i as int]@));
                }
                out.push(norm_poly_exec(&v[i]));
                i = i + 1;
            }
            proof {
                assert(polys_rep(out@) =~= polys_rep(v@).map_values(
                    |p: Seq<Seq<CoordRep>>| norm_poly(p),
                ));
            }
            ShapeData::MultiPolygon(out)
        },
        ShapeData::Point(c) => ShapeData::Point(*c),
        ShapeData::LineString(v) => ShapeData::LineString(crate::value::copy_ring(v)),
        ShapeData::LinearRing(v) => ShapeData::LinearRing(crate::value::copy_ring(v)),
        ShapeData::MultiPoint(v) => ShapeData::MultiPoint(crate::value::copy_ring(v)),
        ShapeData::MultiLineString(v) => ShapeData::MultiLineString(
            crate::value::copy_rings(v),
        ),
    }
}

/// The geometry in normal form.
#[verifier::loop_isolation(false)]
pub fn norm_geom_exec(g: &GeomData) -> (r: GeomData)
    requires
        crate::value::wf_geom(g@),
    ensures
        r@ == norm_geom(g@),
{
    match g {
        GeomData::Shape(s) => GeomData::Shape(norm_shape_exec(s)),
        GeomData::Collection(v) => {
            let mut out: Vec<ShapeData> = Vec::new();
            let mut i: usize = 0;
            while i < v.len()
                invariant
                    0 <= i <= v@.len(),
                    out@.len() == i,
                    forall|j: int| 0 <= j < i ==> #[trigger] out@[j]@ == norm_shape(
                        shapes_rep(v@)[j],
                    ),
                decreases v@.len() - i,
            {
                proof {
                    assert(shapes_rep(v@)[i as int] == v@[i as int]@);
                }
                out.push(norm_shape_exec(&v[i]));
                i = i + 1;
            }
            proof {
                assert(shapes_rep(out@) =~= shapes_rep(v@).map_values(
                    |s: ShapeRep| norm_shape(s),
                ));
            }
            GeomData::Collection(out)
        },
    }
}

/// Whether two vertex lists are the same sequence of coordinates.
#[verifier::loop_isolation(false)]
pub fn eq_ring(a: &Vec<Coord>, b: &Vec<Coord>) -> (r: bool)
    ensures
        r == (ring_rep(a@) == ring_rep(b@)),
{
    if a.len() != b.len() {
        proof {
            assert(ring_rep(a@).len() != ring_rep(b@).len());
        }
        return false;
    }
    let mut i: usize = 0;
    while i < a.len()
        invariant
            0 <= i <= a@.len(),
            a@.len() == b@.len(),
            forall|j: int| 0 <= j < i ==> ring_rep(a@)[j] == ring_rep(b@)[j],
        decreases a@.len() - i,
    {
        let ca = a[i];
        let cb = b[i];
        if ca.x != cb.x || ca.y != cb.y {
            proof {
                assert(ring_rep(a@)[i as int] != ring_rep(b@)[i as int]);
            }
            return false;
        }
        proof {
            assert(ring_rep(a@)[i as int] == ring_rep(b@)[i as int]);
        }
        i = i + 1;
    }
    proof {
        assert(ring_rep(a@) =~= ring_rep(b@));
    }
    true
}

/// Whether two lists of vertex lists are the same value.
#[verifier::loop_isolation(false)]
pub fn eq_rings(a: &Vec<Vec<Coord>>, b: &Vec<Vec<Coord>>) -> (r: bool)
    ensures
        r == (rings_rep(a@) == rings_rep(b@)),
{
    if a.len() != b.len() {
        proof {
            assert(rings_rep(a@).len() != rings_rep(b@).len());
        }
        return false;
    }
    let mut i: usize = 0;
    while i < a.len()
        invariant
            0 <= i <= a@.len(),
            a@.len() == b@.len(),
            forall|j: int| 0 <= j < i ==> rings_rep(a@)[j] == rings_rep(b@)[j],
        decreases a@.len() - i,
    {
        if !eq_ring(&a[i], &b[i]) {
            proof {
                assert(rings_rep(a@)[i as int] != rings_rep(b@)[i as int]);
            }
            return false;
        }
        proof {
            assert(rings_rep(a@)[i as int] == rings_rep(b@)[i as int]);
        }
        i = i + 1;
    }
    proof {
        assert(rings_rep(a@) =~= rings_rep(b@));
    }
    true
}

/// Whether two lists of polygons are the same value.
#[verifier::loop_isolation(false)]
pub fn eq_polys(a: &Vec<Vec<Vec<Coord>>>, b: &Vec<Vec<Vec<Coord>>>) -> (r: bool)
    ensures
        r == (polys_rep(a@) == polys_rep(b@)),
{
    if a.len() != b.len() {
        proof {
            assert(polys_rep(a@).len() != polys_rep(b@).len());
        }
        return false;
    }
    let mut i: usize = 0;
    while i < a.len()
        invariant
            0 <= i <= a@.len(),
            a@.len() == b@.len(),
            forall|j: int| 0 <= j < i ==> polys_rep(a@)[j] == polys_rep(b@)[j],
        decreases a@.len() - i,
    {
        if !eq_rings(&a[i], &b[i]) {
            proof {
                assert(polys_rep(a@)[i as int] != polys_rep(b@)[i as int]);
            }
            return false;
        }
        proof {
            assert(polys_rep(a@)[i as int] == polys_rep(b@)[i as int]);
        }
        i = i + 1;
    }
    proof {
        assert(polys_rep(a@) =~= polys_rep(b@));
    }
    true
}

/// The kind of a shape, as the engine reports it.
pub fn shape_type(s: &ShapeData) -> (r: GGeomTypes)
    ensures
        r == shape_kind(s@),
{
    match s {
        ShapeData::Point(_) => GGeomTypes::Point,
        ShapeData::LineString(_) => GGeomTypes::LineString,
        ShapeData::LinearRing(_) => GGeomTypes::LinearRing,
        ShapeData::Polygon(_) => GGeomTypes::Polygon,
        ShapeData::MultiPoint(_) => GGeomTypes::MultiPoint,
        ShapeData::MultiLineString(_) => GGeomTypes::MultiLineString,
        ShapeData::MultiPolygon(_) => GGeomTypes::MultiPolygon,
    }
}

/// Whether two shapes are the same value.
pub fn eq_shape(a: &ShapeData, b: &ShapeData) -> (r: bool)
    ensures
        r == (a@ == b@),
{
    if shape_type(a) != shape_type(b) {
        proof {
            assert(a@ != b@);
        }
        return false;
    }
    match a {
        ShapeData::Point(ca) => match b {
            ShapeData::Point(cb) => ca.x == cb.x && ca.y == cb.y,
            _ => false,
        },
        ShapeData::LineString(va) => match b {
            ShapeData::LineString(vb) => eq_ring(va, vb),
            _ => false,
        },
        ShapeData::LinearRing(va) => match b {
            ShapeData::LinearRing(vb) => eq_ring(va, vb),
            _ => false,
        },
        ShapeData::Polygon(va) => match b {
            ShapeData::Polygon(vb) => eq_rings(va, vb),
            _ => false,
        },
        ShapeData::MultiPoint(va) => match b {
            ShapeData::MultiPoint(vb) => eq_ring(va, vb),
            _ => false,
        },
        ShapeData::MultiLineString(va) => match b {
            ShapeData::MultiLineString(vb) => eq_rings(va, vb),
            _ => false,
        },
        ShapeData::MultiPolygon(va) => match b {
            ShapeData::MultiPolygon(vb) => eq_polys(va, vb),
            _ => false,
        },
    }
}

/// Whether two geometry values are the same value.
#[verifier::loop_isolation(false)]
pub fn eq_geom(a: &GeomData, b: &GeomData) -> (r: bool)
    ensures
        r == (a@ == b@),
{
    match a {
        GeomData::Shape(sa) => match b {
            GeomData::Shape(sb) => eq_shape(sa, sb),
            GeomData::Collection(_) => false,
        },
        GeomData::Collection(va) => match b {
            GeomData::Shape(_) => false,
            GeomData::Collection(vb) => {
                if va.len() != vb.len() {
                    proof {
                        assert(shapes_rep(va@).len() != shapes_rep(vb@).len());
                    }
                    return false;
                }
                let mut i: usize = 0;
                while i < va.len()
                    invariant
                        0 <= i <= va@.len(),
                        va@.len() == vb@.len(),
                        forall|j: int| 0 <= j < i ==> shapes_rep(va@)[j] == shapes_rep(vb@)[j],
                    decreases va@.len() - i,
                {
                    if !eq_shape(&va[i], &vb[i]) {
                        proof {
                            assert(shapes_rep(va@)[i as int] != shapes_rep(vb@)[i as int]);
                        }
                        return false;
                    }
                    proof {
                        assert(shapes_rep(va@)[i as int] == shapes_rep(vb@)[i as int]);
                    }
                    i = i + 1;
                }
                proof {
                    assert(shapes_rep(va@) =~= shapes_rep(vb@));
                }
                true
            },
        },
    }
}

} // verus!
