//! The engine's well-known-text form.
//!
//! The writer prints each ordinate as a signed decimal with a fixed
//! number of fraction digits (three by default, fewer under a rounding
//! precision); its output is stated exactly by the printing spec
//! functions here. The reader's grammar is stated exactly by the reading
//! spec functions ([`wkt_parse`] at the top): a kind keyword, one space,
//! then `EMPTY` or a parenthesised coordinate list with `, ` between
//! entries; an ordinate is an optional minus sign, whole digits, and up
//! to three fraction digits. The executable reader is proved to return
//! exactly what [`wkt_parse`] says.

use vstd::prelude::*;
use crate::value::{
    Coord, CoordRep, GeomData, ShapeData, ShapeRep, CAP, COORD_LIMIT, polys_rep, ring_rep,
    rings_rep, shapes_rep,
};

verus! {

/// The decimal digit byte of a value in `0..10`.
pub open spec fn digit(n: nat) -> u8 {
    (48 + n) as u8
}

/// The decimal digit bytes of a whole number, most significant first.
pub open spec fn dec_digits(n: nat) -> Seq<u8>
    decreases n,
{
    if n < 10 {
        seq![digit(n)]
    } else {
        dec_digits(n / 10) + seq![digit(n % 10)]
    }
}

/// The fraction digits of a value in `0..1000`, under a precision of
/// `d` digits (at most three): the leading `d` digits of the three-digit
/// fraction, preceded by the decimal point; nothing when `d` is zero.
pub open spec fn frac_digits(f: nat, d: nat) -> Seq<u8> {
    if d == 0 {
        Seq::empty()
    } else if d == 1 {
        seq![46u8, digit(f / 100)]
    } else if d == 2 {
        seq![46u8, digit(f / 100), digit((f / 10) % 10)]
    } else {
        seq![46u8, digit(f / 100), digit((f / 10) % 10), digit(f % 10)]
    }
}

/// One printed ordinate: optional minus sign, whole part, fraction part.
pub open spec fn num_bytes(u: int, d: nat) -> Seq<u8> {
    let m = if u < 0 {
        -u
    } else {
        u
    };
    let sign: Seq<u8> = if u < 0 {
        seq![45u8]
    } else {
        Seq::empty()
    };
    sign + dec_digits((m / 1000) as nat) + frac_digits((m % 1000) as nat, d)
}

/// One printed coordinate: both ordinates, space separated.
pub open spec fn coord_bytes(c: CoordRep, d: nat) -> Seq<u8> {
    num_bytes(c.x, d) + seq![32u8] + num_bytes(c.y, d)
}

/// A printed coordinate list body: comma-and-space separated.
pub open spec fn coords_bytes(r: Seq<CoordRep>, d: nat) -> Seq<u8>
    decreases r.len(),
{
    if r.len() == 0 {
        Seq::empty()
    } else if r.len() == 1 {
        coord_bytes(r[0], d)
    } else {
        coords_bytes(r.drop_last(), d) + seq![44u8, 32u8] + coord_bytes(r.last(), d)
    }
}

/// A parenthesised coordinate list, or the empty keyword.
pub open spec fn ring_bytes(r: Seq<CoordRep>, d: nat) -> Seq<u8> {
    if r.len() == 0 {
        spec_kw_empty()
    } else {
        seq![40u8] + coords_bytes(r, d) + seq![41u8]
    }
}

/// A printed list of parenthesised coordinate lists.
pub open spec fn rings_bytes(rs: Seq<Seq<CoordRep>>, d: nat) -> Seq<u8>
    decreases rs.len(),
{
    if rs.len() == 0 {
        Seq::empty()
    } else if rs.len() == 1 {
        ring_bytes(rs[0], d)
    } else {
        rings_bytes(rs.drop_last(), d) + seq![44u8, 32u8] + ring_bytes(rs.last(), d)
    }
}

/// A parenthesised list of vertex lists, or the empty keyword.
pub open spec fn rings_group_bytes(rs: Seq<Seq<CoordRep>>, d: nat) -> Seq<u8> {
    if rs.len() == 0 {
        spec_kw_empty()
    } else {
        seq![40u8] + rings_bytes(rs, d) + seq![41u8]
    }
}

/// A printed list of polygon bodies.
pub open spec fn polys_bytes(ps: Seq<Seq<Seq<CoordRep>>>, d: nat) -> Seq<u8>
    decreases ps.len(),
{
    if ps.len() == 0 {
        Seq::empty()
    } else if ps.len() == 1 {
        rings_group_bytes(ps[0], d)
    } else {
        polys_bytes(ps.drop_last(), d) + seq![44u8, 32u8] + rings_group_bytes(ps.last(), d)
    }
}

pub open spec fn spec_kw_empty() -> Seq<u8> {
    seq![69u8, 77u8, 80u8, 84u8, 89u8]
}

pub open spec fn spec_kw(k: crate::value::GGeomTypes) -> Seq<u8> {
    match k {
        crate::value::GGeomTypes::Point => seq![80u8, 79u8, 73u8, 78u8, 84u8],
        crate::value::GGeomTypes::LineString => seq![
            76u8, 73u8, 78u8, 69u8, 83u8, 84u8, 82u8, 73u8, 78u8, 71u8,
        ],
        crate::value::GGeomTypes::LinearRing => seq![
            76u8, 73u8, 78u8, 69u8, 65u8, 82u8, 82u8, 73u8, 78u8, 71u8,
        ],
        crate::value::GGeomTypes::Polygon => seq![80u8, 79u8, 76u8, 89u8, 71u8, 79u8, 78u8],
        crate::value::GGeomTypes::MultiPoint => seq![
            77u8, 85u8, 76u8, 84u8, 73u8, 80u8, 79u8, 73u8, 78u8, 84u8,
        ],
        crate::value::GGeomTypes::MultiLineString => seq![
            77u8, 85u8, 76u8, 84u8, 73u8, 76u8, 73u8, 78u8, 69u8, 83u8, 84u8, 82u8, 73u8, 78u8,
            71u8,
        ],
        crate::value::GGeomTypes::MultiPolygon => seq![
            77u8, 85u8, 76u8, 84u8, 73u8, 80u8, 79u8, 76u8, 89u8, 71u8, 79u8, 78u8,
        ],
        crate::value::GGeomTypes::GeometryCollection => seq![
            71u8, 69u8, 79u8, 77u8, 69u8, 84u8, 82u8, 89u8, 67u8, 79u8, 76u8, 76u8, 69u8, 67u8,
            84u8, 73u8, 79u8, 78u8,
        ],
    }
}

/// The printed text of one shape.
pub open spec fn shape_wkt(s: crate::value::ShapeRep, d: nat) -> Seq<u8> {
    match s {
        crate::value::ShapeRep::Point(c) => spec_kw(crate::value::GGeomTypes::Point) + seq![32u8]
            + seq![40u8] + coord_bytes(c, d) + seq![41u8],
        crate::value::ShapeRep::LineString(r) => spec_kw(crate::value::GGeomTypes::LineString)
            + seq![32u8] + ring_bytes(r, d),
        crate::value::ShapeRep::LinearRing(r) => spec_kw(crate::value::GGeomTypes::LinearRing)
            + seq![32u8] + ring_bytes(r, d),
        crate::value::ShapeRep::Polygon(p) => spec_kw(crate::value::GGeomTypes::Polygon) + seq![
            32u8,
        ] + rings_group_bytes(p, d),
        crate::value::ShapeRep::MultiPoint(r) => spec_kw(crate::value::GGeomTypes::MultiPoint)
            + seq![32u8] + ring_bytes(r, d),
        crate::value::ShapeRep::MultiLineString(rs) => spec_kw(
            crate::value::GGeomTypes::MultiLineString,
        ) + seq![32u8] + rings_group_bytes(rs, d),
        crate::value::ShapeRep::MultiPolygon(ps) => spec_kw(
            crate::value::GGeomTypes::MultiPolygon,
        ) + seq![32u8] + (if ps.len() == 0 {
            spec_kw_empty()
        } else {
            seq![40u8] + polys_bytes(ps, d) + seq![41u8]
        }),
    }
}

/// A printed list of shape texts.
pub open spec fn shapes_wkt(ss: Seq<crate::value::ShapeRep>, d: nat) -> Seq<u8>
    decreases ss.len(),
{
    if ss.len() == 0 {
        Seq::empty()
    } else if ss.len() == 1 {
        shape_wkt(ss[0], d)
    } else {
        shapes_wkt(ss.drop_last(), d) + seq![44u8, 32u8] + shape_wkt(ss.last(), d)
    }
}

/// The printed text of a geometry, under `d` fraction digits.
pub open spec fn geom_wkt(g: crate::value::GeomRep, d: nat) -> Seq<u8> {
    match g {
        crate::value::GeomRep::Shape(s) => shape_wkt(s, d),
        crate::value::GeomRep::Collection(ss) => spec_kw(
            crate::value::GGeomTypes::GeometryCollection,
        ) + seq![32u8] + (if ss.len() == 0 {
            spec_kw_empty()
        } else {
            seq![40u8] + shapes_wkt(ss, d) + seq![41u8]
        }),
    }
}


/// Append a keyword.
fn push_kw(out: &mut Vec<u8>, k: crate::value::GGeomTypes)
    ensures
        final(out)@ == old(out)@ + spec_kw(k),
{
    let ghost base = out@;
    match k {
        crate::value::GGeomTypes::Point => {
            out.push(80);
            out.push(79);
            out.push(73);
            out.push(78);
            out.push(84);
        },
        crate::value::GGeomTypes::LineString => {
            out.push(76);
            out.push(73);
            out.push(78);
            out.push(69);
            out.push(83);
            out.push(84);
            out.push(82);
            out.push(73);
            out.push(78);
            out.push(71);
        },
        crate::value::GGeomTypes::LinearRing => {
            out.push(76);
            out.push(73);
            out.push(78);
            out.push(69);
            out.push(65);
            out.push(82);
            out.push(82);
            out.push(73);
            out.push(78);
            out.push(71);
        },
        crate::value::GGeomTypes::Polygon => {
            out.push(80);
            out.push(79);
            out.push(76);
            out.push(89);
            out.push(71);
            out.push(79);
            out.push(78);
        },
        crate::value::GGeomTypes::MultiPoint => {
            out.push(77);
            out.push(85);
            out.push(76);
            out.push(84);
            out.push(73);
            out.push(80);
            out.push(79);
            out.push(73);
            out.push(78);
            out.push(84);
        },
        crate::value::GGeomTypes::MultiLineString => {
            out.push(77);
            out.push(85);
            out.push(76);
            out.push(84);
            out.push(73);
            out.push(76);
            out.push(73);
            out.push(78);
            out.push(69);
            out.push(83);
            out.push(84);
            out.push(82);
            out.push(73);
            out.push(78);
            out.push(71);
        },
        crate::value::GGeomTypes::MultiPolygon => {
            out.push(77);
            out.push(85);
            out.push(76);
            out.push(84);
            out.push(73);
            out.push(80);
            out.push(79);
            out.push(76);
            out.push(89);
            out.push(71);
            out.push(79);
            out.push(78);
        },
        crate::value::GGeomTypes::GeometryCollection => {
            out.push(71);
            out.push(69);
            out.push(79);
            out.push(77);
            out.push(69);
            out.push(84);
            out.push(82);
            out.push(89);
            out.push(67);
            out.push(79);
            out.push(76);
            out.push(76);
            out.push(69);
            out.push(67);
            out.push(84);
            out.push(73);
            out.push(79);
            out.push(78);
        },
    }
    proof {
        assert(out@ =~= base + spec_kw(k));
    }
}

/// Append the empty keyword.
fn push_kw_empty(out: &mut Vec<u8>)
    ensures
        final(out)@ == old(out)@ + spec_kw_empty(),
{
    let ghost base = out@;
    out.push(69);
    out.push(77);
    out.push(80);
    out.push(84);
    out.push(89);
    proof {
        assert(out@ =~= base + spec_kw_empty());
    }
}

/// Append the decimal digits of a whole number.
fn push_dec(out: &mut Vec<u8>, n: u64)
    ensures
        final(out)@ == old(out)@ + dec_digits(n as nat),
    decreases n,
{
    let ghost base = out@;
    if n < 10 {
        out.push(48 + (n as u8));
        proof {
            assert(out@ =~= base + dec_digits(n as nat));
        }
    } else {
        push_dec(out, n / 10);
        out.push(48 + ((n % 10) as u8));
        proof {
            assert(out@ =~= base + (dec_digits((n as nat) / 10) + seq![digit((n as nat) % 10)]));
        }
    }
}

/// Append one printed ordinate under `d` fraction digits.
fn push_num(out: &mut Vec<u8>, u: i64, d: usize)
    requires
        -COORD_LIMIT <= u <= COORD_LIMIT,
        d <= 3,
    ensures
        final(out)@ == old(out)@ + num_bytes(u as int, d as nat),
{
    let ghost base = out@;
    let m: u64 = if u < 0 {
        (-(u as i128)) as u64
    } else {
        u as u64
    };
    if u < 0 {
        out.push(45);
    }
    push_dec(out, m / 1000);
    let f = (m % 1000) as u64;
    let ghost fr = (f as nat);
    if d >= 1 {
        out.push(46);
        out.push(48 + ((f / 100) as u8));
        if d >= 2 {
            out.push(48 + (((f / 10) % 10) as u8));
            if d >= 3 {
                out.push(48 + ((f % 10) as u8));
            }
        }
    }
    proof {
        assert(out@ =~= base + num_bytes(u as int, d as nat));
    }
}

/// Append one printed coordinate.
fn push_coord(out: &mut Vec<u8>, c: Coord, d: usize)
    requires
        crate::value::wf_coord(c@),
        d <= 3,
    ensures
        final(out)@ == old(out)@ + coord_bytes(c@, d as nat),
{
    let ghost base = out@;
    push_num(out, c.x, d);
    out.push(32);
    push_num(out, c.y, d);
    proof {
        assert(out@ =~= base + coord_bytes(c@, d as nat));
    }
}

/// Append a printed coordinate list body.
#[verifier::loop_isolation(false)]
fn push_coords(out: &mut Vec<u8>, v: &Vec<Coord>, d: usize)
    requires
        crate::ops::wf_coords(ring_rep(v@)),
        d <= 3,
    ensures
        final(out)@ == old(out)@ + coords_bytes(ring_rep(v@), d as nat),
{
    let ghost base = out@;
    let ghost rr = ring_rep(v@);
    let mut i: usize = 0;
    while i < v.len()
        invariant
            0 <= i <= v@.len(),
            out@ == base + coords_bytes(rr.take(i as int), d as nat),
        decreases v@.len() - i,
    {
        proof {
            assert(rr[i as int] == v@[i as int]@);
        }
        if i > 0 {
            out.push(44);
            out.push(32);
        }
        push_coord(out, v[i], d);
        proof {
            let t = rr.take(i as int + 1);
            assert(t.drop_last() =~= rr.take(i as int));
            assert(t.last() == rr[i as int]);
            if i == 0 {
                assert(t.len() == 1);
                assert(base + coords_bytes(rr.take(0), d as nat) =~= base);
                assert(out@ =~= base + coords_bytes(t, d as nat));
            } else {
                assert(out@ =~= base + (coords_bytes(rr.take(i as int), d as nat) + seq![
                    44u8, 32u8,
                ] + coord_bytes(rr[i as int], d as nat)));
                assert(base + (coords_bytes(rr.take(i as int), d as nat) + seq![44u8, 32u8]
                    + coord_bytes(rr[i as int], d as nat)) =~= base + coords_bytes(t, d as nat));
            }
        }
        i = i + 1;
    }
    proof {
        assert(rr.take(v@.len() as int) =~= rr);
    }
}

/// Append a parenthesised coordinate list, or the empty keyword.
fn push_ring(out: &mut Vec<u8>, v: &Vec<Coord>, d: usize)
    requires
        crate::ops::wf_coords(ring_rep(v@)),
        d <= 3,
    ensures
        final(out)@ == old(out)@ + ring_bytes(ring_rep(v@), d as nat),
{
    let ghost base = out@;
    if v.len() == 0 {
        push_kw_empty(out);
        proof {
            assert(out@ =~= base + ring_bytes(ring_rep(v@), d as nat));
        }
    } else {
        out.push(40);
        push_coords(out, v, d);
        out.push(41);
        proof {
            assert(out@ =~= base + ring_bytes(ring_rep(v@), d as nat));
        }
    }
}

/// Append a parenthesised list of vertex lists, or the empty keyword.
#[verifier::loop_isolation(false)]
fn push_rings_group(out: &mut Vec<u8>, v: &Vec<Vec<Coord>>, d: usize)
    requires
        forall|i: int| 0 <= i < v@.len() ==> crate::ops::wf_coords(#[trigger] rings_rep(v@)[i]),
        d <= 3,
    ensures
        final(out)@ == old(out)@ + rings_group_bytes(rings_rep(v@), d as nat),
{
    let ghost base = out@;
    let ghost rs = rings_rep(v@);
    if v.len() == 0 {
        push_kw_empty(out);
        proof {
            assert(out@ =~= base + rings_group_bytes(rs, d as nat));
        }
        return;
    }
    out.push(40);
    let mut i: usize = 0;
    while i < v.len()
        invariant
            0 <= i <= v@.len(),
            out@ == base + seq![40u8] + rings_bytes(rs.take(i as int), d as nat),
        decreases v@.len() - i,
    {
        proof {
            assert(rs[i as int] == ring_rep(v@[i as int]@));
        }
        if i > 0 {
            out.push(44);
            out.push(32);
        }
        push_ring(out, &v[i], d);
        proof {
            let t = rs.take(i as int + 1);
            assert(t.drop_last() =~= rs.take(i as int));
            assert(t.last() == rs[i as int]);
            if i == 0 {
                assert(t.len() == 1);
                assert(out@ =~= base + seq![40u8] + rings_bytes(t, d as nat));
            } else {
                assert(out@ =~= (base + seq![40u8]) + (rings_bytes(rs.take(i as int), d as nat)
                    + seq![44u8, 32u8] + ring_bytes(rs[i as int], d as nat)));
                assert((base + seq![40u8]) + (rings_bytes(rs.take(i as int), d as nat) + seq![
                    44u8, 32u8,
                ] + ring_bytes(rs[i as int], d as nat)) =~= base + seq![40u8] + rings_bytes(
                    t,
                    d as nat,
                ));
            }
        }
        i = i + 1;
    }
    out.push(41);
    proof {
        assert(rs.take(v@.len() as int) =~= rs);
        assert(out@ =~= base + rings_group_bytes(rs, d as nat));
    }
}

/// Append one printed shape.
#[verifier::loop_isolation(false)]
fn push_shape(out: &mut Vec<u8>, s: &ShapeData, d: usize)
    requires
        crate::value::wf_shape(s@),
        d <= 3,
    ensures
        final(out)@ == old(out)@ + shape_wkt(s@, d as nat),
{
    let ghost base = out@;
    match s {
        ShapeData::Point(c) => {
            push_kw(out, crate::value::GGeomTypes::Point);
            out.push(32);
            out.push(40);
            push_coord(out, *c, d);
            out.push(41);
            proof {
                assert(out@ =~= base + shape_wkt(s@, d as nat));
            }
        },
        ShapeData::LineString(v) => {
            push_kw(out, crate::value::GGeomTypes::LineString);
            out.push(32);
            push_ring(out, v, d);
            proof {
                assert(out@ =~= base + shape_wkt(s@, d as nat));
            }
        },
        ShapeData::LinearRing(v) => {
            push_kw(out, crate::value::GGeomTypes::LinearRing);
            out.push(32);
            push_ring(out, v, d);
            proof {
                assert(out@ =~= base + shape_wkt(s@, d as nat));
            }
        },
        ShapeData::Polygon(v) => {
            push_kw(out, crate::value::GGeomTypes::Polygon);
            out.push(32);
            push_rings_group(out, v, d);
            proof {
                assert(out@ =~= base + shape_wkt(s@, d as nat));
            }
        },
        ShapeData::MultiPoint(v) => {
            push_kw(out, crate::value::GGeomTypes::MultiPoint);
            out.push(32);
            push_ring(out, v, d);
            proof {
                assert(out@ =~= base + shape_wkt(s@, d as nat));
            }
        },
        ShapeData::MultiLineString(v) => {
            push_kw(out, crate::value::GGeomTypes::MultiLineString);
            out.push(32);
            push_rings_group(out, v, d);
            proof {
                assert(out@ =~= base + shape_wkt(s@, d as nat));
            }
        },
        ShapeData::MultiPolygon(v) => {
            push_kw(out, crate::value::GGeomTypes::MultiPolygon);
            out.push(32);
            let ghost ps = polys_rep(v@);
            if v.len() == 0 {
                push_kw_empty(out);
                proof {
                    assert(out@ =~= base + shape_wkt(s@, d as nat));
                }
                return;
            }
            out.push(40);
            let ghost mid = out@;
            let mut i: usize = 0;
            while i < v.len()
                invariant
                    0 <= i <= v@.len(),
                    out@ == mid + polys_bytes(ps.take(i as int), d as nat),
                decreases v@.len() - i,
            {
                proof {
                    assert(ps[i as int] == rings_rep(v@[i as int]@));
                }
                if i > 0 {
                    out.push(44);
                    out.push(32);
                }
                push_rings_group(out, &v[i], d);
                proof {
                    let t = ps.take(i as int + 1);
                    assert(t.drop_last() =~= ps.take(i as int));
                    assert(t.last() == ps[i as int]);
                    if i == 0 {
                        assert(t.len() == 1);
                        assert(out@ =~= mid + polys_bytes(t, d as nat));
                    } else {
                        assert(out@ =~= mid + (polys_bytes(ps.take(i as int), d as nat) + seq![
                            44u8, 32u8,
                        ] + rings_group_bytes(ps[i as int], d as nat)));
                        assert(mid + (polys_bytes(ps.take(i as int), d as nat) + seq![44u8, 32u8]
                            + rings_group_bytes(ps[i as int], d as nat)) =~= mid + polys_bytes(
                            t,
                            d as nat,
                        ));
                    }
                }
                i = i + 1;
            }
            out.push(41);
            proof {
                assert(ps.take(v@.len() as int) =~= ps);
                assert(out@ =~= base + shape_wkt(s@, d as nat));
            }
        },
    }
}

/// The printed text of a geometry value, as bytes.
#[verifier::loop_isolation(false)]
pub(crate) fn geom_wkt_exec(g: &GeomData, d: usize) -> (r: Vec<u8>)
    requires
        crate::value::wf_geom(g@),
        d <= 3,
    ensures
        r@ == geom_wkt(g@, d as nat),
{
    let mut out: Vec<u8> = Vec::new();
    match g {
        GeomData::Shape(s) => {
            push_shape(&mut out, s, d);
            proof {
                assert(out@ =~= geom_wkt(g@, d as nat));
            }
        },
        GeomData::Collection(v) => {
            push_kw(&mut out, crate::value::GGeomTypes::GeometryCollection);
            out.push(32);
            let ghost ss = shapes_rep(v@);
            if v.len() == 0 {
                push_kw_empty(&mut out);
                proof {
                    assert(out@ =~= geom_wkt(g@, d as nat));
                }
                return out;
            }
            out.push(40);
            let ghost mid = out@;
            let mut i: usize = 0;
            while i < v.len()
                invariant
                    0 <= i <= v@.len(),
                    out@ == mid + shapes_wkt(ss.take(i as int), d as nat),
                decreases v@.len() - i,
            {
                proof {
                    assert(ss[i as int] == v@[i as int]@);
                }
                if i > 0 {
                    out.push(44);
                    out.push(32);
                }
                push_shape(&mut out, &v[i], d);
                proof {
                    let t = ss.take(i as int + 1);
                    assert(t.drop_last() =~= ss.take(i as int));
                    assert(t.last() == ss[i as int]);
                    if i == 0 {
                        assert(t.len() == 1);
                        assert(out@ =~= mid + shapes_wkt(t, d as nat));
                    } else {
                        assert(out@ =~= mid + (shapes_wkt(ss.take(i as int), d as nat) + seq![
                            44u8, 32u8,
                        ] + shape_wkt(ss[i as int], d as nat)));
                        assert(mid + (shapes_wkt(ss.take(i as int), d as nat) + seq![44u8, 32u8]
                            + shape_wkt(ss[i as int], d as nat)) =~= mid + shapes_wkt(
                            t,
                            d as nat,
                        ));
                    }
                }
                i = i + 1;
            }
            out.push(41);
            proof {
                assert(ss.take(v@.len() as int) =~= ss);
                assert(out@ =~= geom_wkt(g@, d as nat));
            }
        },
    }
    out
}

/// Relies on `String::push`: pushing one character per byte yields the
/// string whose characters are exactly those bytes, in order.
#[verifier::external_body]
pub(crate) fn bytes_to_string(b: &Vec<u8>) -> (r: String)
    ensures
        r@ == b@.map_values(|x: u8| x as char),
{
    let mut s = String::new();
    let mut i: usize = 0;
    while i < b.len() {
        s.push(b[i] as char);
        i += 1;
    }
    s
}


/// Whether the keyword sits at `pos`.
pub open spec fn kw_at(b: Seq<u8>, pos: int, kw: Seq<u8>) -> bool {
    0 <= pos && pos + kw.len() <= b.len() && b.subrange(pos, pos + kw.len()) == kw
}

/// Whether the byte is a decimal digit.
pub open spec fn is_digit(c: u8) -> bool {
    48 <= c <= 57
}

/// Read decimal digits at `pos` onto the accumulator; more than nine
/// whole digits exceed the engine's coordinate range and reject.
pub open spec fn p_digits(b: Seq<u8>, pos: int, acc: int) -> Option<(int, int)>
    decreases b.len() - pos,
{
    if 0 <= pos < b.len() && is_digit(b[pos]) {
        if acc > 999_999_999 {
            None
        } else {
            p_digits(b, pos + 1, acc * 10 + (b[pos] - 48))
        }
    } else {
        Some((acc, pos))
    }
}

/// Read one signed fixed-point ordinate at `pos`: an optional minus
/// sign, whole digits, optionally a point and one to three fraction
/// digits. The value is in scalar units.
pub open spec fn p_num(b: Seq<u8>, pos: int) -> Option<(int, int)> {
    let neg = 0 <= pos < b.len() && b[pos] == 45;
    let p1 = if neg {
        pos + 1
    } else {
        pos
    };
    if !(0 <= p1 < b.len() && is_digit(b[p1])) {
        None
    } else {
        match p_digits(b, p1, 0) {
            None => None,
            Some((whole, p2)) => {
                if p2 < b.len() && b[p2] == 46 {
                    if !(p2 + 1 < b.len() && is_digit(b[p2 + 1])) {
                        None
                    } else {
                        let f1 = (b[p2 + 1] - 48) as int;
                        if p2 + 2 < b.len() && is_digit(b[p2 + 2]) {
                            let f2 = (b[p2 + 2] - 48) as int;
                            if p2 + 3 < b.len() && is_digit(b[p2 + 3]) {
                                let f3 = (b[p2 + 3] - 48) as int;
                                if p2 + 4 < b.len() && is_digit(b[p2 + 4]) {
                                    None
                                } else {
                                    let u = whole * 1000 + f1 * 100 + f2 * 10 + f3;
                                    Some(
                                        (
                                            if neg {
                                                -u
                                            } else {
                                                u
                                            },
                                            p2 + 4,
                                        ),
                                    )
                                }
                            } else {
                                let u = whole * 1000 + f1 * 100 + f2 * 10;
                                Some(
                                    (
                                        if neg {
                                            -u
                                        } else {
                                            u
                                        },
                                        p2 + 3,
                                    ),
                                )
                            }
                        } else {
                            let u = whole * 1000 + f1 * 100;
                            Some(
                                (
                                    if neg {
                                        -u
                                    } else {
                                        u
                                    },
                                    p2 + 2,
                                ),
                            )
                        }
                    }
                } else {
                    let u = whole * 1000;
                    Some(
                        (
                            if neg {
                                -u
                            } else {
                                u
                            },
                            p2,
                        ),
                    )
                }
            },
        }
    }
}

/// Read one coordinate at `pos`: two ordinates, one space between.
pub open spec fn p_coord(b: Seq<u8>, pos: int) -> Option<(CoordRep, int)> {
    match p_num(b, pos) {
        None => None,
        Some((x, p1)) => {
            if p1 < b.len() && b[p1] == 32 {
                match p_num(b, p1 + 1) {
                    None => None,
                    Some((y, p2)) => Some((CoordRep { x: x, y: y }, p2)),
                }
            } else {
                None
            }
        },
    }
}

/// Read the remaining coordinates of a list: each preceded by a comma
/// and a space.
pub open spec fn p_coords_rest(b: Seq<u8>, pos: int) -> Option<(Seq<CoordRep>, int)>
    decreases b.len() - pos,
{
    if 0 <= pos && pos + 2 <= b.len() && b[pos] == 44 && b[pos + 1] == 32 {
        match p_coord(b, pos + 2) {
            None => None,
            Some((c, e)) => {
                if pos + 2 < e <= b.len() {
                    match p_coords_rest(b, e) {
                        None => None,
                        Some((rest, end)) => Some((seq![c] + rest, end)),
                    }
                } else {
                    None
                }
            },
        }
    } else {
        Some((Seq::empty(), pos))
    }
}

/// Read a coordinate list group at `pos`: the empty keyword, or a
/// parenthesised comma-separated list of at most the engine's cap.
pub open spec fn p_ring(b: Seq<u8>, pos: int) -> Option<(Seq<CoordRep>, int)> {
    if kw_at(b, pos, spec_kw_empty()) {
        Some((Seq::empty(), pos + 5))
    } else if 0 <= pos < b.len() && b[pos] == 40 {
        match p_coord(b, pos + 1) {
            None => None,
            Some((c, e)) => {
                if pos + 1 < e <= b.len() {
                    match p_coords_rest(b, e) {
                        None => None,
                        Some((rest, e2)) => {
                            if e2 < b.len() && b[e2] == 41 {
                                let r = seq![c] + rest;
                                if r.len() <= CAP as int {
                                    Some((r, e2 + 1))
                                } else {
                                    None
                                }
                            } else {
                                None
                            }
                        },
                    }
                } else {
                    None
                }
            },
        }
    } else {
        None
    }
}

/// Read the remaining coordinate list groups of a list of lists.
pub open spec fn p_rings_rest(b: Seq<u8>, pos: int) -> Option<(Seq<Seq<CoordRep>>, int)>
    decreases b.len() - pos,
{
    if 0 <= pos && pos + 2 <= b.len() && b[pos] == 44 && b[pos + 1] == 32 {
        match p_ring(b, pos + 2) {
            None => None,
            Some((r, e)) => {
                if pos + 2 < e <= b.len() {
                    match p_rings_rest(b, e) {
                        None => None,
                        Some((rest, end)) => Some((seq![r] + rest, end)),
                    }
                } else {
                    None
                }
            },
        }
    } else {
        Some((Seq::empty(), pos))
    }
}

/// Read a group of coordinate list groups at `pos`: the empty keyword,
/// or a parenthesised comma-separated list of at most the engine's cap.
pub open spec fn p_rings(b: Seq<u8>, pos: int) -> Option<(Seq<Seq<CoordRep>>, int)> {
    if kw_at(b, pos, spec_kw_empty()) {
        Some((Seq::empty(), pos + 5))
    } else if 0 <= pos < b.len() && b[pos] == 40 {
        match p_ring(b, pos + 1) {
            None => None,
            Some((r, e)) => {
                if pos + 1 < e <= b.len() {
                    match p_rings_rest(b, e) {
                        None => None,
                        Some((rest, e2)) => {
                            if e2 < b.len() && b[e2] == 41 {
                                let rs = seq![r] + rest;
                                if rs.len() <= CAP as int {
                                    Some((rs, e2 + 1))
                                } else {
                                    None
                                }
                            } else {
                                None
                            }
                        },
                    }
                } else {
                    None
                }
            },
        }
    } else {
        None
    }
}

/// Read the remaining polygon bodies of a multi polygon.
pub open spec fn p_polys_rest(b: Seq<u8>, pos: int) -> Option<(Seq<Seq<Seq<CoordRep>>>, int)>
    decreases b.len() - pos,
{
    if 0 <= pos && pos + 2 <= b.len() && b[pos] == 44 && b[pos + 1] == 32 {
        match p_rings(b, pos + 2) {
            None => None,
            Some((p, e)) => {
                if p.len() >= 1 && pos + 2 < e <= b.len() {
                    match p_polys_rest(b, e) {
                        None => None,
                        Some((rest, end)) => Some((seq![p] + rest, end)),
                    }
                } else {
                    None
                }
            },
        }
    } else {
        Some((Seq::empty(), pos))
    }
}

/// Read one shape at `pos`: its keyword, one space, then its body; the
/// longer keywords are matched before their prefixes.
pub open spec fn p_shape(b: Seq<u8>, pos: int) -> Option<(ShapeRep, int)> {
    if kw_at(b, pos, spec_kw(crate::value::GGeomTypes::MultiPolygon)) {
        let q = pos + 12;
        if q < b.len() && b[q] == 32 {
            if kw_at(b, q + 1, spec_kw_empty()) {
                Some((ShapeRep::MultiPolygon(Seq::empty()), q + 6))
            } else if q + 1 < b.len() && b[q + 1] == 40 {
                match p_rings(b, q + 2) {
                    None => None,
                    Some((p, e)) => {
                        if p.len() >= 1 && q + 2 < e <= b.len() {
                            match p_polys_rest(b, e) {
                                None => None,
                                Some((rest, e2)) => {
                                    if e2 < b.len() && b[e2] == 41 {
                                        let ps = seq![p] + rest;
                                        if ps.len() <= CAP as int {
                                            Some((ShapeRep::MultiPolygon(ps), e2 + 1))
                                        } else {
                                            None
                                        }
                                    } else {
                                        None
                                    }
                                },
                            }
                        } else {
                            None
                        }
                    },
                }
            } else {
                None
            }
        } else {
            None
        }
    } else if kw_at(b, pos, spec_kw(crate::value::GGeomTypes::MultiLineString)) {
        let q = pos + 15;
        if q < b.len() && b[q] == 32 {
            match p_rings(b, q + 1) {
                None => None,
                Some((rs, e)) => Some((ShapeRep::MultiLineString(rs), e)),
            }
        } else {
            None
        }
    } else if kw_at(b, pos, spec_kw(crate::value::GGeomTypes::MultiPoint)) {
        let q = pos + 10;
        if q < b.len() && b[q] == 32 {
            match p_ring(b, q + 1) {
                None => None,
                Some((r, e)) => Some((ShapeRep::MultiPoint(r), e)),
            }
        } else {
            None
        }
    } else if kw_at(b, pos, spec_kw(crate::value::GGeomTypes::LineString)) {
        let q = pos + 10;
        if q < b.len() && b[q] == 32 {
            match p_ring(b, q + 1) {
                None => None,
                Some((r, e)) => Some((ShapeRep::LineString(r), e)),
            }
        } else {
            None
        }
    } else if kw_at(b, pos, spec_kw(crate::value::GGeomTypes::LinearRing)) {
        let q = pos + 10;
        if q < b.len() && b[q] == 32 {
            match p_ring(b, q + 1) {
                None => None,
                Some((r, e)) => Some((ShapeRep::LinearRing(r), e)),
            }
        } else {
            None
        }
    } else if kw_at(b, pos, spec_kw(crate::value::GGeomTypes::Polygon)) {
        let q = pos + 7;
        if q < b.len() && b[q] == 32 {
            match p_rings(b, q + 1) {
                None => None,
                Some((rs, e)) => {
                    if rs.len() >= 1 {
                        Some((ShapeRep::Polygon(rs), e))
                    } else {
                        None
                    }
                },
            }
        } else {
            None
        }
    } else if kw_at(b, pos, spec_kw(crate::value::GGeomTypes::Point)) {
        let q = pos + 5;
        if q + 1 < b.len() && b[q] == 32 && b[q + 1] == 40 {
            match p_coord(b, q + 2) {
                None => None,
                Some((c, e)) => {
                    if e < b.len() && b[e] == 41 {
                        Some((ShapeRep::Point(c), e + 1))
                    } else {
                        None
                    }
                },
            }
        } else {
            None
        }
    } else {
        None
    }
}

/// Read the remaining shapes of a collection.
pub open spec fn p_shapes_rest(b: Seq<u8>, pos: int) -> Option<(Seq<ShapeRep>, int)>
    decreases b.len() - pos,
{
    if 0 <= pos && pos + 2 <= b.len() && b[pos] == 44 && b[pos + 1] == 32 {
        match p_shape(b, pos + 2) {
            None => None,
            Some((s, e)) => {
                if pos + 2 < e <= b.len() {
                    match p_shapes_rest(b, e) {
                        None => None,
                        Some((rest, end)) => Some((seq![s] + rest, end)),
                    }
                } else {
                    None
                }
            },
        }
    } else {
        Some((Seq::empty(), pos))
    }
}

/// What a whole text parses to: one shape, or a collection of shapes,
/// consuming every byte.
pub open spec fn wkt_parse(b: Seq<u8>) -> Option<crate::value::GeomRep> {
    if kw_at(b, 0, spec_kw(crate::value::GGeomTypes::GeometryCollection)) {
        let q = 18int;
        if q < b.len() && b[q] == 32 {
            if kw_at(b, q + 1, spec_kw_empty()) && q + 6 == b.len() {
                Some(crate::value::GeomRep::Collection(Seq::empty()))
            } else if q + 1 < b.len() && b[q + 1] == 40 {
                match p_shape(b, q + 2) {
                    None => None,
                    Some((s, e)) => {
                        if q + 2 < e <= b.len() {
                            match p_shapes_rest(b, e) {
                                None => None,
                                Some((rest, e2)) => {
                                    if e2 < b.len() && e2 + 1 == b.len() && b[e2] == 41 {
                                        let ss = seq![s] + rest;
                                        if ss.len() <= CAP as int {
                                            Some(crate::value::GeomRep::Collection(ss))
                                        } else {
                                            None
                                        }
                                    } else {
                                        None
                                    }
                                },
                            }
                        } else {
                            None
                        }
                    },
                }
            } else {
                None
            }
        } else {
            None
        }
    } else {
        match p_shape(b, 0) {
            None => None,
            Some((s, e)) => {
                if e == b.len() {
                    Some(crate::value::GeomRep::Shape(s))
                } else {
                    None
                }
            },
        }
    }
}

/// The byte form of a kind keyword.
fn kw_bytes(k: crate::value::GGeomTypes) -> (r: Vec<u8>)
    ensures
        r@ == spec_kw(k),
{
    let mut v: Vec<u8> = Vec::new();
    push_kw(&mut v, k);
    proof {
        assert(v@ =~= spec_kw(k));
    }
    v
}

/// The byte form of the empty keyword.
fn kw_empty_bytes() -> (r: Vec<u8>)
    ensures
        r@ == spec_kw_empty(),
{
    let mut v: Vec<u8> = Vec::new();
    push_kw_empty(&mut v);
    proof {
        assert(v@ =~= spec_kw_empty());
    }
    v
}

/// Whether the keyword sits at `pos`, and the position after it, exactly
/// as the spec reader sees it.
#[verifier::loop_isolation(false)]
fn eat_kw(b: &Vec<u8>, pos: usize, kw: &Vec<u8>) -> (r: Option<usize>)
    ensures
        kw_at(b@, pos as int, kw@) ==> r == Some((pos + kw@.len()) as usize),
        !kw_at(b@, pos as int, kw@) ==> r is None,
{
    let n = kw.len();
    let blen = b.len();
    if !(pos <= blen && blen - pos >= n) {
        return None;
    }
    let mut i: usize = 0;
    while i < n
        invariant
            0 <= i <= n,
            pos + n <= blen,
            blen == b@.len(),
            n == kw@.len(),
            forall|j: int| 0 <= j < i ==> b@[pos + j] == kw@[j],
        decreases n - i,
    {
        let c = kw[i];
        if b[pos + i] != c {
            proof {
                if kw_at(b@, pos as int, kw@) {
                    assert(b@.subrange(pos as int, pos + kw@.len())[i as int] == b@[pos + i]);
                }
            }
            return None;
        }
        i = i + 1;
    }
    proof {
        assert(b@.subrange(pos as int, pos + kw@.len()) =~= kw@);
    }
    Some(pos + n)
}

/// Read decimal digits onto the accumulator, as the spec reader does.
#[verifier::loop_isolation(false)]
fn parse_digits(b: &Vec<u8>, pos: usize, acc: i64) -> (r: Option<(i64, usize)>)
    requires
        pos <= b@.len(),
        0 <= acc <= 9_999_999_999,
    ensures
        r matches Some((v, end)) ==> p_digits(b@, pos as int, acc as int) == Some(
            (v as int, end as int),
        ) && 0 <= v <= 9_999_999_999 && pos <= end <= b@.len(),
        r is None ==> p_digits(b@, pos as int, acc as int) is None,
{
    let ghost pos0 = pos as int;
    let ghost acc0 = acc as int;
    let mut p = pos;
    let mut a = acc;
    while p < b.len() && 48 <= b[p] && b[p] <= 57
        invariant
            pos <= p <= b@.len(),
            0 <= a <= 9_999_999_999,
            p_digits(b@, pos0, acc0) == p_digits(b@, p as int, a as int),
        decreases b@.len() - p,
    {
        if a > 999_999_999 {
            return None;
        }
        a = a * 10 + ((b[p] - 48) as i64);
        p = p + 1;
    }
    Some((a, p))
}

/// Read one signed fixed-point ordinate, as the spec reader does.
fn parse_num(b: &Vec<u8>, pos: usize) -> (r: Option<(i64, usize)>)
    ensures
        r matches Some((u, end)) ==> p_num(b@, pos as int) == Some((u as int, end as int)) && pos
            <= end <= b@.len(),
        r is None ==> p_num(b@, pos as int) is None,
{
    let mut neg = false;
    let mut p1 = pos;
    if pos < b.len() && b[pos] == 45 {
        neg = true;
        p1 = pos + 1;
    }
    if !(p1 < b.len() && 48 <= b[p1] && b[p1] <= 57) {
        return None;
    }
    match parse_digits(b, p1, 0) {
        None => None,
        Some((whole, p2)) => {
            if p2 < b.len() && b[p2] == 46 {
                if !(p2 + 1 < b.len() && 48 <= b[p2 + 1] && b[p2 + 1] <= 57) {
                    return None;
                }
                let f1 = ((b[p2 + 1] - 48) as i64);
                if p2 + 2 < b.len() && 48 <= b[p2 + 2] && b[p2 + 2] <= 57 {
                    let f2 = ((b[p2 + 2] - 48) as i64);
                    if p2 + 3 < b.len() && 48 <= b[p2 + 3] && b[p2 + 3] <= 57 {
                        let f3 = ((b[p2 + 3] - 48) as i64);
                        if p2 + 4 < b.len() && 48 <= b[p2 + 4] && b[p2 + 4] <= 57 {
                            None
                        } else {
                            let u = whole * 1000 + f1 * 100 + f2 * 10 + f3;
                            Some(
                                (
                                    if neg {
                                        -u
                                    } else {
                                        u
                                    },
                                    p2 + 4,
                                ),
                            )
                        }
                    } else {
                        let u = whole * 1000 + f1 * 100 + f2 * 10;
                        Some(
                            (
                                if neg {
                                    -u
                                } else {
                                    u
                                },
                                p2 + 3,
                            ),
                        )
                    }
                } else {
                    let u = whole * 1000 + f1 * 100;
                    Some(
                        (
                            if neg {
                                -u
                            } else {
                                u
                            },
                            p2 + 2,
                        ),
                    )
                }
            } else {
                let u = whole * 1000;
                Some(
                    (
                        if neg {
                            -u
                        } else {
                            u
                        },
                        p2,
                    ),
                )
            }
        },
    }
}

/// Read one coordinate, as the spec reader does.
fn parse_coord(b: &Vec<u8>, pos: usize) -> (r: Option<(Coord, usize)>)
    ensures
        r matches Some((c, end)) ==> p_coord(b@, pos as int) == Some((c@, end as int)) && pos
            <= end <= b@.len(),
        r is None ==> p_coord(b@, pos as int) is None,
{
    match parse_num(b, pos) {
        None => None,
        Some((x, p1)) => {
            if p1 < b.len() && b[p1] == 32 {
                match parse_num(b, p1 + 1) {
                    None => None,
                    Some((y, p2)) => Some((Coord { x, y }, p2)),
                }
            } else {
                None
            }
        },
    }
}

/// Read the remaining coordinates of a list, as the spec reader does.
#[verifier::loop_isolation(false)]
fn parse_coords_rest(b: &Vec<u8>, pos: usize) -> (r: Option<(Vec<Coord>, usize)>)
    requires
        pos <= b@.len(),
    ensures
        r matches Some((v, end)) ==> p_coords_rest(b@, pos as int) == Some(
            (ring_rep(v@), end as int),
        ) && pos <= end <= b@.len(),
        r is None ==> p_coords_rest(b@, pos as int) is None,
{
    let ghost pos0 = pos as int;
    let mut out: Vec<Coord> = Vec::new();
    let mut p = pos;
    proof {
        assert(ring_rep(out@) =~= Seq::<CoordRep>::empty());
        match p_coords_rest(b@, pos0) {
            Some((rest, _e)) => {
                assert(Seq::<CoordRep>::empty() + rest =~= rest);
            },
            None => {},
        }
    }
    while p < b.len() && p + 1 < b.len() && b[p] == 44 && b[p + 1] == 32
        invariant
            pos <= p <= b@.len(),
            p_coords_rest(b@, pos0) == (match p_coords_rest(b@, p as int) {
                Some((rest, end)) => Some::<(Seq<CoordRep>, int)>((ring_rep(out@) + rest, end)),
                None => None::<(Seq<CoordRep>, int)>,
            }),
        decreases b@.len() - p,
    {
        match parse_coord(b, p + 2) {
            None => {
                return None;
            },
            Some((c, e)) => {
                if !(e > p + 2) {
                    return None;
                }
                let ghost prevout = out@;
                out.push(c);
                proof {
                    assert(ring_rep(out@) =~= ring_rep(prevout).push(c@));
                    match p_coords_rest(b@, e as int) {
                        Some((rest, _e2)) => {
                            assert((ring_rep(prevout) + (seq![c@] + rest)) =~= (ring_rep(
                                prevout,
                            ).push(c@) + rest));
                        },
                        None => {},
                    }
                }
                p = e;
            },
        }
    }
    proof {
        assert(p_coords_rest(b@, p as int) == Some((Seq::<CoordRep>::empty(), p as int)));
        assert(ring_rep(out@) + Seq::<CoordRep>::empty() =~= ring_rep(out@));
    }
    Some((out, p))
}

/// Read a coordinate list group, as the spec reader does.
fn parse_ring(b: &Vec<u8>, pos: usize) -> (r: Option<(Vec<Coord>, usize)>)
    ensures
        r matches Some((v, end)) ==> p_ring(b@, pos as int) == Some(
            (ring_rep(v@), end as int),
        ) && pos <= end <= b@.len(),
        r is None ==> p_ring(b@, pos as int) is None,
{
    proof {
        assert(spec_kw_empty() =~= seq![69u8, 77u8, 80u8, 84u8, 89u8]);
        assert(spec_kw_empty().len() == 5);
    }
    let bl = b.len();
    proof {
        assert(b@.len() == bl as int);
    }
    let kwe = kw_empty_bytes();
    match eat_kw(b, pos, &kwe) {
        Some(end) => {
            let v: Vec<Coord> = Vec::new();
            proof {
                assert(ring_rep(v@) =~= Seq::<CoordRep>::empty());
            }
            return Some((v, end));
        },
        None => {},
    }
    if !(pos < b.len() && b[pos] == 40) {
        return None;
    }
    match parse_coord(b, pos + 1) {
        None => None,
        Some((c, e)) => {
            if !(e > pos + 1) {
                return None;
            }
            match parse_coords_rest(b, e) {
                None => None,
                Some((rest, e2)) => {
                    if e2 < b.len() && b[e2] == 41 {
                        let mut out: Vec<Coord> = Vec::new();
                        out.push(c);
                        let mut tail = rest;
                        let ghost tailrep = ring_rep(tail@);
                        out.append(&mut tail);
                        proof {
                            assert(ring_rep(out@) =~= seq![c@] + tailrep);
                        }
                        if out.len() <= CAP {
                            Some((out, e2 + 1))
                        } else {
                            None
                        }
                    } else {
                        None
                    }
                },
            }
        },
    }
}

/// Read the remaining coordinate list groups, as the spec reader does.
#[verifier::loop_isolation(false)]
fn parse_rings_rest(b: &Vec<u8>, pos: usize) -> (r: Option<(Vec<Vec<Coord>>, usize)>)
    requires
        pos <= b@.len(),
    ensures
        r matches Some((v, end)) ==> p_rings_rest(b@, pos as int) == Some(
            (rings_rep(v@), end as int),
        ) && pos <= end <= b@.len(),
        r is None ==> p_rings_rest(b@, pos as int) is None,
{
    let ghost pos0 = pos as int;
    let mut out: Vec<Vec<Coord>> = Vec::new();
    let mut p = pos;
    proof {
        assert(rings_rep(out@) =~= Seq::<Seq<CoordRep>>::empty());
        match p_rings_rest(b@, pos0) {
            Some((rest, _e)) => {
                assert(Seq::<Seq<CoordRep>>::empty() + rest =~= rest);
            },
            None => {},
        }
    }
    while p < b.len() && p + 1 < b.len() && b[p] == 44 && b[p + 1] == 32
        invariant
            pos <= p <= b@.len(),
            p_rings_rest(b@, pos0) == (match p_rings_rest(b@, p as int) {
                Some((rest, end)) => Some::<(Seq<Seq<CoordRep>>, int)>(
                    (rings_rep(out@) + rest, end),
                ),
                None => None::<(Seq<Seq<CoordRep>>, int)>,
            }),
        decreases b@.len() - p,
    {
        match parse_ring(b, p + 2) {
            None => {
                return None;
            },
            Some((ring, e)) => {
                if !(e > p + 2) {
                    return None;
                }
                let ghost prevout = out@;
                let ghost ringrep = ring_rep(ring@);
                out.push(ring);
                proof {
                    assert(rings_rep(out@) =~= rings_rep(prevout).push(ringrep));
                    match p_rings_rest(b@, e as int) {
                        Some((rest, _e2)) => {
                            assert((rings_rep(prevout) + (seq![ringrep] + rest)) =~= (rings_rep(
                                prevout,
                            ).push(ringrep) + rest));
                        },
                        None => {},
                    }
                }
                p = e;
            },
        }
    }
    proof {
        assert(p_rings_rest(b@, p as int) == Some((Seq::<Seq<CoordRep>>::empty(), p as int)));
        assert(rings_rep(out@) + Seq::<Seq<CoordRep>>::empty() =~= rings_rep(out@));
    }
    Some((out, p))
}

/// Read a group of coordinate list groups, as the spec reader does.
fn parse_rings(b: &Vec<u8>, pos: usize) -> (r: Option<(Vec<Vec<Coord>>, usize)>)
    ensures
        r matches Some((v, end)) ==> p_rings(b@, pos as int) == Some(
            (rings_rep(v@), end as int),
        ) && pos <= end <= b@.len(),
        r is None ==> p_rings(b@, pos as int) is None,
{
    proof {
        assert(spec_kw_empty() =~= seq![69u8, 77u8, 80u8, 84u8, 89u8]);
        assert(spec_kw_empty().len() == 5);
    }
    let bl = b.len();
    proof {
        assert(b@.len() == bl as int);
    }
    let kwe = kw_empty_bytes();
    match eat_kw(b, pos, &kwe) {
        Some(end) => {
            let v: Vec<Vec<Coord>> = Vec::new();
            proof {
                assert(rings_rep(v@) =~= Seq::<Seq<CoordRep>>::empty());
            }
            return Some((v, end));
        },
        None => {},
    }
    if !(pos < b.len() && b[pos] == 40) {
        return None;
    }
    match parse_ring(b, pos + 1) {
        None => None,
        Some((ring, e)) => {
            if !(e > pos + 1) {
                return None;
            }
            match parse_rings_rest(b, e) {
                None => None,
                Some((rest, e2)) => {
                    if e2 < b.len() && b[e2] == 41 {
                        let ghost ringrep = ring_rep(ring@);
                        let mut out: Vec<Vec<Coord>> = Vec::new();
                        out.push(ring);
                        let mut tail = rest;
                        let ghost tailrep = rings_rep(tail@);
                        out.append(&mut tail);
                        proof {
                            assert(rings_rep(out@) =~= seq![ringrep] + tailrep);
                        }
                        if out.len() <= CAP {
                            Some((out, e2 + 1))
                        } else {
                            None
                        }
                    } else {
                        None
                    }
                },
            }
        },
    }
}

/// Read the remaining polygon bodies, as the spec reader does.
#[verifier::loop_isolation(false)]
fn parse_polys_rest(b: &Vec<u8>, pos: usize) -> (r: Option<(Vec<Vec<Vec<Coord>>>, usize)>)
    requires
        pos <= b@.len(),
    ensures
        r matches Some((v, end)) ==> p_polys_rest(b@, pos as int) == Some(
            (polys_rep(v@), end as int),
        ) && pos <= end <= b@.len(),
        r is None ==> p_polys_rest(b@, pos as int) is None,
{
    let ghost pos0 = pos as int;
    let mut out: Vec<Vec<Vec<Coord>>> = Vec::new();
    let mut p = pos;
    proof {
        assert(polys_rep(out@) =~= Seq::<Seq<Seq<CoordRep>>>::empty());
        match p_polys_rest(b@, pos0) {
            Some((rest, _e)) => {
                assert(Seq::<Seq<Seq<CoordRep>>>::empty() + rest =~= rest);
            },
            None => {},
        }
    }
    while p < b.len() && p + 1 < b.len() && b[p] == 44 && b[p + 1] == 32
        invariant
            pos <= p <= b@.len(),
            p_polys_rest(b@, pos0) == (match p_polys_rest(b@, p as int) {
                Some((rest, end)) => Some::<(Seq<Seq<Seq<CoordRep>>>, int)>(
                    (polys_rep(out@) + rest, end),
                ),
                None => None::<(Seq<Seq<Seq<CoordRep>>>, int)>,
            }),
        decreases b@.len() - p,
    {
        match parse_rings(b, p + 2) {
            None => {
                return None;
            },
            Some((poly, e)) => {
                if !(poly.len() >= 1 && e > p + 2) {
                    return None;
                }
                let ghost prevout = out@;
                let ghost polyrep = rings_rep(poly@);
                out.push(poly);
                proof {
                    assert(polys_rep(out@) =~= polys_rep(prevout).push(polyrep));
                    match p_polys_rest(b@, e as int) {
                        Some((rest, _e2)) => {
                            assert((polys_rep(prevout) + (seq![polyrep] + rest)) =~= (polys_rep(
                                prevout,
                            ).push(polyrep) + rest));
                        },
                        None => {},
                    }
                }
                p = e;
            },
        }
    }
    proof {
        assert(p_polys_rest(b@, p as int) == Some((Seq::<Seq<Seq<CoordRep>>>::empty(), p as int)));
        assert(polys_rep(out@) + Seq::<Seq<Seq<CoordRep>>>::empty() =~= polys_rep(out@));
    }
    Some((out, p))
}

/// Read one shape, as the spec reader does.
#[verifier::rlimit(100)]
fn parse_shape(b: &Vec<u8>, pos: usize) -> (r: Option<(ShapeData, usize)>)
    ensures
        r matches Some((s, end)) ==> p_shape(b@, pos as int) == Some((s@, end as int)) && pos
            <= end <= b@.len(),
        r is None ==> p_shape(b@, pos as int) is None,
{
    proof {
        assert(spec_kw(crate::value::GGeomTypes::MultiPolygon) =~= seq![
            77u8, 85u8, 76u8, 84u8, 73u8, 80u8, 79u8, 76u8, 89u8, 71u8, 79u8, 78u8,
        ]);
        assert(spec_kw(crate::value::GGeomTypes::MultiLineString) =~= seq![
            77u8, 85u8, 76u8, 84u8, 73u8, 76u8, 73u8, 78u8, 69u8, 83u8, 84u8, 82u8, 73u8, 78u8,
            71u8,
        ]);
        assert(spec_kw(crate::value::GGeomTypes::MultiPoint) =~= seq![
            77u8, 85u8, 76u8, 84u8, 73u8, 80u8, 79u8, 73u8, 78u8, 84u8,
        ]);
        assert(spec_kw(crate::value::GGeomTypes::LineString) =~= seq![
            76u8, 73u8, 78u8, 69u8, 83u8, 84u8, 82u8, 73u8, 78u8, 71u8,
        ]);
        assert(spec_kw(crate::value::GGeomTypes::LinearRing) =~= seq![
            76u8, 73u8, 78u8, 69u8, 65u8, 82u8, 82u8, 73u8, 78u8, 71u8,
        ]);
        assert(spec_kw(crate::value::GGeomTypes::Polygon) =~= seq![
            80u8, 79u8, 76u8, 89u8, 71u8, 79u8, 78u8,
        ]);
        assert(spec_kw(crate::value::GGeomTypes::Point) =~= seq![80u8, 79u8, 73u8, 78u8, 84u8]);
        assert(spec_kw_empty() =~= seq![69u8, 77u8, 80u8, 84u8, 89u8]);
    }
    match eat_kw(b, pos, &kw_bytes(crate::value::GGeomTypes::MultiPolygon)) {
        Some(q) => {
            if !(q < b.len() && b[q] == 32) {
                return None;
            }
            match eat_kw(b, q + 1, &kw_empty_bytes()) {
                Some(end) => {
                    let v: Vec<Vec<Vec<Coord>>> = Vec::new();
                    proof {
                        assert(polys_rep(v@) =~= Seq::<Seq<Seq<CoordRep>>>::empty());
                    }
                    return Some((ShapeData::MultiPolygon(v), end));
                },
                None => {},
            }
            if !(q < b.len() && q + 1 < b.len() && b[q + 1] == 40) {
                return None;
            }
            match parse_rings(b, q + 2) {
                None => None,
                Some((poly, e)) => {
                    if !(poly.len() >= 1 && e > q + 2) {
                        return None;
                    }
                    match parse_polys_rest(b, e) {
                        None => None,
                        Some((rest, e2)) => {
                            if e2 < b.len() && b[e2] == 41 {
                                let ghost polyrep = rings_rep(poly@);
                                let mut out: Vec<Vec<Vec<Coord>>> = Vec::new();
                                out.push(poly);
                                let mut tail = rest;
                                let ghost tailrep = polys_rep(tail@);
                                out.append(&mut tail);
                                proof {
                                    assert(polys_rep(out@) =~= seq![polyrep] + tailrep);
                                }
                                if out.len() <= CAP {
                                    Some((ShapeData::MultiPolygon(out), e2 + 1))
                                } else {
                                    None
                                }
                            } else {
                                None
                            }
                        },
                    }
                },
            }
        },
        None => {
            match eat_kw(b, pos, &kw_bytes(crate::value::GGeomTypes::MultiLineString)) {
                Some(q) => {
                    if !(q < b.len() && b[q] == 32) {
                        return None;
                    }
                    match parse_rings(b, q + 1) {
                        None => None,
                        Some((rs, e)) => Some((ShapeData::MultiLineString(rs), e)),
                    }
                },
                None => {
                    match eat_kw(b, pos, &kw_bytes(crate::value::GGeomTypes::MultiPoint)) {
                        Some(q) => {
                            if !(q < b.len() && b[q] == 32) {
                                return None;
                            }
                            match parse_ring(b, q + 1) {
                                None => None,
                                Some((r0, e)) => Some((ShapeData::MultiPoint(r0), e)),
                            }
                        },
                        None => {
                            match eat_kw(b, pos, &kw_bytes(crate::value::GGeomTypes::LineString)) {
                                Some(q) => {
                                    if !(q < b.len() && b[q] == 32) {
                                        return None;
                                    }
                                    match parse_ring(b, q + 1) {
                                        None => None,
                                        Some((r0, e)) => Some((ShapeData::LineString(r0), e)),
                                    }
                                },
                                None => {
                                    match eat_kw(
                                        b,
                                        pos,
                                        &kw_bytes(crate::value::GGeomTypes::LinearRing),
                                    ) {
                                        Some(q) => {
                                            if !(q < b.len() && b[q] == 32) {
                                                return None;
                                            }
                                            match parse_ring(b, q + 1) {
                                                None => None,
                                                Some((r0, e)) => Some(
                                                    (ShapeData::LinearRing(r0), e),
                                                ),
                                            }
                                        },
                                        None => {
                                            match eat_kw(
                                                b,
                                                pos,
                                                &kw_bytes(crate::value::GGeomTypes::Polygon),
                                            ) {
                                                Some(q) => {
                                                    if !(q < b.len() && b[q] == 32) {
                                                        return None;
                                                    }
                                                    match parse_rings(b, q + 1) {
                                                        None => None,
                                                        Some((rs, e)) => {
                                                            if rs.len() >= 1 {
                                                                Some((ShapeData::Polygon(rs), e))
                                                            } else {
                                                                None
                                                            }
                                                        },
                                                    }
                                                },
                                                None => {
                                                    match eat_kw(
                                                        b,
                                                        pos,
                                                        &kw_bytes(
                                                            crate::value::GGeomTypes::Point,
                                                        ),
                                                    ) {
                                                        Some(q) => {
                                                            if !(q < b.len() && q + 1 < b.len()
                                                                && b[q] == 32 && b[q + 1] == 40) {
                                                                return None;
                                                            }
                                                            match parse_coord(b, q + 2) {
                                                                None => None,
                                                                Some((c, e)) => {
                                                                    if e < b.len() && b[e] == 41 {
                                                                        Some(
                                                                            (
                                                                                ShapeData::Point(c),
                                                                                e + 1,
                                                                            ),
                                                                        )
                                                                    } else {
                                                                        None
                                                                    }
                                                                },
                                                            }
                                                        },
                                                        None => None,
                                                    }
                                                },
                                            }
                                        },
                                    }
                                },
                            }
                        },
                    }
                },
            }
        },
    }
}

/// Read the remaining shapes of a collection, as the spec reader does.
#[verifier::loop_isolation(false)]
fn parse_shapes_rest(b: &Vec<u8>, pos: usize) -> (r: Option<(Vec<ShapeData>, usize)>)
    requires
        pos <= b@.len(),
    ensures
        r matches Some((v, end)) ==> p_shapes_rest(b@, pos as int) == Some(
            (shapes_rep(v@), end as int),
        ) && pos <= end <= b@.len(),
        r is None ==> p_shapes_rest(b@, pos as int) is None,
{
    let ghost pos0 = pos as int;
    let mut out: Vec<ShapeData> = Vec::new();
    let mut p = pos;
    proof {
        assert(shapes_rep(out@) =~= Seq::<ShapeRep>::empty());
        match p_shapes_rest(b@, pos0) {
            Some((rest, _e)) => {
                assert(Seq::<ShapeRep>::empty() + rest =~= rest);
            },
            None => {},
        }
    }
    while p < b.len() && p + 1 < b.len() && b[p] == 44 && b[p + 1] == 32
        invariant
            pos <= p <= b@.len(),
            p_shapes_rest(b@, pos0) == (match p_shapes_rest(b@, p as int) {
                Some((rest, end)) => Some::<(Seq<ShapeRep>, int)>((shapes_rep(out@) + rest, end)),
                None => None::<(Seq<ShapeRep>, int)>,
            }),
        decreases b@.len() - p,
    {
        match parse_shape(b, p + 2) {
            None => {
                return None;
            },
            Some((sh, e)) => {
                if !(e > p + 2) {
                    return None;
                }
                let ghost prevout = out@;
                let ghost shrep = sh@;
                out.push(sh);
                proof {
                    assert(shapes_rep(out@) =~= shapes_rep(prevout).push(shrep));
                    match p_shapes_rest(b@, e as int) {
                        Some((rest, _e2)) => {
                            assert((shapes_rep(prevout) + (seq![shrep] + rest)) =~= (shapes_rep(
                                prevout,
                            ).push(shrep) + rest));
                        },
                        None => {},
                    }
                }
                p = e;
            },
        }
    }
    proof {
        assert(p_shapes_rest(b@, p as int) == Some((Seq::<ShapeRep>::empty(), p as int)));
        assert(shapes_rep(out@) + Seq::<ShapeRep>::empty() =~= shapes_rep(out@));
    }
    Some((out, p))
}

/// Read one whole geometry text, as the spec reader does.
#[verifier::rlimit(100)]
pub(crate) fn parse_geom(b: &Vec<u8>) -> (r: Option<GeomData>)
    ensures
        r matches Some(g) ==> wkt_parse(b@) == Some(g@),
        r is None ==> wkt_parse(b@) is None,
{
    proof {
        assert(spec_kw(crate::value::GGeomTypes::GeometryCollection) =~= seq![
            71u8, 69u8, 79u8, 77u8, 69u8, 84u8, 82u8, 89u8, 67u8, 79u8, 76u8, 76u8, 69u8, 67u8,
            84u8, 73u8, 79u8, 78u8,
        ]);
        assert(spec_kw_empty() =~= seq![69u8, 77u8, 80u8, 84u8, 89u8]);
    }
    match eat_kw(b, 0, &kw_bytes(crate::value::GGeomTypes::GeometryCollection)) {
        Some(q) => {
            if !(q < b.len() && b[q] == 32) {
                return None;
            }
            match eat_kw(b, q + 1, &kw_empty_bytes()) {
                Some(end) => {
                    if end == b.len() {
                        let v: Vec<ShapeData> = Vec::new();
                        proof {
                            assert(shapes_rep(v@) =~= Seq::<ShapeRep>::empty());
                        }
                        return Some(GeomData::Collection(v));
                    }
                    return None;
                },
                None => {},
            }
            if !(q < b.len() && q + 1 < b.len() && b[q + 1] == 40) {
                return None;
            }
            match parse_shape(b, q + 2) {
                None => None,
                Some((sh, e)) => {
                    if !(e > q + 2) {
                        return None;
                    }
                    match parse_shapes_rest(b, e) {
                        None => None,
                        Some((rest, e2)) => {
                            if e2 < b.len() && e2 + 1 == b.len() && b[e2] == 41 {
                                let ghost shrep = sh@;
                                let mut out: Vec<ShapeData> = Vec::new();
                                out.push(sh);
                                let mut tail = rest;
                                let ghost tailrep = shapes_rep(tail@);
                                out.append(&mut tail);
                                proof {
                                    assert(shapes_rep(out@) =~= seq![shrep] + tailrep);
                                }
                                if out.len() <= CAP {
                                    Some(GeomData::Collection(out))
                                } else {
                                    None
                                }
                            } else {
                                None
                            }
                        },
                    }
                },
            }
        },
        None => {
            match parse_shape(b, 0) {
                None => None,
                Some((sh, end)) => {
                    if end == b.len() {
                        Some(GeomData::Shape(sh))
                    } else {
                        None
                    }
                },
            }
        },
    }
}

} // verus!
