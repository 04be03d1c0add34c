//! The engine's binary interchange form, and its hexadecimal text form.
//!
//! A geometry is framed as a tag byte, fixed-width little-endian counts,
//! and offset-encoded 64-bit coordinates. The decoder is written as a
//! spec-level function; the round-trip theorem — decoding an encoding
//! yields the encoded value, exactly and completely — is proved for every
//! well-formed geometry, and the executable reader and writer are proved
//! to implement the two spec functions.

use vstd::prelude::*;
use crate::value::{
    Coord, CoordRep, GeomData, GeomRep, ShapeData, ShapeRep, CAP, polys_rep, ring_rep, rings_rep,
    shapes_rep, wf_coord, wf_geom, wf_poly, wf_ring, wf_rings, wf_shape,
};
use crate::ops::wf_coords;

verus! {

/// The unsigned offset image of a signed 64-bit value.
pub open spec fn off64(x: int) -> nat {
    (x + 0x8000_0000_0000_0000) as nat
}

/// `k` little-endian base-256 digits of `n`.
pub open spec fn le_bytes(n: nat, k: nat) -> Seq<u8>
    decreases k,
{
    if k == 0 {
        Seq::empty()
    } else {
        seq![(n % 256) as u8] + le_bytes(n / 256, (k - 1) as nat)
    }
}

/// The number read back from `k` little-endian digits at `pos`.
pub open spec fn dec_le(b: Seq<u8>, pos: int, k: nat) -> nat
    decreases k,
{
    if k == 0 {
        0
    } else {
        (b[pos] + 256 * dec_le(b, pos + 1, (k - 1) as nat)) as nat
    }
}

pub proof fn lemma_le_bytes_len(n: nat, k: nat)
    ensures
        le_bytes(n, k).len() == k,
    decreases k,
{
    if k > 0 {
        lemma_le_bytes_len(n / 256, (k - 1) as nat);
    }
}

/// Reading back `k` digits of `n` yields `n`, for `n` within range.
pub proof fn lemma_le_roundtrip(b: Seq<u8>, pos: int, n: nat, k: nat)
    requires
        n < vstd::arithmetic::power::pow(256, k),
        0 <= pos,
        pos + k <= b.len(),
        b.subrange(pos, pos + k) == le_bytes(n, k),
    ensures
        dec_le(b, pos, k) == n,
    decreases k,
{
    lemma_le_bytes_len(n, k);
    if k == 0 {
        vstd::arithmetic::power::lemma_pow0(256);
    } else {
        assert(b.subrange(pos, pos + k)[0] == b[pos]);
        assert(le_bytes(n, k)[0] == n % 256);
        assert(b.subrange(pos + 1, pos + k) =~= le_bytes(n / 256, (k - 1) as nat)) by {
            lemma_le_bytes_len(n / 256, (k - 1) as nat);
            assert(forall|i: int| 0 <= i < k - 1 ==> #[trigger] b.subrange(pos + 1, pos + k)[i]
                == b.subrange(pos, pos + k)[i + 1]);
            assert(forall|i: int| 0 <= i < k - 1 ==> #[trigger] le_bytes(n, k)[i + 1] == le_bytes(
                n / 256,
                (k - 1) as nat,
            )[i]);
        }
        assert(n / 256 < vstd::arithmetic::power::pow(256, (k - 1) as nat)) by {
            vstd::arithmetic::power::lemma_pow1(256);
            vstd::arithmetic::power::lemma_pow_adds(256, 1, (k - 1) as nat);
            assert(vstd::arithmetic::power::pow(256, k) == 256 * vstd::arithmetic::power::pow(
                256,
                (k - 1) as nat,
            ));
            assert(n / 256 < vstd::arithmetic::power::pow(256, (k - 1) as nat))
                by (nonlinear_arith)
                requires
                    n < 256 * vstd::arithmetic::power::pow(256, (k - 1) as nat),
                    vstd::arithmetic::power::pow(256, (k - 1) as nat) > 0,
            ;
        }
        lemma_le_roundtrip(b, pos + 1, n / 256, (k - 1) as nat);
        assert(n == n % 256 + 256 * (n / 256)) by (nonlinear_arith);
    }
    if k > 0 {
        vstd::arithmetic::power::lemma_pow_positive(256, (k - 1) as nat);
    }
}

/// What is read back is always below the range of `k` digits.
pub proof fn lemma_dec_le_bound(b: Seq<u8>, pos: int, k: nat)
    requires
        0 <= pos,
        pos + k <= b.len(),
    ensures
        dec_le(b, pos, k) < vstd::arithmetic::power::pow(256, k),
    decreases k,
{
    if k == 0 {
        vstd::arithmetic::power::lemma_pow0(256);
    } else {
        lemma_dec_le_bound(b, pos + 1, (k - 1) as nat);
        vstd::arithmetic::power::lemma_pow1(256);
        vstd::arithmetic::power::lemma_pow_adds(256, 1, (k - 1) as nat);
        assert(vstd::arithmetic::power::pow(256, k) == 256 * vstd::arithmetic::power::pow(
            256,
            (k - 1) as nat,
        ));
        assert(b[pos] + 256 * dec_le(b, pos + 1, (k - 1) as nat) < 256
            * vstd::arithmetic::power::pow(256, (k - 1) as nat)) by (nonlinear_arith)
            requires
                b[pos] < 256,
                dec_le(b, pos + 1, (k - 1) as nat) < vstd::arithmetic::power::pow(
                    256,
                    (k - 1) as nat,
                ),
        ;
    }
}

/// One encoded coordinate: both ordinates offset and written as eight
/// digits each.
pub open spec fn enc_coord(c: CoordRep) -> Seq<u8> {
    le_bytes(off64(c.x), 8) + le_bytes(off64(c.y), 8)
}

/// An encoded vertex list body, in order.
pub open spec fn enc_coords(r: Seq<CoordRep>) -> Seq<u8>
    decreases r.len(),
{
    if r.len() == 0 {
        Seq::empty()
    } else {
        enc_coord(r[0]) + enc_coords(r.drop_first())
    }
}

/// An encoded vertex list: its count, then its body.
pub open spec fn enc_ring(r: Seq<CoordRep>) -> Seq<u8> {
    le_bytes(r.len(), 8) + enc_coords(r)
}

/// Encoded vertex lists, in order.
pub open spec fn enc_rings_body(rs: Seq<Seq<CoordRep>>) -> Seq<u8>
    decreases rs.len(),
{
    if rs.len() == 0 {
        Seq::empty()
    } else {
        enc_ring(rs[0]) + enc_rings_body(rs.drop_first())
    }
}

/// An encoded list of vertex lists: its count, then the lists.
pub open spec fn enc_rings(rs: Seq<Seq<CoordRep>>) -> Seq<u8> {
    le_bytes(rs.len(), 8) + enc_rings_body(rs)
}

/// Encoded polygons, in order.
pub open spec fn enc_polys_body(ps: Seq<Seq<Seq<CoordRep>>>) -> Seq<u8>
    decreases ps.len(),
{
    if ps.len() == 0 {
        Seq::empty()
    } else {
        enc_rings(ps[0]) + enc_polys_body(ps.drop_first())
    }
}

/// One encoded shape: a tag byte, then the kind's own framing.
pub open spec fn enc_shape(s: ShapeRep) -> Seq<u8> {
    match s {
        ShapeRep::Point(c) => seq![1u8] + enc_coord(c),
        ShapeRep::LineString(r) => seq![2u8] + enc_ring(r),
        ShapeRep::LinearRing(r) => seq![3u8] + enc_ring(r),
        ShapeRep::Polygon(p) => seq![4u8] + enc_rings(p),
        ShapeRep::MultiPoint(r) => seq![5u8] + enc_ring(r),
        ShapeRep::MultiLineString(rs) => seq![6u8] + enc_rings(rs),
        ShapeRep::MultiPolygon(ps) => seq![7u8] + le_bytes(ps.len(), 8) + enc_polys_body(ps),
    }
}

/// Encoded shapes, in order.
pub open spec fn enc_shapes_body(ss: Seq<ShapeRep>) -> Seq<u8>
    decreases ss.len(),
{
    if ss.len() == 0 {
        Seq::empty()
    } else {
        enc_shape(ss[0]) + enc_shapes_body(ss.drop_first())
    }
}

/// One encoded geometry: a shape as itself, a collection under its own
/// tag with a member count.
pub open spec fn enc_geom(g: GeomRep) -> Seq<u8> {
    match g {
        GeomRep::Shape(s) => enc_shape(s),
        GeomRep::Collection(ss) => seq![8u8] + le_bytes(ss.len(), 8) + enc_shapes_body(ss),
    }
}

/// Decode `n` coordinates at `pos`.
pub open spec fn dec_coords(b: Seq<u8>, pos: int, n: nat) -> Option<(Seq<CoordRep>, int)>
    decreases n,
{
    if n == 0 {
        if 0 <= pos <= b.len() {
            Some((Seq::empty(), pos))
        } else {
            None
        }
    } else if 0 <= pos && pos + 16 <= b.len() {
        let x = dec_le(b, pos, 8) - 0x8000_0000_0000_0000;
        let y = dec_le(b, pos + 8, 8) - 0x8000_0000_0000_0000;
        match dec_coords(b, pos + 16, (n - 1) as nat) {
            Some((rest, end)) => Some((seq![CoordRep { x: x, y: y }] + rest, end)),
            None => None,
        }
    } else {
        None
    }
}

/// Decode a counted vertex list at `pos`. A count over the engine's cap
/// is rejected.
pub open spec fn dec_ring(b: Seq<u8>, pos: int) -> Option<(Seq<CoordRep>, int)> {
    if 0 <= pos && pos + 8 <= b.len() {
        let n = dec_le(b, pos, 8);
        if n <= CAP as nat {
            dec_coords(b, pos + 8, n)
        } else {
            None
        }
    } else {
        None
    }
}

/// Decode `n` counted vertex lists at `pos`.
pub open spec fn dec_rings_body(b: Seq<u8>, pos: int, n: nat) -> Option<(Seq<Seq<CoordRep>>, int)>
    decreases n,
{
    if n == 0 {
        if 0 <= pos <= b.len() {
            Some((Seq::empty(), pos))
        } else {
            None
        }
    } else {
        match dec_ring(b, pos) {
            Some((r, mid)) => {
                if mid > pos {
                    match dec_rings_body(b, mid, (n - 1) as nat) {
                        Some((rest, end)) => Some((seq![r] + rest, end)),
                        None => None,
                    }
                } else {
                    None
                }
            },
            None => None,
        }
    }
}

/// Decode a counted list of vertex lists at `pos`.
pub open spec fn dec_rings(b: Seq<u8>, pos: int) -> Option<(Seq<Seq<CoordRep>>, int)> {
    if 0 <= pos && pos + 8 <= b.len() {
        let n = dec_le(b, pos, 8);
        if n <= CAP as nat {
            dec_rings_body(b, pos + 8, n)
        } else {
            None
        }
    } else {
        None
    }
}

/// Decode `n` counted polygons at `pos`.
pub open spec fn dec_polys_body(b: Seq<u8>, pos: int, n: nat) -> Option<
    (Seq<Seq<Seq<CoordRep>>>, int),
>
    decreases n,
{
    if n == 0 {
        if 0 <= pos <= b.len() {
            Some((Seq::empty(), pos))
        } else {
            None
        }
    } else {
        match dec_rings(b, pos) {
            Some((p, mid)) => {
                if mid > pos {
                    match dec_polys_body(b, mid, (n - 1) as nat) {
                        Some((rest, end)) => Some((seq![p] + rest, end)),
                        None => None,
                    }
                } else {
                    None
                }
            },
            None => None,
        }
    }
}

/// Decode one tagged shape at `pos`.
pub open spec fn dec_shape(b: Seq<u8>, pos: int) -> Option<(ShapeRep, int)> {
    if 0 <= pos && pos + 1 <= b.len() {
        let tag = b[pos];
        let body = pos + 1;
        if tag == 1 {
            if body + 16 <= b.len() {
                let x = dec_le(b, body, 8) - 0x8000_0000_0000_0000;
                let y = dec_le(b, body + 8, 8) - 0x8000_0000_0000_0000;
                Some((ShapeRep::Point(CoordRep { x: x, y: y }), body + 16))
            } else {
                None
            }
        } else if tag == 2 {
            match dec_ring(b, body) {
                Some((r, end)) => Some((ShapeRep::LineString(r), end)),
                None => None,
            }
        } else if tag == 3 {
            match dec_ring(b, body) {
                Some((r, end)) => Some((ShapeRep::LinearRing(r), end)),
                None => None,
            }
        } else if tag == 4 {
            match dec_rings(b, body) {
                Some((p, end)) => if p.len() >= 1 {
                    Some((ShapeRep::Polygon(p), end))
                } else {
                    None
                },
                None => None,
            }
        } else if tag == 5 {
            match dec_ring(b, body) {
                Some((r, end)) => Some((ShapeRep::MultiPoint(r), end)),
                None => None,
            }
        } else if tag == 6 {
            match dec_rings(b, body) {
                Some((rs, end)) => Some((ShapeRep::MultiLineString(rs), end)),
                None => None,
            }
        } else if tag == 7 {
            if body + 8 <= b.len() {
                let n = dec_le(b, body, 8);
                if n <= CAP as nat {
                    match dec_polys_body(b, body + 8, n) {
                        Some((ps, end)) => Some((ShapeRep::MultiPolygon(ps), end)),
                        None => None,
                    }
                } else {
                    None
                }
            } else {
                None
            }
        } else {
            None
        }
    } else {
        None
    }
}

/// Decode `n` tagged shapes at `pos`.
pub open spec fn dec_shapes_body(b: Seq<u8>, pos: int, n: nat) -> Option<(Seq<ShapeRep>, int)>
    decreases n,
{
    if n == 0 {
        if 0 <= pos <= b.len() {
            Some((Seq::empty(), pos))
        } else {
            None
        }
    } else {
        match dec_shape(b, pos) {
            Some((s, mid)) => {
                if mid > pos {
                    match dec_shapes_body(b, mid, (n - 1) as nat) {
                        Some((rest, end)) => Some((seq![s] + rest, end)),
                        None => None,
                    }
                } else {
                    None
                }
            },
            None => None,
        }
    }
}

/// Decode one geometry at `pos`.
pub open spec fn dec_geom(b: Seq<u8>, pos: int) -> Option<(GeomRep, int)> {
    if 0 <= pos && pos + 1 <= b.len() && b[pos] == 8 {
        if pos + 9 <= b.len() {
            let n = dec_le(b, pos + 1, 8);
            if n <= CAP as nat {
                match dec_shapes_body(b, pos + 9, n) {
                    Some((ss, end)) => Some((GeomRep::Collection(ss), end)),
                    None => None,
                }
            } else {
                None
            }
        } else {
            None
        }
    } else {
        match dec_shape(b, pos) {
            Some((s, end)) => Some((GeomRep::Shape(s), end)),
            None => None,
        }
    }
}


proof fn lemma_pow256_8()
    ensures
        vstd::arithmetic::power::pow(256, 8) == 0x1_0000_0000_0000_0000,
{
    reveal_with_fuel(vstd::arithmetic::power::pow, 9);
}

pub proof fn lemma_enc_coords_len(r: Seq<CoordRep>)
    ensures
        enc_coords(r).len() == 16 * r.len(),
    decreases r.len(),
{
    lemma_le_bytes_len(off64(r[0].x), 8);
    lemma_le_bytes_len(off64(r[0].y), 8);
    if r.len() > 0 {
        lemma_enc_coords_len(r.drop_first());
    }
}

/// Decoding `n` encoded coordinates from anywhere inside a buffer yields
/// exactly those coordinates.
proof fn lemma_rt_coords(b: Seq<u8>, pos: int, r: Seq<CoordRep>)
    requires
        wf_coords(r),
        0 <= pos,
        pos + 16 * r.len() <= b.len(),
        b.subrange(pos, pos + 16 * r.len()) == enc_coords(r),
    ensures
        dec_coords(b, pos, r.len()) == Some((r, pos + 16 * r.len())),
    decreases r.len(),
{
    lemma_pow256_8();
    if r.len() == 0 {
        assert(dec_coords(b, pos, 0) == Some((Seq::<CoordRep>::empty(), pos)));
        assert(r =~= Seq::<CoordRep>::empty());
    } else {
        let c = r[0];
        lemma_le_bytes_len(off64(c.x), 8);
        lemma_le_bytes_len(off64(c.y), 8);
        lemma_enc_coords_len(r);
        assert(b.subrange(pos, pos + 8) =~= le_bytes(off64(c.x), 8)) by {
            assert(forall|i: int| 0 <= i < 8 ==> #[trigger] b.subrange(pos, pos + 8)[i]
                == b.subrange(pos, pos + 16 * r.len())[i]);
        }
        assert(b.subrange(pos + 8, pos + 16) =~= le_bytes(off64(c.y), 8)) by {
            assert(forall|i: int| 0 <= i < 8 ==> #[trigger] b.subrange(pos + 8, pos + 16)[i]
                == b.subrange(pos, pos + 16 * r.len())[i + 8]);
        }
        lemma_le_roundtrip(b, pos, off64(c.x), 8);
        lemma_le_roundtrip(b, pos + 8, off64(c.y), 8);
        let rest = r.drop_first();
        lemma_enc_coords_len(rest);
        assert(b.subrange(pos + 16, pos + 16 + 16 * rest.len()) =~= enc_coords(rest)) by {
            assert(forall|i: int| 0 <= i < 16 * rest.len() ==> #[trigger] b.subrange(
                pos + 16,
                pos + 16 + 16 * rest.len(),
            )[i] == b.subrange(pos, pos + 16 * r.len())[i + 16]);
            assert(forall|i: int| 0 <= i < 16 * rest.len() ==> enc_coords(r)[i + 16]
                == #[trigger] enc_coords(rest)[i]);
        }
        assert(wf_coords(rest));
        lemma_rt_coords(b, pos + 16, rest);
        assert(dec_le(b, pos, 8) - 0x8000_0000_0000_0000 == c.x);
        assert(dec_le(b, pos + 8, 8) - 0x8000_0000_0000_0000 == c.y);
        assert(seq![c] + rest =~= r);
    }
}

/// Decoding an encoded counted vertex list yields exactly that list.
proof fn lemma_rt_ring(b: Seq<u8>, pos: int, r: Seq<CoordRep>)
    requires
        wf_ring(r),
        0 <= pos,
        pos + enc_ring(r).len() <= b.len(),
        b.subrange(pos, pos + enc_ring(r).len()) == enc_ring(r),
    ensures
        dec_ring(b, pos) == Some((r, pos + enc_ring(r).len())),
        enc_ring(r).len() == 8 + 16 * r.len(),
{
    lemma_pow256_8();
    lemma_le_bytes_len(r.len(), 8);
    lemma_enc_coords_len(r);
    assert(b.subrange(pos, pos + 8) =~= le_bytes(r.len(), 8)) by {
        assert(forall|i: int| 0 <= i < 8 ==> #[trigger] b.subrange(pos, pos + 8)[i] == b.subrange(
            pos,
            pos + enc_ring(r).len(),
        )[i]);
    }
    lemma_le_roundtrip(b, pos, r.len(), 8);
    assert(b.subrange(pos + 8, pos + 8 + 16 * r.len()) =~= enc_coords(r)) by {
        assert(forall|i: int| 0 <= i < 16 * r.len() ==> #[trigger] b.subrange(
            pos + 8,
            pos + 8 + 16 * r.len(),
        )[i] == b.subrange(pos, pos + enc_ring(r).len())[i + 8]);
    }
    lemma_rt_coords(b, pos + 8, r);
}

/// Decoding `n` encoded counted vertex lists yields exactly those lists.
proof fn lemma_rt_rings_body(b: Seq<u8>, pos: int, rs: Seq<Seq<CoordRep>>)
    requires
        forall|i: int| 0 <= i < rs.len() ==> wf_ring(#[trigger] rs[i]),
        0 <= pos,
        pos + enc_rings_body(rs).len() <= b.len(),
        b.subrange(pos, pos + enc_rings_body(rs).len()) == enc_rings_body(rs),
    ensures
        dec_rings_body(b, pos, rs.len()) == Some((rs, pos + enc_rings_body(rs).len())),
    decreases rs.len(),
{
    if rs.len() == 0 {
        assert(rs =~= Seq::<Seq<CoordRep>>::empty());
    } else {
        let r0 = rs[0];
        let l0 = enc_ring(r0).len() as int;
        lemma_le_bytes_len(r0.len(), 8);
        lemma_enc_coords_len(r0);
        assert(b.subrange(pos, pos + l0) =~= enc_ring(r0)) by {
            assert(forall|i: int| 0 <= i < l0 ==> #[trigger] b.subrange(pos, pos + l0)[i]
                == b.subrange(pos, pos + enc_rings_body(rs).len())[i]);
        }
        lemma_rt_ring(b, pos, r0);
        let rest = rs.drop_first();
        let lr = enc_rings_body(rest).len() as int;
        assert(b.subrange(pos + l0, pos + l0 + lr) =~= enc_rings_body(rest)) by {
            assert(forall|i: int| 0 <= i < lr ==> #[trigger] b.subrange(pos + l0, pos + l0 + lr)[i]
                == b.subrange(pos, pos + enc_rings_body(rs).len())[i + l0]);
            assert(forall|i: int| 0 <= i < lr ==> enc_rings_body(rs)[i + l0]
                == #[trigger] enc_rings_body(rest)[i]);
        }
        lemma_rt_rings_body(b, pos + l0, rest);
        assert(seq![r0] + rest =~= rs);
    }
}

/// Decoding an encoded counted list of vertex lists yields exactly it.
proof fn lemma_rt_rings(b: Seq<u8>, pos: int, rs: Seq<Seq<CoordRep>>)
    requires
        wf_rings(rs),
        0 <= pos,
        pos + enc_rings(rs).len() <= b.len(),
        b.subrange(pos, pos + enc_rings(rs).len()) == enc_rings(rs),
    ensures
        dec_rings(b, pos) == Some((rs, pos + enc_rings(rs).len())),
        enc_rings(rs).len() >= 8,
{
    lemma_pow256_8();
    lemma_le_bytes_len(rs.len(), 8);
    assert(b.subrange(pos, pos + 8) =~= le_bytes(rs.len(), 8)) by {
        assert(forall|i: int| 0 <= i < 8 ==> #[trigger] b.subrange(pos, pos + 8)[i] == b.subrange(
            pos,
            pos + enc_rings(rs).len(),
        )[i]);
    }
    lemma_le_roundtrip(b, pos, rs.len(), 8);
    let lb = enc_rings_body(rs).len() as int;
    assert(b.subrange(pos + 8, pos + 8 + lb) =~= enc_rings_body(rs)) by {
        assert(forall|i: int| 0 <= i < lb ==> #[trigger] b.subrange(pos + 8, pos + 8 + lb)[i]
            == b.subrange(pos, pos + enc_rings(rs).len())[i + 8]);
    }
    lemma_rt_rings_body(b, pos + 8, rs);
}

/// Decoding `n` encoded polygons yields exactly those polygons.
proof fn lemma_rt_polys_body(b: Seq<u8>, pos: int, ps: Seq<Seq<Seq<CoordRep>>>)
    requires
        forall|i: int| 0 <= i < ps.len() ==> wf_poly(#[trigger] ps[i]),
        0 <= pos,
        pos + enc_polys_body(ps).len() <= b.len(),
        b.subrange(pos, pos + enc_polys_body(ps).len()) == enc_polys_body(ps),
    ensures
        dec_polys_body(b, pos, ps.len()) == Some((ps, pos + enc_polys_body(ps).len())),
    decreases ps.len(),
{
    if ps.len() == 0 {
        assert(ps =~= Seq::<Seq<Seq<CoordRep>>>::empty());
    } else {
        let p0 = ps[0];
        let l0 = enc_rings(p0).len() as int;
        assert(b.subrange(pos, pos + l0) =~= enc_rings(p0)) by {
            assert(forall|i: int| 0 <= i < l0 ==> #[trigger] b.subrange(pos, pos + l0)[i]
                == b.subrange(pos, pos + enc_polys_body(ps).len())[i]);
        }
        lemma_rt_rings(b, pos, p0);
        let rest = ps.drop_first();
        let lr = enc_polys_body(rest).len() as int;
        assert(b.subrange(pos + l0, pos + l0 + lr) =~= enc_polys_body(rest)) by {
            assert(forall|i: int| 0 <= i < lr ==> #[trigger] b.subrange(pos + l0, pos + l0 + lr)[i]
                == b.subrange(pos, pos + enc_polys_body(ps).len())[i + l0]);
            assert(forall|i: int| 0 <= i < lr ==> enc_polys_body(ps)[i + l0]
                == #[trigger] enc_polys_body(rest)[i]);
        }
        lemma_rt_polys_body(b, pos + l0, rest);
        assert(seq![p0] + rest =~= ps);
    }
}

/// Decoding an encoded shape yields exactly that shape.
proof fn lemma_rt_shape(b: Seq<u8>, pos: int, s: ShapeRep)
    requires
        wf_shape(s),
        0 <= pos,
        pos + enc_shape(s).len() <= b.len(),
        b.subrange(pos, pos + enc_shape(s).len()) == enc_shape(s),
    ensures
        dec_shape(b, pos) == Some((s, pos + enc_shape(s).len())),
        enc_shape(s).len() >= 1,
        1 <= b[pos] <= 7,
{
    lemma_pow256_8();
    let le = enc_shape(s).len() as int;
    assert(b[pos] == enc_shape(s)[0]);
    match s {
        ShapeRep::Point(c) => {
            lemma_le_bytes_len(off64(c.x), 8);
            lemma_le_bytes_len(off64(c.y), 8);
            assert(b.subrange(pos + 1, pos + 9) =~= le_bytes(off64(c.x), 8)) by {
                assert(forall|i: int| 0 <= i < 8 ==> #[trigger] b.subrange(pos + 1, pos + 9)[i]
                    == b.subrange(pos, pos + le)[i + 1]);
            }
            assert(b.subrange(pos + 9, pos + 17) =~= le_bytes(off64(c.y), 8)) by {
                assert(forall|i: int| 0 <= i < 8 ==> #[trigger] b.subrange(pos + 9, pos + 17)[i]
                    == b.subrange(pos, pos + le)[i + 9]);
            }
            lemma_le_roundtrip(b, pos + 1, off64(c.x), 8);
            lemma_le_roundtrip(b, pos + 9, off64(c.y), 8);
        },
        ShapeRep::LineString(r) => {
            assert(b.subrange(pos + 1, pos + 1 + enc_ring(r).len()) =~= enc_ring(r)) by {
                assert(forall|i: int| 0 <= i < enc_ring(r).len() ==> #[trigger] b.subrange(
                    pos + 1,
                    pos + 1 + enc_ring(r).len(),
                )[i] == b.subrange(pos, pos + le)[i + 1]);
            }
            lemma_rt_ring(b, pos + 1, r);
        },
        ShapeRep::LinearRing(r) => {
            assert(b.subrange(pos + 1, pos + 1 + enc_ring(r).len()) =~= enc_ring(r)) by {
                assert(forall|i: int| 0 <= i < enc_ring(r).len() ==> #[trigger] b.subrange(
                    pos + 1,
                    pos + 1 + enc_ring(r).len(),
                )[i] == b.subrange(pos, pos + le)[i + 1]);
            }
            lemma_rt_ring(b, pos + 1, r);
        },
        ShapeRep::Polygon(p) => {
            assert(b.subrange(pos + 1, pos + 1 + enc_rings(p).len()) =~= enc_rings(p)) by {
                assert(forall|i: int| 0 <= i < enc_rings(p).len() ==> #[trigger] b.subrange(
                    pos + 1,
                    pos + 1 + enc_rings(p).len(),
                )[i] == b.subrange(pos, pos + le)[i + 1]);
            }
            lemma_rt_rings(b, pos + 1, p);
        },
        ShapeRep::MultiPoint(r) => {
            assert(b.subrange(pos + 1, pos + 1 + enc_ring(r).len()) =~= enc_ring(r)) by {
                assert(forall|i: int| 0 <= i < enc_ring(r).len() ==> #[trigger] b.subrange(
                    pos + 1,
                    pos + 1 + enc_ring(r).len(),
                )[i] == b.subrange(pos, pos + le)[i + 1]);
            }
            lemma_rt_ring(b, pos + 1, r);
        },
        ShapeRep::MultiLineString(rs) => {
            assert(b.subrange(pos + 1, pos + 1 + enc_rings(rs).len()) =~= enc_rings(rs)) by {
                assert(forall|i: int| 0 <= i < enc_rings(rs).len() ==> #[trigger] b.subrange(
                    pos + 1,
                    pos + 1 + enc_rings(rs).len(),
                )[i] == b.subrange(pos, pos + le)[i + 1]);
            }
            lemma_rt_rings(b, pos + 1, rs);
        },
        ShapeRep::MultiPolygon(ps) => {
            lemma_le_bytes_len(ps.len(), 8);
            assert(b.subrange(pos + 1, pos + 9) =~= le_bytes(ps.len(), 8)) by {
                assert(forall|i: int| 0 <= i < 8 ==> #[trigger] b.subrange(pos + 1, pos + 9)[i]
                    == b.subrange(pos, pos + le)[i + 1]);
            }
            lemma_le_roundtrip(b, pos + 1, ps.len(), 8);
            let lb = enc_polys_body(ps).len() as int;
            assert(b.subrange(pos + 9, pos + 9 + lb) =~= enc_polys_body(ps)) by {
                assert(forall|i: int| 0 <= i < lb ==> #[trigger] b.subrange(
                    pos + 9,
                    pos + 9 + lb,
                )[i] == b.subrange(pos, pos + le)[i + 9]);
            }
            lemma_rt_polys_body(b, pos + 9, ps);
        },
    }
}

/// Decoding `n` encoded shapes yields exactly those shapes.
proof fn lemma_rt_shapes_body(b: Seq<u8>, pos: int, ss: Seq<ShapeRep>)
    requires
        forall|i: int| 0 <= i < ss.len() ==> wf_shape(#[trigger] ss[i]),
        0 <= pos,
        pos + enc_shapes_body(ss).len() <= b.len(),
        b.subrange(pos, pos + enc_shapes_body(ss).len()) == enc_shapes_body(ss),
    ensures
        dec_shapes_body(b, pos, ss.len()) == Some((ss, pos + enc_shapes_body(ss).len())),
    decreases ss.len(),
{
    if ss.len() == 0 {
        assert(ss =~= Seq::<ShapeRep>::empty());
    } else {
        let s0 = ss[0];
        let l0 = enc_shape(s0).len() as int;
        assert(b.subrange(pos, pos + l0) =~= enc_shape(s0)) by {
            assert(forall|i: int| 0 <= i < l0 ==> #[trigger] b.subrange(pos, pos + l0)[i]
                == b.subrange(pos, pos + enc_shapes_body(ss).len())[i]);
        }
        lemma_rt_shape(b, pos, s0);
        let rest = ss.drop_first();
        let lr = enc_shapes_body(rest).len() as int;
        assert(b.subrange(pos + l0, pos + l0 + lr) =~= enc_shapes_body(rest)) by {
            assert(forall|i: int| 0 <= i < lr ==> #[trigger] b.subrange(pos + l0, pos + l0 + lr)[i]
                == b.subrange(pos, pos + enc_shapes_body(ss).len())[i + l0]);
            assert(forall|i: int| 0 <= i < lr ==> enc_shapes_body(ss)[i + l0]
                == #[trigger] enc_shapes_body(rest)[i]);
        }
        lemma_rt_shapes_body(b, pos + l0, rest);
        assert(seq![s0] + rest =~= ss);
    }
}

/// The round trip: decoding the encoding of any well-formed geometry
/// yields that geometry and consumes the whole encoding.
pub proof fn lemma_wkb_round_trip(g: GeomRep)
    requires
        wf_geom(g),
    ensures
        dec_geom(enc_geom(g), 0) == Some((g, enc_geom(g).len() as int)),
{
    let b = enc_geom(g);
    lemma_pow256_8();
    match g {
        GeomRep::Shape(s) => {
            assert(b.subrange(0, b.len() as int) =~= enc_shape(s));
            lemma_rt_shape(b, 0, s);
        },
        GeomRep::Collection(ss) => {
            lemma_le_bytes_len(ss.len(), 8);
            assert(b[0] == 8);
            assert(b.subrange(1, 9) =~= le_bytes(ss.len(), 8));
            lemma_le_roundtrip(b, 1, ss.len(), 8);
            let lb = enc_shapes_body(ss).len() as int;
            assert(b.subrange(9, 9 + lb) =~= enc_shapes_body(ss));
            lemma_rt_shapes_body(b, 9, ss);
        },
    }
}


/// Append the eight little-endian digits of `x`.
fn enc_u64_exec(out: &mut Vec<u8>, x: u64)
    ensures
        final(out)@ == old(out)@ + le_bytes(x as nat, 8),
{
    let mut m: u64 = x;
    let mut i: usize = 0;
    let ghost base = out@;
    while i < 8
        invariant
            0 <= i <= 8,
            le_bytes(x as nat, 8) == out@.subrange(base.len() as int, out@.len() as int)
                + le_bytes(m as nat, (8 - i) as nat),
            out@.len() == base.len() + i,
            out@.subrange(0, base.len() as int) == base,
        decreases 8 - i,
    {
        let ghost prev = out@;
        let d: u8 = (m % 256) as u8;
        out.push(d);
        proof {
            assert(le_bytes(m as nat, (8 - i) as nat) == seq![d] + le_bytes(
                (m / 256) as nat,
                (8 - i - 1) as nat,
            ));
            assert(out@.subrange(base.len() as int, out@.len() as int) =~= prev.subrange(
                base.len() as int,
                prev.len() as int,
            ) + seq![d]);
            assert(prev.subrange(base.len() as int, prev.len() as int) + (seq![d] + le_bytes(
                (m / 256) as nat,
                (8 - i - 1) as nat,
            )) =~= (prev.subrange(base.len() as int, prev.len() as int) + seq![d]) + le_bytes(
                (m / 256) as nat,
                (8 - i - 1) as nat,
            ));
            assert(out@.subrange(0, base.len() as int) =~= base);
        }
        m = m / 256;
        i = i + 1;
    }
    proof {
        assert(le_bytes(m as nat, 0) =~= Seq::<u8>::empty());
        assert(out@.subrange(base.len() as int, out@.len() as int) + Seq::<u8>::empty()
            =~= out@.subrange(base.len() as int, out@.len() as int));
        assert(out@ =~= base + out@.subrange(base.len() as int, out@.len() as int));
    }
}

/// Read back eight little-endian digits at `pos`.
#[verifier::loop_isolation(false)]
fn dec_u64_exec(b: &Vec<u8>, pos: usize) -> (r: u64)
    requires
        pos + 8 <= b@.len(),
    ensures
        r == dec_le(b@, pos as int, 8),
{
    proof {
        lemma_pow256_8();
        vstd::arithmetic::power::lemma_pow0(256);
    }
    let total = b.len();
    let mut acc: u64 = 0;
    let mut j: usize = 8;
    while j > 0
        invariant
            0 <= j <= 8,
            acc == dec_le(b@, pos + j, (8 - j) as nat),
            acc < vstd::arithmetic::power::pow(256, (8 - j) as nat),
        decreases j,
    {
        proof {
            lemma_dec_le_bound(b@, pos + j - 1, (8 - j + 1) as nat);
            vstd::arithmetic::power::lemma_pow1(256);
            vstd::arithmetic::power::lemma_pow_adds(256, 1, (8 - j) as nat);
            vstd::arithmetic::power::lemma_pow_increases(256, (8 - j + 1) as nat, 8);
        }
        acc = acc * 256 + (b[j - 1 + pos] as u64);
        j = j - 1;
        proof {
            assert(dec_le(b@, pos + j, (8 - j) as nat) == b@[pos + j] + 256 * dec_le(
                b@,
                pos + j + 1,
                (8 - j - 1) as nat,
            ));
        }
    }
    acc
}

/// Append an encoded coordinate.
fn enc_coord_exec(out: &mut Vec<u8>, c: Coord)
    ensures
        final(out)@ == old(out)@ + enc_coord(c@),
{
    let ghost base = out@;
    let ux: u64 = (((c.x as i128) + 0x8000_0000_0000_0000i128) as u64);
    let uy: u64 = (((c.y as i128) + 0x8000_0000_0000_0000i128) as u64);
    proof {
        assert(ux as nat == off64(c@.x));
        assert(uy as nat == off64(c@.y));
    }
    enc_u64_exec(out, ux);
    enc_u64_exec(out, uy);
    proof {
        assert(out@ =~= base + enc_coord(c@));
    }
}

proof fn lemma_enc_coords_snoc(r: Seq<CoordRep>, c: CoordRep)
    ensures
        enc_coords(r.push(c)) == enc_coords(r) + enc_coord(c),
    decreases r.len(),
{
    if r.len() == 0 {
        assert(r.push(c)[0] == c);
        assert(r.push(c).drop_first() =~= r);
        assert(enc_coords(r.push(c)) =~= enc_coords(r) + enc_coord(c));
    } else {
        assert(r.push(c).drop_first() =~= r.drop_first().push(c));
        lemma_enc_coords_snoc(r.drop_first(), c);
        assert(r.push(c)[0] == r[0]);
        assert(enc_coord(r[0]) + (enc_coords(r.drop_first()) + enc_coord(c)) =~= (enc_coord(r[0])
            + enc_coords(r.drop_first())) + enc_coord(c));
    }
}

proof fn lemma_enc_rings_body_snoc(rs: Seq<Seq<CoordRep>>, r: Seq<CoordRep>)
    ensures
        enc_rings_body(rs.push(r)) == enc_rings_body(rs) + enc_ring(r),
    decreases rs.len(),
{
    if rs.len() == 0 {
        assert(rs.push(r)[0] == r);
        assert(rs.push(r).drop_first() =~= rs);
        assert(enc_rings_body(rs.push(r)) =~= enc_rings_body(rs) + enc_ring(r));
    } else {
        assert(rs.push(r).drop_first() =~= rs.drop_first().push(r));
        lemma_enc_rings_body_snoc(rs.drop_first(), r);
        assert(rs.push(r)[0] == rs[0]);
        assert(enc_ring(rs[0]) + (enc_rings_body(rs.drop_first()) + enc_ring(r)) =~= (enc_ring(
            rs[0],
        ) + enc_rings_body(rs.drop_first())) + enc_ring(r));
    }
}

proof fn lemma_enc_polys_body_snoc(ps: Seq<Seq<Seq<CoordRep>>>, p: Seq<Seq<CoordRep>>)
    ensures
        enc_polys_body(ps.push(p)) == enc_polys_body(ps) + enc_rings(p),
    decreases ps.len(),
{
    if ps.len() == 0 {
        assert(ps.push(p)[0] == p);
        assert(ps.push(p).drop_first() =~= ps);
        assert(enc_polys_body(ps.push(p)) =~= enc_polys_body(ps) + enc_rings(p));
    } else {
        assert(ps.push(p).drop_first() =~= ps.drop_first().push(p));
        lemma_enc_polys_body_snoc(ps.drop_first(), p);
        assert(ps.push(p)[0] == ps[0]);
        assert(enc_rings(ps[0]) + (enc_polys_body(ps.drop_first()) + enc_rings(p)) =~= (enc_rings(
            ps[0],
        ) + enc_polys_body(ps.drop_first())) + enc_rings(p));
    }
}

proof fn lemma_enc_shapes_body_snoc(ss: Seq<ShapeRep>, s: ShapeRep)
    ensures
        enc_shapes_body(ss.push(s)) == enc_shapes_body(ss) + enc_shape(s),
    decreases ss.len(),
{
    if ss.len() == 0 {
        assert(ss.push(s)[0] == s);
        assert(ss.push(s).drop_first() =~= ss);
        assert(enc_shapes_body(ss.push(s)) =~= enc_shapes_body(ss) + enc_shape(s));
    } else {
        assert(ss.push(s).drop_first() =~= ss.drop_first().push(s));
        lemma_enc_shapes_body_snoc(ss.drop_first(), s);
        assert(ss.push(s)[0] == ss[0]);
        assert(enc_shape(ss[0]) + (enc_shapes_body(ss.drop_first()) + enc_shape(s)) =~= (enc_shape(
            ss[0],
        ) + enc_shapes_body(ss.drop_first())) + enc_shape(s));
    }
}

/// Append an encoded counted vertex list.
#[verifier::loop_isolation(false)]
fn enc_ring_exec(out: &mut Vec<u8>, v: &Vec<Coord>)
    ensures
        final(out)@ == old(out)@ + enc_ring(ring_rep(v@)),
{
    let ghost base = out@;
    let ghost rr = ring_rep(v@);
    enc_u64_exec(out, v.len() as u64);
    let mut i: usize = 0;
    while i < v.len()
        invariant
            0 <= i <= v@.len(),
            out@ == base + le_bytes(rr.len(), 8) + enc_coords(rr.take(i as int)),
        decreases v@.len() - i,
    {
        proof {
            assert(rr[i as int] == v@[i as int]@);
        }
        enc_coord_exec(out, v[i]);
        proof {
            assert(rr.take(i as int + 1) =~= rr.take(i as int).push(rr[i as int]));
            lemma_enc_coords_snoc(rr.take(i as int), rr[i as int]);
            assert((base + le_bytes(rr.len(), 8) + enc_coords(rr.take(i as int))) + enc_coord(
                rr[i as int],
            ) =~= base + le_bytes(rr.len(), 8) + enc_coords(rr.take(i as int + 1)));
        }
        i = i + 1;
    }
    proof {
        assert(rr.take(v@.len() as int) =~= rr);
        assert(base + le_bytes(rr.len(), 8) + enc_coords(rr) =~= base + enc_ring(rr));
    }
}

/// Append an encoded counted list of vertex lists.
#[verifier::loop_isolation(false)]
fn enc_rings_exec(out: &mut Vec<u8>, v: &Vec<Vec<Coord>>)
    ensures
        final(out)@ == old(out)@ + enc_rings(rings_rep(v@)),
{
    let ghost base = out@;
    let ghost rs = rings_rep(v@);
    enc_u64_exec(out, v.len() as u64);
    let mut i: usize = 0;
    while i < v.len()
        invariant
            0 <= i <= v@.len(),
            out@ == base + le_bytes(rs.len(), 8) + enc_rings_body(rs.take(i as int)),
        decreases v@.len() - i,
    {
        proof {
            assert(rs[i as int] == ring_rep(v@[i as int]@));
        }
        enc_ring_exec(out, &v[i]);
        proof {
            assert(rs.take(i as int + 1) =~= rs.take(i as int).push(rs[i as int]));
            lemma_enc_rings_body_snoc(rs.take(i as int), rs[i as int]);
            assert((base + le_bytes(rs.len(), 8) + enc_rings_body(rs.take(i as int))) + enc_ring(
                rs[i as int],
            ) =~= base + le_bytes(rs.len(), 8) + enc_rings_body(rs.take(i as int + 1)));
        }
        i = i + 1;
    }
    proof {
        assert(rs.take(v@.len() as int) =~= rs);
        assert(base + le_bytes(rs.len(), 8) + enc_rings_body(rs) =~= base + enc_rings(rs));
    }
}

/// Append an encoded shape.
#[verifier::loop_isolation(false)]
fn enc_shape_exec(out: &mut Vec<u8>, s: &ShapeData)
    ensures
        final(out)@ == old(out)@ + enc_shape(s@),
{
    let ghost base = out@;
    match s {
        ShapeData::Point(c) => {
            out.push(1u8);
            enc_coord_exec(out, *c);
            proof {
                assert(out@ =~= base + enc_shape(s@));
            }
        },
        ShapeData::LineString(v) => {
            out.push(2u8);
            enc_ring_exec(out, v);
            proof {
                assert(out@ =~= base + enc_shape(s@));
            }
        },
        ShapeData::LinearRing(v) => {
            out.push(3u8);
            enc_ring_exec(out, v);
            proof {
                assert(out@ =~= base + enc_shape(s@));
            }
        },
        ShapeData::Polygon(v) => {
            out.push(4u8);
            enc_rings_exec(out, v);
            proof {
                assert(out@ =~= base + enc_shape(s@));
            }
        },
        ShapeData::MultiPoint(v) => {
            out.push(5u8);
            enc_ring_exec(out, v);
            proof {
                assert(out@ =~= base + enc_shape(s@));
            }
        },
        ShapeData::MultiLineString(v) => {
            out.push(6u8);
            enc_rings_exec(out, v);
            proof {
                assert(out@ =~= base + enc_shape(s@));
            }
        },
        ShapeData::MultiPolygon(v) => {
            out.push(7u8);
            let ghost ps = polys_rep(v@);
            enc_u64_exec(out, v.len() as u64);
            let mut i: usize = 0;
            while i < v.len()
                invariant
                    0 <= i <= v@.len(),
                    out@ == base + seq![7u8] + le_bytes(ps.len(), 8) + enc_polys_body(
                        ps.take(i as int),
                    ),
                decreases v@.len() - i,
            {
                proof {
                    assert(ps[i as int] == rings_rep(v@[i as int]@));
                }
                enc_rings_exec(out, &v[i]);
                proof {
                    assert(ps.take(i as int + 1) =~= ps.take(i as int).push(ps[i as int]));
                    lemma_enc_polys_body_snoc(ps.take(i as int), ps[i as int]);
                    assert((base + seq![7u8] + le_bytes(ps.len(), 8) + enc_polys_body(
                        ps.take(i as int),
                    )) + enc_rings(ps[i as int]) =~= base + seq![7u8] + le_bytes(ps.len(), 8)
                        + enc_polys_body(ps.take(i as int + 1)));
                }
                i = i + 1;
            }
            proof {
                assert(ps.take(v@.len() as int) =~= ps);
                assert(base + seq![7u8] + le_bytes(ps.len(), 8) + enc_polys_body(ps) =~= base
                    + enc_shape(s@));
            }
        },
    }
}

/// The encoded form of a geometry value.
#[verifier::loop_isolation(false)]
pub fn enc_geom_exec(g: &GeomData) -> (r: Vec<u8>)
    ensures
        r@ == enc_geom(g@),
{
    let mut out: Vec<u8> = Vec::new();
    let ghost base = out@;
    match g {
        GeomData::Shape(s) => {
            enc_shape_exec(&mut out, s);
            proof {
                assert(out@ =~= enc_geom(g@));
            }
        },
        GeomData::Collection(v) => {
            out.push(8u8);
            let ghost ss = shapes_rep(v@);
            enc_u64_exec(&mut out, v.len() as u64);
            let mut i: usize = 0;
            while i < v.len()
                invariant
                    0 <= i <= v@.len(),
                    out@ == seq![8u8] + le_bytes(ss.len(), 8) + enc_shapes_body(
                        ss.take(i as int),
                    ),
                decreases v@.len() - i,
            {
                proof {
                    assert(ss[i as int] == v@[i as int]@);
                }
                enc_shape_exec(&mut out, &v[i]);
                proof {
                    assert(ss.take(i as int + 1) =~= ss.take(i as int).push(ss[i as int]));
                    lemma_enc_shapes_body_snoc(ss.take(i as int), ss[i as int]);
                    assert((seq![8u8] + le_bytes(ss.len(), 8) + enc_shapes_body(
                        ss.take(i as int),
                    )) + enc_shape(ss[i as int]) =~= seq![8u8] + le_bytes(ss.len(), 8)
                        + enc_shapes_body(ss.take(i as int + 1)));
                }
                i = i + 1;
            }
            proof {
                assert(ss.take(v@.len() as int) =~= ss);
                assert(out@ =~= enc_geom(g@));
            }
        },
    }
    out
}

/// Decode one coordinate at `pos`; sixteen bytes.
fn dec_coord_exec(b: &Vec<u8>, pos: usize) -> (r: Coord)
    requires
        pos + 16 <= b@.len(),
    ensures
        r@.x == dec_le(b@, pos as int, 8) - 0x8000_0000_0000_0000,
        r@.y == dec_le(b@, pos as int + 8, 8) - 0x8000_0000_0000_0000,
{
    proof {
        lemma_pow256_8();
        lemma_dec_le_bound(b@, pos as int, 8);
        lemma_dec_le_bound(b@, pos as int + 8, 8);
    }
    let total = b.len();
    let ux = dec_u64_exec(b, pos);
    let uy = dec_u64_exec(b, pos + 8);
    let x = ((ux as i128) - 0x8000_0000_0000_0000i128) as i64;
    let y = ((uy as i128) - 0x8000_0000_0000_0000i128) as i64;
    Coord { x, y }
}

/// Decode `n` coordinates at `pos`, as the spec decoder does.
#[verifier::loop_isolation(false)]
fn dec_coords_exec(b: &Vec<u8>, pos: usize, n: usize) -> (r: Option<(Vec<Coord>, usize)>)
    ensures
        r matches Some((v, end)) ==> dec_coords(b@, pos as int, n as nat) == Some(
            (ring_rep(v@), end as int),
        ) && pos <= end <= b@.len(),
        r is None ==> dec_coords(b@, pos as int, n as nat) is None,
{
    let ghost n0 = n as nat;
    let ghost pos0 = pos as int;
    if pos > b.len() {
        return None;
    }
    let mut out: Vec<Coord> = Vec::new();
    let mut p = pos;
    let mut i: usize = 0;
    proof {
        assert(ring_rep(out@) =~= Seq::<CoordRep>::empty());
        match dec_coords(b@, pos0, n0) {
            Some((rest, _e)) => {
                assert(Seq::<CoordRep>::empty() + rest =~= rest);
            },
            None => {},
        }
    }
    while i < n
        invariant
            0 <= i <= n,
            pos <= p <= b@.len(),
            out@.len() == i,
            dec_coords(b@, pos0, n0) == (match dec_coords(b@, p as int, (n - i) as nat) {
                Some((rest, end)) => Some::<(Seq<CoordRep>, int)>((ring_rep(out@) + rest, end)),
                None => None::<(Seq<CoordRep>, int)>,
            }),
        decreases n - i,
    {
        if !(p <= b.len() && b.len() - p >= 16) {
            proof {
                assert(dec_coords(b@, p as int, (n - i) as nat) is None);
            }
            return None;
        }
        let c = dec_coord_exec(b, p);
        let ghost prevout = out@;
        out.push(c);
        proof {
            assert(ring_rep(out@) =~= ring_rep(prevout).push(c@));
            assert(dec_coords(b@, p as int, (n - i) as nat) == (
            match dec_coords(b@, p as int + 16, (n - i - 1) as nat) {
                Some((rest, end)) => Some::<(Seq<CoordRep>, int)>((seq![c@] + rest, end)),
                None => None::<(Seq<CoordRep>, int)>,
            }));
            match dec_coords(b@, p as int + 16, (n - i - 1) as nat) {
                Some((rest, _end)) => {
                    assert((ring_rep(prevout) + (seq![c@] + rest)) =~= (ring_rep(prevout).push(c@)
                        + rest));
                },
                None => {},
            }
        }
        p = p + 16;
        i = i + 1;
    }
    proof {
        assert(dec_coords(b@, p as int, 0) == Some((Seq::<CoordRep>::empty(), p as int)));
        assert(ring_rep(out@) + Seq::<CoordRep>::empty() =~= ring_rep(out@));
    }
    Some((out, p))
}

/// Decode a counted vertex list at `pos`, as the spec decoder does.
fn dec_ring_exec(b: &Vec<u8>, pos: usize) -> (r: Option<(Vec<Coord>, usize)>)
    ensures
        r matches Some((v, end)) ==> dec_ring(b@, pos as int) == Some(
            (ring_rep(v@), end as int),
        ) && pos <= end <= b@.len(),
        r is None ==> dec_ring(b@, pos as int) is None,
{
    if !(pos <= b.len() && b.len() - pos >= 8) {
        return None;
    }
    let n = dec_u64_exec(b, pos);
    if n > CAP as u64 {
        return None;
    }
    match dec_coords_exec(b, pos + 8, n as usize) {
        Some((v, end)) => Some((v, end)),
        None => None,
    }
}

/// Decode `n` counted vertex lists at `pos`, as the spec decoder does.
#[verifier::loop_isolation(false)]
fn dec_rings_body_exec(b: &Vec<u8>, pos: usize, n: usize) -> (r: Option<(Vec<Vec<Coord>>, usize)>)
    ensures
        r matches Some((v, end)) ==> dec_rings_body(b@, pos as int, n as nat) == Some(
            (rings_rep(v@), end as int),
        ) && pos <= end <= b@.len(),
        r is None ==> dec_rings_body(b@, pos as int, n as nat) is None,
{
    let ghost n0 = n as nat;
    let ghost pos0 = pos as int;
    if pos > b.len() {
        return None;
    }
    let mut out: Vec<Vec<Coord>> = Vec::new();
    let mut p = pos;
    let mut i: usize = 0;
    proof {
        assert(rings_rep(out@) =~= Seq::<Seq<CoordRep>>::empty());
        match dec_rings_body(b@, pos0, n0) {
            Some((rest, _e)) => {
                assert(Seq::<Seq<CoordRep>>::empty() + rest =~= rest);
            },
            None => {},
        }
    }
    while i < n
        invariant
            0 <= i <= n,
            pos <= p <= b@.len(),
            out@.len() == i,
            dec_rings_body(b@, pos0, n0) == (match dec_rings_body(b@, p as int, (n - i) as nat) {
                Some((rest, end)) => Some::<(Seq<Seq<CoordRep>>, int)>(
                    (rings_rep(out@) + rest, end),
                ),
                None => None::<(Seq<Seq<CoordRep>>, int)>,
            }),
        decreases n - i,
    {
        let step = dec_ring_exec(b, p);
        match step {
            None => {
                return None;
            },
            Some((v, end)) => {
                if !(end > p) {
                    return None;
                }
                let ghost prevout = out@;
                let ghost vrep = ring_rep(v@);
                out.push(v);
                proof {
                    assert(rings_rep(out@) =~= rings_rep(prevout).push(vrep));
                    match dec_rings_body(b@, end as int, (n - i - 1) as nat) {
                        Some((rest, _e2)) => {
                            assert((rings_rep(prevout) + (seq![vrep] + rest)) =~= (rings_rep(
                                prevout,
                            ).push(vrep) + rest));
                        },
                        None => {},
                    }
                }
                p = end;
            },
        }
        i = i + 1;
    }
    proof {
        assert(rings_rep(out@) + Seq::<Seq<CoordRep>>::empty() =~= rings_rep(out@));
    }
    Some((out, p))
}

/// Decode a counted list of vertex lists at `pos`, as the spec decoder
/// does.
fn dec_rings_exec(b: &Vec<u8>, pos: usize) -> (r: Option<(Vec<Vec<Coord>>, usize)>)
    ensures
        r matches Some((v, end)) ==> dec_rings(b@, pos as int) == Some(
            (rings_rep(v@), end as int),
        ) && pos <= end <= b@.len(),
        r is None ==> dec_rings(b@, pos as int) is None,
{
    if !(pos <= b.len() && b.len() - pos >= 8) {
        return None;
    }
    let n = dec_u64_exec(b, pos);
    if n > CAP as u64 {
        return None;
    }
    dec_rings_body_exec(b, pos + 8, n as usize)
}

/// Decode `n` counted polygons at `pos`, as the spec decoder does.
#[verifier::loop_isolation(false)]
fn dec_polys_body_exec(b: &Vec<u8>, pos: usize, n: usize) -> (r: Option<
    (Vec<Vec<Vec<Coord>>>, usize),
>)
    ensures
        r matches Some((v, end)) ==> dec_polys_body(b@, pos as int, n as nat) == Some(
            (polys_rep(v@), end as int),
        ) && pos <= end <= b@.len(),
        r is None ==> dec_polys_body(b@, pos as int, n as nat) is None,
{
    let ghost n0 = n as nat;
    let ghost pos0 = pos as int;
    if pos > b.len() {
        return None;
    }
    let mut out: Vec<Vec<Vec<Coord>>> = Vec::new();
    let mut p = pos;
    let mut i: usize = 0;
    proof {
        assert(polys_rep(out@) =~= Seq::<Seq<Seq<CoordRep>>>::empty());
        match dec_polys_body(b@, pos0, n0) {
            Some((rest, _e)) => {
                assert(Seq::<Seq<Seq<CoordRep>>>::empty() + rest =~= rest);
            },
            None => {},
        }
    }
    while i < n
        invariant
            0 <= i <= n,
            pos <= p <= b@.len(),
            out@.len() == i,
            dec_polys_body(b@, pos0, n0) == (match dec_polys_body(b@, p as int, (n - i) as nat) {
                Some((rest, end)) => Some::<(Seq<Seq<Seq<CoordRep>>>, int)>(
                    (polys_rep(out@) + rest, end),
                ),
                None => None::<(Seq<Seq<Seq<CoordRep>>>, int)>,
            }),
        decreases n - i,
    {
        let step = dec_rings_exec(b, p);
        match step {
            None => {
                return None;
            },
            Some((v, end)) => {
                if !(end > p) {
                    return None;
                }
                let ghost prevout = out@;
                let ghost vrep = rings_rep(v@);
                out.push(v);
                proof {
                    assert(polys_rep(out@) =~= polys_rep(prevout).push(vrep));
                    match dec_polys_body(b@, end as int, (n - i - 1) as nat) {
                        Some((rest, _e2)) => {
                            assert((polys_rep(prevout) + (seq![vrep] + rest)) =~= (polys_rep(
                                prevout,
                            ).push(vrep) + rest));
                        },
                        None => {},
                    }
                }
                p = end;
            },
        }
        i = i + 1;
    }
    proof {
        assert(polys_rep(out@) + Seq::<Seq<Seq<CoordRep>>>::empty() =~= polys_rep(out@));
    }
    Some((out, p))
}

/// Decode one tagged shape at `pos`, as the spec decoder does.
fn dec_shape_exec(b: &Vec<u8>, pos: usize) -> (r: Option<(ShapeData, usize)>)
    ensures
        r matches Some((s, end)) ==> dec_shape(b@, pos as int) == Some((s@, end as int)) && pos
            <= end <= b@.len(),
        r is None ==> dec_shape(b@, pos as int) is None,
{
    if !(pos < b.len()) {
        return None;
    }
    let tag = b[pos];
    let body = pos + 1;
    if tag == 1 {
        if body <= b.len() && b.len() - body >= 16 {
            let c = dec_coord_exec(b, body);
            Some((ShapeData::Point(c), body + 16))
        } else {
            None
        }
    } else if tag == 2 {
        match dec_ring_exec(b, body) {
            Some((v, end)) => Some((ShapeData::LineString(v), end)),
            None => None,
        }
    } else if tag == 3 {
        match dec_ring_exec(b, body) {
            Some((v, end)) => Some((ShapeData::LinearRing(v), end)),
            None => None,
        }
    } else if tag == 4 {
        match dec_rings_exec(b, body) {
            Some((v, end)) => {
                if v.len() >= 1 {
                    Some((ShapeData::Polygon(v), end))
                } else {
                    None
                }
            },
            None => None,
        }
    } else if tag == 5 {
        match dec_ring_exec(b, body) {
            Some((v, end)) => Some((ShapeData::MultiPoint(v), end)),
            None => None,
        }
    } else if tag == 6 {
        match dec_rings_exec(b, body) {
            Some((v, end)) => Some((ShapeData::MultiLineString(v), end)),
            None => None,
        }
    } else if tag == 7 {
        if !(body <= b.len() && b.len() - body >= 8) {
            return None;
        }
        let n = dec_u64_exec(b, body);
        if n > CAP as u64 {
            return None;
        }
        match dec_polys_body_exec(b, body + 8, n as usize) {
            Some((v, end)) => Some((ShapeData::MultiPolygon(v), end)),
            None => None,
        }
    } else {
        None
    }
}

/// Decode one geometry at `pos`, as the spec decoder does.
#[verifier::loop_isolation(false)]
pub(crate) fn dec_geom_exec(b: &Vec<u8>, pos: usize) -> (r: Option<(GeomData, usize)>)
    ensures
        r matches Some((g, end)) ==> dec_geom(b@, pos as int) == Some((g@, end as int)) && pos
            <= end <= b@.len(),
        r is None ==> dec_geom(b@, pos as int) is None,
{
    if pos < b.len() && b[pos] == 8 {
        if !(b.len() - pos >= 9) {
            return None;
        }
        let n = dec_u64_exec(b, pos + 1);
        if n > CAP as u64 {
            return None;
        }
        let ghost n0 = n as nat;
        let mut out: Vec<ShapeData> = Vec::new();
        let mut p = pos + 9;
        let mut i: usize = 0;
        let nn = n as usize;
        proof {
            assert(shapes_rep(out@) =~= Seq::<ShapeRep>::empty());
            match dec_shapes_body(b@, pos as int + 9, n0) {
                Some((rest, _e)) => {
                    assert(Seq::<ShapeRep>::empty() + rest =~= rest);
                },
                None => {},
            }
        }
        while i < nn
            invariant
                0 <= i <= nn,
                pos + 9 <= p <= b@.len(),
                out@.len() == i,
                dec_shapes_body(b@, pos as int + 9, n0) == (
                match dec_shapes_body(b@, p as int, (nn - i) as nat) {
                    Some((rest, end)) => Some::<(Seq<ShapeRep>, int)>(
                        (shapes_rep(out@) + rest, end),
                    ),
                    None => None::<(Seq<ShapeRep>, int)>,
                }),
            decreases nn - i,
        {
            let step = dec_shape_exec(b, p);
            match step {
                None => {
                    return None;
                },
                Some((s, end)) => {
                    if !(end > p) {
                        return None;
                    }
                    let ghost prevout = out@;
                    let ghost srep = s@;
                    out.push(s);
                    proof {
                        assert(shapes_rep(out@) =~= shapes_rep(prevout).push(srep));
                        match dec_shapes_body(b@, end as int, (nn - i - 1) as nat) {
                            Some((rest, _e2)) => {
                                assert((shapes_rep(prevout) + (seq![srep] + rest)) =~= (shapes_rep(
                                    prevout,
                                ).push(srep) + rest));
                            },
                            None => {},
                        }
                    }
                    p = end;
                },
            }
            i = i + 1;
        }
        proof {
            assert(shapes_rep(out@) + Seq::<ShapeRep>::empty() =~= shapes_rep(out@));
        }
        Some((GeomData::Collection(out), p))
    } else {
        match dec_shape_exec(b, pos) {
            Some((s, end)) => Some((GeomData::Shape(s), end)),
            None => None,
        }
    }
}

/// The byte a value in `0..16` prints as, in upper-case hexadecimal.
pub open spec fn hex_digit(n: nat) -> u8 {
    if n < 10 {
        (48 + n) as u8
    } else {
        (55 + n) as u8
    }
}

/// The hexadecimal text of a byte sequence: two digits per byte, high
/// digit first.
pub open spec fn hex_of(b: Seq<u8>) -> Seq<u8>
    decreases b.len(),
{
    if b.len() == 0 {
        Seq::empty()
    } else {
        seq![hex_digit((b[0] / 16) as nat), hex_digit((b[0] % 16) as nat)] + hex_of(
            b.drop_first(),
        )
    }
}

/// The value of one hexadecimal digit byte, upper or lower case.
pub open spec fn unhex_digit(c: u8) -> Option<u8> {
    if 48 <= c <= 57 {
        Some((c - 48) as u8)
    } else if 65 <= c <= 70 {
        Some((c - 55) as u8)
    } else if 97 <= c <= 102 {
        Some((c - 87) as u8)
    } else {
        None
    }
}

/// The bytes read back from hexadecimal text; any stray character or odd
/// length rejects the whole text.
pub open spec fn unhex(h: Seq<u8>) -> Option<Seq<u8>>
    decreases h.len(),
{
    if h.len() == 0 {
        Some(Seq::empty())
    } else if h.len() == 1 {
        None
    } else {
        match (unhex_digit(h[0]), unhex_digit(h[1])) {
            (Some(hi), Some(lo)) => match unhex(h.skip(2)) {
                Some(rest) => Some(seq![(hi * 16 + lo) as u8] + rest),
                None => None,
            },
            _ => None,
        }
    }
}

/// Reading back the hexadecimal text of any bytes yields those bytes.
pub proof fn lemma_hex_round_trip(b: Seq<u8>)
    ensures
        unhex(hex_of(b)) == Some(b),
    decreases b.len(),
{
    if b.len() == 0 {
        assert(hex_of(b).len() == 0);
    } else {
        let h = hex_of(b);
        let hi = (b[0] / 16) as nat;
        let lo = (b[0] % 16) as nat;
        assert(hi < 16 && lo < 16) by (nonlinear_arith)
            requires
                hi == (b[0] / 16) as nat,
                lo == (b[0] % 16) as nat,
                b[0] < 256,
        ;
        assert(unhex_digit(hex_digit(hi)) == Some((hi as u8)));
        assert(unhex_digit(hex_digit(lo)) == Some((lo as u8)));
        lemma_hex_round_trip(b.drop_first());
        assert(h.skip(2) =~= hex_of(b.drop_first()));
        assert(hi * 16 + lo == b[0]) by (nonlinear_arith)
            requires
                hi == (b[0] / 16) as nat,
                lo == (b[0] % 16) as nat,
        ;
        assert(seq![b[0]] + b.drop_first() =~= b);
    }
}

/// The hexadecimal text of a byte buffer.
#[verifier::loop_isolation(false)]
pub(crate) fn hex_of_exec(b: &Vec<u8>) -> (r: Vec<u8>)
    ensures
        r@ == hex_of(b@),
{
    let mut out: Vec<u8> = Vec::new();
    let mut i: usize = 0;
    while i < b.len()
        invariant
            0 <= i <= b@.len(),
            out@ == hex_of(b@.take(i as int)),
        decreases b@.len() - i,
    {
        let x = b[i];
        let hi = x / 16;
        let lo = x % 16;
        let dh: u8 = if hi < 10 {
            48 + hi
        } else {
            55 + hi
        };
        let dl: u8 = if lo < 10 {
            48 + lo
        } else {
            55 + lo
        };
        let ghost prevout = out@;
        out.push(dh);
        out.push(dl);
        proof {
            lemma_hex_of_snoc(b@.take(i as int), b@[i as int]);
            assert(b@.take(i as int + 1) =~= b@.take(i as int).push(b@[i as int]));
            assert(out@ =~= prevout + seq![
                hex_digit((b@[i as int] / 16) as nat),
                hex_digit((b@[i as int] % 16) as nat),
            ]);
        }
        i = i + 1;
    }
    proof {
        assert(b@.take(b@.len() as int) =~= b@);
    }
    out
}

proof fn lemma_hex_of_snoc(b: Seq<u8>, x: u8)
    ensures
        hex_of(b.push(x)) == hex_of(b) + seq![
            hex_digit((x / 16) as nat),
            hex_digit((x % 16) as nat),
        ],
    decreases b.len(),
{
    if b.len() == 0 {
        assert(b.push(x)[0] == x);
        assert(b.push(x).drop_first() =~= b);
        assert(hex_of(b.push(x)) =~= hex_of(b) + seq![
            hex_digit((x / 16) as nat),
            hex_digit((x % 16) as nat),
        ]);
    } else {
        assert(b.push(x).drop_first() =~= b.drop_first().push(x));
        lemma_hex_of_snoc(b.drop_first(), x);
        assert(b.push(x)[0] == b[0]);
        let two = seq![hex_digit((b[0] / 16) as nat), hex_digit((b[0] % 16) as nat)];
        let tail = seq![hex_digit((x / 16) as nat), hex_digit((x % 16) as nat)];
        assert(two + (hex_of(b.drop_first()) + tail) =~= (two + hex_of(b.drop_first())) + tail);
    }
}

/// The bytes read back from hexadecimal text, as the spec reader does.
#[verifier::loop_isolation(false)]
pub(crate) fn unhex_exec(h: &Vec<u8>) -> (r: Option<Vec<u8>>)
    ensures
        r matches Some(v) ==> unhex(h@) == Some(v@),
        r is None ==> unhex(h@) is None,
{
    let mut out: Vec<u8> = Vec::new();
    let mut i: usize = 0;
    proof {
        assert(h@.skip(0) =~= h@);
        match unhex(h@) {
            Some(rest) => {
                assert(Seq::<u8>::empty() + rest =~= rest);
            },
            None => {},
        }
    }
    while i < h.len()
        invariant
            0 <= i <= h@.len(),
            i % 2 == 0,
            unhex(h@) == (match unhex(h@.skip(i as int)) {
                Some(rest) => Some::<Seq<u8>>(out@ + rest),
                None => None::<Seq<u8>>,
            }),
        decreases h@.len() - i,
    {
        if h.len() - i == 1 {
            return None;
        }
        let c0 = h[i];
        let c1 = h[i + 1];
        let d0: u8 = if 48 <= c0 && c0 <= 57 {
            c0 - 48
        } else if 65 <= c0 && c0 <= 70 {
            c0 - 55
        } else if 97 <= c0 && c0 <= 102 {
            c0 - 87
        } else {
            proof {
                assert(h@.skip(i as int)[0] == h@[i as int]);
                assert(unhex(h@.skip(i as int)) is None);
            }
            return None;
        };
        let d1: u8 = if 48 <= c1 && c1 <= 57 {
            c1 - 48
        } else if 65 <= c1 && c1 <= 70 {
            c1 - 55
        } else if 97 <= c1 && c1 <= 102 {
            c1 - 87
        } else {
            proof {
                assert(h@.skip(i as int)[0] == h@[i as int]);
                assert(h@.skip(i as int)[1] == h@[i as int + 1]);
                assert(unhex(h@.skip(i as int)) is None);
            }
            return None;
        };
        let ghost prevout = out@;
        out.push(d0 * 16 + d1);
        proof {
            assert(h@.skip(i as int)[0] == h@[i as int]);
            assert(h@.skip(i as int)[1] == h@[i as int + 1]);
            assert(h@.skip(i as int).skip(2) =~= h@.skip(i as int + 2));
            assert(unhex_digit(h@[i as int]) == Some(d0));
            assert(unhex_digit(h@[i as int + 1]) == Some(d1));
            match unhex(h@.skip(i as int + 2)) {
                Some(rest) => {
                    assert((prevout + (seq![(d0 * 16 + d1) as u8] + rest)) =~= (prevout.push(
                        (d0 * 16 + d1) as u8,
                    ) + rest));
                },
                None => {},
            }
        }
        i = i + 2;
    }
    proof {
        assert(h@.skip(h@.len() as int).len() == 0);
        assert(out@ + Seq::<u8>::empty() =~= out@);
    }
    Some(out)
}

} // verus!
