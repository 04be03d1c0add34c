//! The library's laws: what holds of every geometry, stated over the
//! models and proved once and for all.

use vstd::prelude::*;
use crate::geometry::{intersects_rep, is_ring_geom, kind_rep, ring_of};
use crate::norm::{equals_rep, norm_geom};
use crate::ops::{env_overlap, env_of, geom_coords};
use crate::value::{wf_geom, GeomRep};
use crate::wkb::{dec_geom, enc_geom, hex_of, unhex};

verus! {

/// Round trip: reading back the binary form of any well-formed geometry
/// yields that geometry, consuming the whole buffer; and reading back
/// the hexadecimal text of the binary form yields the binary form. So a
/// geometry exported through either channel is reconstructed exactly,
/// and the reconstruction compares equal to the original.
pub proof fn lemma_codec_round_trip(g: GeomRep)
    requires
        wf_geom(g),
    ensures
        dec_geom(enc_geom(g), 0) == Some((g, enc_geom(g).len() as int)),
        unhex(hex_of(enc_geom(g))) == Some(enc_geom(g)),
        equals_rep(g, g),
{
    crate::wkb::lemma_wkb_round_trip(g);
    crate::wkb::lemma_hex_round_trip(enc_geom(g));
}

/// No handle is lost and none is doubled under composition: the polygon
/// assembled from an exterior ring and interior rings holds exactly the
/// consumed rings, the exterior first, each interior once, in order. The
/// children themselves were moved in, so no other owner of those rings
/// remains to release them again.
pub proof fn lemma_polygon_adoption(exterior: GeomRep, interiors: Seq<GeomRep>)
    requires
        is_ring_geom(exterior),
        forall|i: int| 0 <= i < interiors.len() ==> is_ring_geom(#[trigger] interiors[i]),
    ensures
        ({
            let rings = seq![ring_of(exterior)] + interiors.map_values(|g: GeomRep| ring_of(g));
            &&& rings.len() == 1 + interiors.len()
            &&& rings[0] == ring_of(exterior)
            &&& forall|i: int| 0 <= i < interiors.len() ==> rings[i + 1] == ring_of(
                #[trigger] interiors[i],
            )
        }),
{
    let rings = seq![ring_of(exterior)] + interiors.map_values(|g: GeomRep| ring_of(g));
    assert(forall|i: int| 0 <= i < interiors.len() ==> #[trigger] rings[i + 1] == ring_of(
        interiors[i],
    ));
}

/// The intersection test is symmetric: both geometries' envelopes share
/// a point, whichever is asked.
pub proof fn lemma_intersects_symmetric(a: GeomRep, b: GeomRep)
    ensures
        intersects_rep(a, b) == intersects_rep(b, a),
{
    assert(env_overlap(env_of(geom_coords(a)), env_of(geom_coords(b))) == env_overlap(
        env_of(geom_coords(b)),
        env_of(geom_coords(a)),
    ));
}

/// The engine's comparison is symmetric.
pub proof fn lemma_equals_symmetric(a: GeomRep, b: GeomRep)
    ensures
        equals_rep(a, b) == equals_rep(b, a),
{
}

/// The engine's comparison is reflexive: in particular, a deep clone
/// (whose value equals its source's value) compares equal to its source.
pub proof fn lemma_equals_reflexive(g: GeomRep)
    ensures
        equals_rep(g, g),
{
}

/// Geometries the engine's comparison calls equal print the same text
/// once both are in normal form, at every precision.
pub proof fn lemma_equals_same_wkt(a: GeomRep, b: GeomRep, d: nat)
    requires
        equals_rep(a, b),
    ensures
        crate::wkt::geom_wkt(norm_geom(a), d) == crate::wkt::geom_wkt(norm_geom(b), d),
{
}

/// The kind check of the multi-geometry composers is transactional: when
/// any child is of the wrong kind, the composer reports the caller-level
/// error before any engine call, whatever the other children are.
pub proof fn lemma_kind_check_first(gs: Seq<GeomRep>, k: crate::value::GGeomTypes, i: int)
    requires
        0 <= i < gs.len(),
        kind_rep(gs[i]) != k,
    ensures
        !crate::geometry::all_of_kind(gs, k),
{
}

} // verus!
