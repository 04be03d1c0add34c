//! The coordinate sequence: an independently owned buffer of coordinate
//! tuples, consumed when a point, line string, or linear ring is built.
//!
//! A sequence owns its buffer exclusively. Handing it to a geometry
//! constructor moves the whole value in, so the buffer can never be
//! released twice: after the move there is no second owner left to
//! release it.

use vstd::prelude::*;
use crate::error::{Error, GResult};
use crate::value::{check_ring, ring_rep, wf_ring, Coord, CoordRep};

verus! {

/// An ordered buffer of coordinate tuples, within the engine's bounds.
pub struct CoordSeq {
    coords: Vec<Coord>,
}

impl View for CoordSeq {
    type V = Seq<CoordRep>;

    closed spec fn view(&self) -> Seq<CoordRep> {
        ring_rep(self.coords@)
    }
}

impl CoordSeq {
    /// Build a sequence from a coordinate buffer. Fails exactly when the
    /// buffer exceeds the engine's bounds, in which case the engine would
    /// have handed back a null buffer handle.
    pub fn new_from_coords(coords: Vec<Coord>) -> (r: GResult<CoordSeq>)
        ensures
            wf_ring(ring_rep(coords@)) ==> (r matches Ok(s) && s@ == ring_rep(coords@)),
            !wf_ring(ring_rep(coords@)) ==> r == Err::<CoordSeq, Error>(
                Error::NoConstructionFromNullPtr,
            ),
    {
        if check_ring(&coords) {
            Ok(CoordSeq { coords })
        } else {
            Err(Error::NoConstructionFromNullPtr)
        }
    }

    /// Read-only borrow of the underlying buffer.
    pub fn as_coords(&self) -> (r: &Vec<Coord>)
        ensures
            ring_rep(r@) == self@,
            wf_ring(self@),
    {
        proof {
            use_type_invariant(self);
        }
        &self.coords
    }

    /// The number of coordinate tuples held.
    pub fn size(&self) -> (r: usize)
        ensures
            r == self@.len(),
    {
        self.coords.len()
    }

    /// Every sequence the library hands out is within the engine's bounds.
    #[verifier::type_invariant]
    pub closed spec fn bounded(&self) -> bool {
        wf_ring(self@)
    }

    /// Take the buffer out, consuming the sequence: the ownership transfer
    /// a geometry constructor performs.
    pub fn into_coords(self) -> (r: Vec<Coord>)
        ensures
            ring_rep(r@) == self@,
            wf_ring(self@),
    {
        proof {
            use_type_invariant(&self);
        }
        let CoordSeq { coords } = self;
        coords
    }
}

} // verus!
