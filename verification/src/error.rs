//! Error taxonomy and the result translator.
//!
//! The engine reports predicate outcomes as tri-state integer codes
//! (`0` = false, `1` = true, anything else = error) and side-effecting or
//! scalar calls as two-state codes (`1` = success, anything else = failure).
//! The two translator functions below are the single boundary at which raw
//! codes become typed results; no raw status code travels past them.

use vstd::prelude::*;

verus! {

/// Which operation a status code came from, kept for diagnostics.
#[derive(Clone, Copy, Debug, PartialEq, Eq, Structural)]
pub enum PredicateType {
    Intersects,
    Crosses,
    Disjoint,
    Touches,
    Overlaps,
    Within,
    Equals,
    EqualsExact,
    Covers,
    CoveredBy,
    Contains,
    IsRing,
    IsEmpty,
    IsSimple,
    IsClosed,
    HasZ,
    Normalize,
    Area,
    Length,
    Distance,
}

/// The error taxonomy of this layer.
#[derive(Clone, Debug, PartialEq)]
pub enum Error {
    /// The engine's context or global state could not be created.
    InitializationError,
    /// A constructor or derived-geometry operation received a null handle
    /// from the engine; the attempted object never comes into existence.
    NoConstructionFromNullPtr,
    /// A predicate or scalar-measure call returned the engine's error
    /// sentinel; carries the operation and the raw status code.
    GeosError(PredicateType, i32),
    /// A caller-level precondition was violated before any engine call
    /// was attempted.
    ImpossibleOperation(String),
}

pub type GResult<T> = Result<T, Error>;

/// What the tri-state translator returns, stated as a spec-level function.
pub open spec fn spec_predicate_result(val: i32, p: PredicateType) -> GResult<bool> {
    if val == 0 {
        Ok(false)
    } else if val == 1 {
        Ok(true)
    } else {
        Err(Error::GeosError(p, val))
    }
}

/// Translate the engine's tri-state convention (`0` = false, `1` = true,
/// anything else = error) into a typed result.
pub fn check_geos_predicate(val: i32, p: PredicateType) -> (r: GResult<bool>)
    ensures
        r == spec_predicate_result(val, p),
{
    if val == 0 {
        Ok(false)
    } else if val == 1 {
        Ok(true)
    } else {
        Err(Error::GeosError(p, val))
    }
}

/// What the two-state translator returns, stated as a spec-level function.
pub open spec fn spec_status_result(val: i32, p: PredicateType) -> GResult<()> {
    if val == 1 {
        Ok(())
    } else {
        Err(Error::GeosError(p, val))
    }
}

/// Translate the engine's two-state convention (`1` = success, anything
/// else = failure) into a typed result.
pub fn check_ret(val: i32, p: PredicateType) -> (r: GResult<()>)
    ensures
        r == spec_status_result(val, p),
{
    if val == 1 {
        Ok(())
    } else {
        Err(Error::GeosError(p, val))
    }
}

} // verus!
