//! Safe ownership and lifetime layer over a handle-based geometry engine.
//!
//! A [`GGeom`] exclusively owns one geometry value and shares a
//! [`GContextHandle`] with every geometry constructed from the same call
//! chain. Construction parses an external representation (WKT, WKB, HEX)
//! or consumes a [`CoordSeq`]; operations borrow `self` and peers and
//! either produce a fresh geometry, a scalar measure, or a typed
//! true/false/error outcome. Composite constructors adopt their children
//! by ownership transfer, so no geometry value is ever owned twice and
//! none is lost.

pub mod context;
pub mod coords;
pub mod error;
pub mod geometry;
pub mod laws;
pub mod scalar;
pub mod value;
pub mod wkb;
pub mod wkt;
pub mod ops;
pub mod norm;

pub use crate::context::GContextHandle;
pub use crate::coords::CoordSeq;
pub use crate::error::check_geos_predicate;
pub use crate::error::check_ret;
pub use crate::error::Error;
pub use crate::error::GResult;
pub use crate::error::PredicateType;
pub use crate::geometry::GGeom;
pub use crate::scalar::Scalar;
pub use crate::value::Coord;
pub use crate::value::GGeomTypes;
