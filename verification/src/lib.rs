//! Arithmetic in a prime field and the group law of a short Weierstrass curve over it.

pub mod bigint;
pub mod curve;
pub mod curve_laws;
pub mod error;
pub mod field_element;
pub mod field_laws;
pub mod modular;

pub use curve::{CurvePoint, PointValue};
pub use error::{Error, ErrorKind};
pub use field_element::{FieldElement, FieldValue};
