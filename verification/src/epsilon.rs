use vstd::prelude::*;

verus! {

/// The default tolerance for comparing floating-point values (1e-5).
pub struct DefaultEpsilon;

/// A tight tolerance for comparing floating-point values (1e-9).
pub struct HighPrecisionEpsitlon;

/// A loose tolerance for comparing floating-point values (1e-3).
pub struct LowPrecisionEpsitlon;

} // verus!
