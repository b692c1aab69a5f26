//! Teams-focused network diagnostics: reading `ping` and `route` output,
//! encoding and decoding STUN, choosing the endpoints to check, planning
//! network impairment, and laying out the HTML report.
use vstd::prelude::*;

pub mod bandwidth;
pub mod impair;
pub mod ping;
pub mod ports;
pub mod report;
pub mod stress;
pub mod text;

verus! {

} // verus!
