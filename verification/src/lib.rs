//! Backend core for a small dashboard application: a greeting formatter,
//! a fixed list of dashboard KPI records, and a key-value codec that
//! carries those records across a process boundary without loss.

pub mod codec;
pub mod greeting;
pub mod kpi;

use vstd::prelude::*;

verus! {

} // verus!
