//! Faults that the unit reports to its caller.

use vstd::prelude::*;
use crate::addr::VA;

verus! {

/// A guest-visible memory fault. Each variant carries the virtual address
/// at which the fault was found.
#[derive(Debug, Clone, Copy, PartialEq, Eq, Structural)]
pub enum MMUError {
    AddressAlreadyMapped(VA),
    AddressNotMapped(VA),
    AddressNotReadable(VA),
    AddressNotWritable(VA),
}

} // verus!
