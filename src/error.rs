use vstd::prelude::*;

verus! {

/// Why a decode attempt failed.
#[derive(PartialEq, Eq, Structural, Debug, Clone, Copy)]
pub enum ParseError {
    /// A decoded code lies outside its enumeration; carries the offending byte.
    InvalidValue(u8),
    /// Fewer bytes are available than a fixed-size field needs.
    InvalidLength,
}

} // verus!
