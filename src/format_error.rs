use vstd::prelude::*;

verus! {

/// Why a simple text table could not be built or written.
#[derive(Debug, Clone)]
pub enum FormatError {
    InconsistentRowWidth,
    WriteError(String),
}

} // verus!
