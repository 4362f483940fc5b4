//! The handle by which a linked shader program is known to the graphics
//! layer.

use vstd::prelude::*;

verus! {

/// A linked shader program, by the identifier that the graphics layer gave
/// it. The library only carries the identifier; compiling, linking and
/// using the program is the caller's business.
#[derive(Debug)]
pub struct Program {
    id: u32,
}

impl Program {
    /// The identifier of the program.
    pub closed spec fn spec_id(&self) -> u32 {
        self.id
    }

    /// Wraps the identifier of a linked program.
    pub fn from_id(id: u32) -> (r: Program)
        ensures
            r.spec_id() == id,
    {
        Program { id }
    }

    /// The identifier of the program.
    #[verifier::when_used_as_spec(spec_id)]
    pub fn id(&self) -> (r: u32)
        ensures
            r == self.spec_id(),
    {
        self.id
    }
}

} // verus!
