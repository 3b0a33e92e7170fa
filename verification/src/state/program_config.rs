use vstd::prelude::*;

verus! {

/// The process-wide singleton bootstrap record.
///
/// It holds only the storage-slot derivation tag of its own slot, is created
/// once at deployment time and never mutated thereafter. It has no
/// authorization coupling to the binding records.
#[derive(Clone, Copy, PartialEq, Eq, Structural, Debug)]
pub struct ProgramConfig {
    pub bump: u8,
}

impl ProgramConfig {
    /// Records the derivation tag of the configuration slot.
    pub fn initialize(&mut self, bump: u8)
        ensures
            *final(self) == (ProgramConfig { bump }),
    {
        self.bump = bump;
    }
}

} // verus!
