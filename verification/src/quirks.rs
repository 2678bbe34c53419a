//! Configuration toggles for historically divergent interpreter behaviors.

use vstd::prelude::*;

verus! {

/// A fixed set of boolean toggles selected once at construction and immutable
/// thereafter. Each toggle gates one specific branch on which historical
/// CHIP-8 interpreters genuinely disagreed.
pub struct Quirks {
    /// The shift instructions first copy the second operand register into the
    /// first before shifting.
    pub set_vx_to_vy: bool,
    /// The register dump/load instructions increment the index register once
    /// per register copied.
    pub fx_incr_index: bool,
    /// Adding a register into the index register sets the flag register.
    /// The historical overflow condition this toggle gates is tautological,
    /// so with the toggle enabled the flag is always set.
    pub set_vf_on_fx1e_overflow: bool,
    /// The jump-with-offset instruction adds the register selected by the
    /// instruction's second nibble rather than register 0.
    pub bxnn: bool,
}

impl Quirks {
    /// The toggle selection of modern CHIP-8 interpreters.
    pub fn modern_chip8() -> (q: Quirks)
        ensures
            q.set_vx_to_vy == true,
            q.fx_incr_index == false,
            q.set_vf_on_fx1e_overflow == true,
            q.bxnn == false,
    {
        Quirks {
            set_vx_to_vy: true,
            fx_incr_index: false,
            set_vf_on_fx1e_overflow: true,
            bxnn: false,
        }
    }
}

} // verus!
