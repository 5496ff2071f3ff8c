//! Planner configuration: the crafters preferred by automatic selection.

use crate::primitives::CrafterName;
use vstd::prelude::*;

verus! {

pub struct Config {
    pub furnace_type: CrafterName,
    pub assembler_type: CrafterName,
    /// Module quality tier the interface offers by default (1, 2 or 3).
    pub module_tier: u32,
}

impl Clone for Config {
    fn clone(&self) -> (r: Self)
        ensures
            r.furnace_type@ == self.furnace_type@,
            r.assembler_type@ == self.assembler_type@,
            r.module_tier == self.module_tier,
    {
        Config {
            furnace_type: self.furnace_type.clone(),
            assembler_type: self.assembler_type.clone(),
            module_tier: self.module_tier,
        }
    }
}

pub fn default_module_tier() -> (r: u32)
    ensures
        r == 1u32,
{
    1
}

} // verus!
