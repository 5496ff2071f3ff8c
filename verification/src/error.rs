//! Error taxonomy of the planner.
//!
//! Reference-resolution, index and capacity errors reject a mutation and
//! leave the state unchanged. The solver errors mark the editor unsolved;
//! the caller is expected to adjust constraints and retry.

use vstd::prelude::*;

verus! {

#[derive(Clone, Copy, Debug, PartialEq, Eq, Structural)]
pub enum Error {
    /// An item name does not occur in any recipe of the game data.
    UnknownItem,
    /// A recipe name is not present in the game data.
    UnknownRecipe,
    /// A crafter name is not present in the game data.
    UnknownCrafter,
    /// A module name is not present in the module table.
    UnknownModule,
    /// A recipe category has no eligible crafters.
    UnknownCategory,
    /// The named crafter is not eligible for the recipe's category.
    CrafterNotEligible,
    /// Several crafters are eligible and none is configured or unambiguous.
    AmbiguousCrafter,
    /// A machine index is out of bounds.
    InvalidMachineIndex,
    /// A module index is out of bounds.
    InvalidModuleIndex,
    /// The machine's module inventory is full.
    ModuleCapacityExceeded,
    /// The recipe does not accept productivity effects.
    ProductivityNotAllowed,
    /// A beacon holds more than two modules.
    TooManyBeaconModules,
    /// A productivity module was placed inside a beacon.
    ProductivityInBeacon,
    /// The operation applies only to crafter machines, not sources or sinks.
    NotACrafterMachine,
    /// The solved multipliers are all zero: too few constraints.
    SolveDegenerate,
    /// The residual exceeds the tolerance: contradictory constraints.
    SolveInfeasible,
    /// Some multiplier is negative: too few constraints.
    SolveNegative,
    /// Exact arithmetic left the representable range.
    NumericalFailure,
}

impl Error {
    /// Human-readable description, for display by the caller.
    pub fn message(&self) -> &'static str {
        match self {
            Error::UnknownItem => "unknown item",
            Error::UnknownRecipe => "invalid recipe name",
            Error::UnknownCrafter => "crafter not found",
            Error::UnknownModule => "invalid module name",
            Error::UnknownCategory => "unknown recipe category",
            Error::CrafterNotEligible => "requested crafter is not available for this recipe",
            Error::AmbiguousCrafter => "ambiguous crafter; pick one explicitly",
            Error::InvalidMachineIndex => "invalid machine index",
            Error::InvalidModuleIndex => "invalid module index",
            Error::ModuleCapacityExceeded => "no more space for modules",
            Error::ProductivityNotAllowed => "machine recipe doesn't allow productivity",
            Error::TooManyBeaconModules => "too many modules in a beacon",
            Error::ProductivityInBeacon => "productivity modules are not allowed in beacons",
            Error::NotACrafterMachine => "operation is not supported for sources and sinks",
            Error::SolveDegenerate => "solve result is zero; try adding more constraints",
            Error::SolveInfeasible => "couldn't fit all constraints; try removing constraints or changing their values",
            Error::SolveNegative => "solution is negative! try adding more constraints",
            Error::NumericalFailure => "numerical failure while solving",
        }
    }
}

} // verus!
