//! Snippets: the serializable form of a planning session.
//!
//! A snippet stores machines by name (crafter, recipe, module names) rather
//! than as resolved objects, plus the item speed constraints. The editor
//! resolves a snippet into live machines on load and derives one on save;
//! reading and writing snippet files is ordinary I/O outside the library.

use crate::machine::{Machine, MachineKind};
use crate::primitives::{CrafterName, ItemName, MachineCount, ModuleName, RecipeName, Speed};
use vstd::prelude::*;

verus! {

pub struct SourceSinkSnippet {
    pub item: ItemName,
}

pub struct BeaconSnippet {
    pub modules: Vec<ModuleName>,
}

pub struct CrafterSnippet {
    pub crafter: CrafterName,
    pub modules: Vec<ModuleName>,
    pub beacons: Vec<BeaconSnippet>,
    pub recipe: RecipeName,
    pub count_constraint: Option<MachineCount>,
}

pub enum MachineSnippet {
    Source(SourceSinkSnippet),
    Sink(SourceSinkSnippet),
    Crafter(CrafterSnippet),
}

pub struct Snippet {
    pub machines: Vec<MachineSnippet>,
    pub item_speed_constraints: Vec<(ItemName, Speed)>,
}

/// The snippet names the same machine shape: same kind, and for crafters
/// the same crafter, recipe, module and beacon-module names.
pub open spec fn snippet_matches(s: MachineSnippet, m: Machine) -> bool {
    match m.kind {
        MachineKind::Source { item } => s matches MachineSnippet::Source(ss) && ss.item@ == item@,
        MachineKind::Sink { item } => s matches MachineSnippet::Sink(ss) && ss.item@ == item@,
        MachineKind::Crafter { crafter, recipe, modules, beacons, count_constraint } => s matches
            MachineSnippet::Crafter(cs) && {
            &&& cs.crafter@ == crafter.name@
            &&& cs.recipe@ == recipe.name@
            &&& cs.modules@.len() == modules@.len()
            &&& forall|j: int|
                0 <= j < modules@.len() ==> (#[trigger] cs.modules@[j])@ == modules@[j].name@
            &&& cs.beacons@.len() == beacons@.len()
            &&& forall|b: int, j: int|
                0 <= b < beacons@.len() && 0 <= j < (#[trigger] beacons@[b]).modules@.len() ==> (
                #[trigger] cs.beacons@[b].modules@[j])@ == beacons@[b].modules@[j].name@
            &&& forall|b: int|
                0 <= b < beacons@.len() ==> (#[trigger] cs.beacons@[b]).modules@.len()
                    == beacons@[b].modules@.len()
            &&& match count_constraint {
                Some(c) => cs.count_constraint matches Some(c2) && c2@ == c@,
                None => cs.count_constraint is None,
            }
        },
    }
}

/// Derive the snippet form of a live machine.
pub fn machine_snippet_of(m: &Machine) -> (r: MachineSnippet)
    ensures
        snippet_matches(r, *m),
{
    match &m.kind {
        MachineKind::Source { item } => MachineSnippet::Source(
            SourceSinkSnippet { item: item.clone() },
        ),
        MachineKind::Sink { item } => MachineSnippet::Sink(
            SourceSinkSnippet { item: item.clone() },
        ),
        MachineKind::Crafter { crafter, recipe, modules, beacons, count_constraint } => {
            let mut module_names: Vec<ModuleName> = Vec::new();
            let mut i: usize = 0;
            while i < modules.len()
                invariant
                    i <= modules@.len(),
                    module_names@.len() == i,
                    forall|j: int|
                        0 <= j < i ==> (#[trigger] module_names@[j])@ == modules@[j].name@,
                decreases modules@.len() - i,
            {
                module_names.push(modules[i].name.clone());
                i = i + 1;
            }
            let mut beacon_snips: Vec<BeaconSnippet> = Vec::new();
            let mut b: usize = 0;
            while b < beacons.len()
                invariant
                    b <= beacons@.len(),
                    beacon_snips@.len() == b,
                    forall|bb: int|
                        0 <= bb < b ==> (#[trigger] beacon_snips@[bb]).modules@.len()
                            == beacons@[bb].modules@.len(),
                    forall|bb: int, j: int|
                        0 <= bb < b && 0 <= j < (#[trigger] beacons@[bb]).modules@.len() ==> (
                        #[trigger] beacon_snips@[bb].modules@[j])@ == beacons@[bb].modules@[j].name@,
                decreases beacons@.len() - b,
            {
                let mut names: Vec<ModuleName> = Vec::new();
                let mut j: usize = 0;
                while j < beacons[b].modules.len()
                    invariant
                        b < beacons@.len(),
                        j <= beacons@[b as int].modules@.len(),
                        names@.len() == j,
                        forall|k: int|
                            0 <= k < j ==> (#[trigger] names@[k])@ == beacons@[b as int].modules@[k].name@,
                    decreases beacons@[b as int].modules@.len() - j,
                {
                    names.push(beacons[b].modules[j].name.clone());
                    j = j + 1;
                }
                beacon_snips.push(BeaconSnippet { modules: names });
                b = b + 1;
            }
            let cc = match count_constraint {
                Some(c) => Some(MachineCount(c.0)),
                None => None,
            };
            MachineSnippet::Crafter(
                CrafterSnippet {
                    crafter: crafter.name.clone(),
                    modules: module_names,
                    beacons: beacon_snips,
                    recipe: recipe.name.clone(),
                    count_constraint: cc,
                },
            )
        },
    }
}

} // verus!
