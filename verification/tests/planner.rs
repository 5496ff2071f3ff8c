//! End-to-end tests of the production planner: exact arithmetic, machine
//! throughput, the solver's feasibility checks, and the editor's mutation
//! API with source/sink synchronization.

use factories::config::Config;
use factories::editor::Editor;
use factories::error::Error;
use factories::game_data::{Effects, GameData, Ingredient, Product, Recipe};
use factories::info::{default_modules, Info};
use factories::machine::{Beacon, Crafter, Machine, MachineKind, Module, ModuleType};
use factories::primitives::{
    name_or_untitled, CrafterName, ItemName, MachineCount, ModuleName, RecipeCategory, RecipeName,
    Speed,
};
use factories::rational::{isqrt_u64, Rat};
use factories::snippet::{CrafterSnippet, MachineSnippet};

fn rat(n: i64, d: i64) -> Rat {
    Rat::new(n, d).unwrap()
}

fn item(n: &str) -> ItemName {
    ItemName(n.to_string())
}

fn ingredient(n: &str, amount: i64) -> Ingredient {
    Ingredient { name: item(n), amount: factories::primitives::Amount(rat(amount, 1)) }
}

fn product(n: &str, amount: i64) -> Product {
    Product {
        name: item(n),
        amount: factories::primitives::Amount(rat(amount, 1)),
        ignored_by_productivity: factories::primitives::Amount(rat(0, 1)),
        probability: rat(1, 1),
    }
}

fn effects_with_productivity() -> Effects {
    Effects { consumption: true, speed: true, productivity: true, pollution: true, quality: true }
}

/// Electronic-circuit style data: one recipe, one eligible crafter of
/// speed 1/2 with two module slots.
fn test_info() -> Info {
    let recipes = vec![
        Recipe {
            name: RecipeName("electronic-circuit".to_string()),
            category: RecipeCategory("electronics".to_string()),
            ingredients: vec![ingredient("iron-plate", 2), ingredient("copper-plate", 1)],
            products: vec![product("electronic-circuit", 1)],
            energy: rat(1, 1),
            productivity_bonus: rat(0, 1),
            allowed_effects: effects_with_productivity(),
        },
        Recipe {
            name: RecipeName("no-productivity".to_string()),
            category: RecipeCategory("electronics".to_string()),
            ingredients: vec![ingredient("iron-plate", 1)],
            products: vec![product("gear", 1)],
            energy: rat(1, 2),
            productivity_bonus: rat(0, 1),
            allowed_effects: Effects::none(),
        },
        Recipe {
            name: RecipeName("broken-clock".to_string()),
            category: RecipeCategory("electronics".to_string()),
            ingredients: vec![ingredient("iron-plate", 1)],
            products: vec![product("clock", 1)],
            energy: rat(0, 1),
            productivity_bonus: rat(0, 1),
            allowed_effects: Effects::none(),
        },
        Recipe {
            name: RecipeName("smelting-iron".to_string()),
            category: RecipeCategory("smelting".to_string()),
            ingredients: vec![ingredient("iron-ore", 1)],
            products: vec![product("iron-plate", 1)],
            energy: rat(2, 1),
            productivity_bonus: rat(0, 1),
            allowed_effects: effects_with_productivity(),
        },
    ];
    let crafters = vec![
        Crafter {
            name: CrafterName("assembling-machine-1".to_string()),
            energy_usage: rat(75, 1),
            crafting_speed: rat(1, 2),
            module_inventory_size: 2,
        },
        Crafter {
            name: CrafterName("stone-furnace".to_string()),
            energy_usage: rat(90, 1),
            crafting_speed: rat(1, 1),
            module_inventory_size: 0,
        },
        Crafter {
            name: CrafterName("steel-furnace".to_string()),
            energy_usage: rat(90, 1),
            crafting_speed: rat(2, 1),
            module_inventory_size: 0,
        },
    ];
    let category_to_crafter = vec![
        (
            RecipeCategory("electronics".to_string()),
            vec![CrafterName("assembling-machine-1".to_string())],
        ),
        (
            RecipeCategory("smelting".to_string()),
            vec![
                CrafterName("stone-furnace".to_string()),
                CrafterName("steel-furnace".to_string()),
            ],
        ),
        (RecipeCategory("ghost-town".to_string()), vec![CrafterName("phantom".to_string())]),
    ];
    let config = Config {
        furnace_type: CrafterName("none-configured".to_string()),
        assembler_type: CrafterName("none-configured".to_string()),
        module_tier: 1,
    };
    Info::new(config, GameData { recipes }, default_modules(), crafters, category_to_crafter)
}

fn editor() -> Editor {
    Editor::new(test_info())
}

fn circuit_editor() -> Editor {
    let mut ed = editor();
    ed.add_crafter(&RecipeName("electronic-circuit".to_string()), None).unwrap();
    ed
}

fn find_crafter_index(ed: &Editor, recipe: &str) -> usize {
    for (i, m) in ed.machines().iter().enumerate() {
        if let MachineKind::Crafter { recipe: r, .. } = &m.kind {
            if r.name.as_str() == recipe {
                return i;
            }
        }
    }
    panic!("no crafter machine for {}", recipe);
}

fn source_count(ed: &Editor, name: &str) -> Option<Rat> {
    for m in ed.machines().iter() {
        if let MachineKind::Source { item } = &m.kind {
            if item.as_str() == name {
                return Some(m.crafter_count.0);
            }
        }
    }
    None
}

fn sink_count(ed: &Editor, name: &str) -> Option<Rat> {
    for m in ed.machines().iter() {
        if let MachineKind::Sink { item } = &m.kind {
            if item.as_str() == name {
                return Some(m.crafter_count.0);
            }
        }
    }
    None
}

fn speed_module() -> Module {
    Module {
        name: ModuleName("speed-module".to_string()),
        type_: ModuleType::Speed,
        energy_delta_percent: rat(50, 1),
        speed_delta_percent: rat(20, 1),
        productivity_delta_percent: rat(0, 1),
    }
}

// ---------------------------------------------------------------------------
// Exact rational arithmetic.
// ---------------------------------------------------------------------------

#[test]
fn rational_arithmetic_is_exact() {
    let a = rat(1, 3);
    let b = rat(1, 6);
    assert!(a.add(b).unwrap().eq_val(rat(1, 2)));
    assert!(a.sub(b).unwrap().eq_val(rat(1, 6)));
    assert!(a.mul(b).unwrap().eq_val(rat(1, 18)));
    assert!(a.div(b).unwrap().eq_val(rat(2, 1)));
    assert!(rat(3, 6).eq_val(rat(1, 2)));
    assert!(rat(-4, 8).eq_val(rat(1, -2)));
    assert!(rat(1, 3).lt(rat(1, 2)));
    assert!(rat(-1, 2).is_neg());
    assert!(rat(0, 5).is_zero());
    assert_eq!(rat(7, 2).numer(), 7);
    assert_eq!(rat(7, 2).denom(), 2);
}

#[test]
fn rational_rejects_zero_denominator() {
    assert!(Rat::new(1, 0).is_none());
}

#[test]
fn integer_square_root_values() {
    assert_eq!(isqrt_u64(0), 0);
    assert_eq!(isqrt_u64(1), 1);
    assert_eq!(isqrt_u64(3), 1);
    assert_eq!(isqrt_u64(4), 2);
    assert_eq!(isqrt_u64(4_000_000_000_000), 2_000_000);
    assert_eq!(isqrt_u64(2_000_000_000_000), 1_414_213);
}

// ---------------------------------------------------------------------------
// Machine throughput.
// ---------------------------------------------------------------------------

#[test]
fn source_and_sink_rates_are_the_multiplier() {
    let mut src = Machine::new_source(item("iron-plate"));
    src.crafter_count = MachineCount(rat(7, 2));
    let speeds = src.item_speeds().unwrap();
    assert_eq!(speeds.len(), 1);
    assert_eq!(speeds[0].item.as_str(), "iron-plate");
    assert!(speeds[0].speed.0.eq_val(rat(7, 2)));

    let mut snk = Machine::new_sink(item("iron-plate"));
    snk.crafter_count = MachineCount(rat(5, 1));
    let speeds = snk.item_speeds().unwrap();
    assert_eq!(speeds.len(), 1);
    assert!(speeds[0].speed.0.eq_val(rat(-5, 1)));
}

/// Four beacons with two 20% speed modules each: transmission strength
/// `1.5/sqrt(4) = 0.75`, speed multiplier `(100 + 0.75 * 160)/100 = 2.2`.
#[test]
fn beacon_transmission_formula() {
    let beacon = || Beacon { modules: vec![speed_module(), speed_module()] };
    let m = Machine {
        kind: MachineKind::Crafter {
            crafter: Crafter {
                name: CrafterName("assembling-machine-1".to_string()),
                energy_usage: rat(75, 1),
                crafting_speed: rat(1, 1),
                module_inventory_size: 2,
            },
            recipe: Recipe {
                name: RecipeName("electronic-circuit".to_string()),
                category: RecipeCategory("electronics".to_string()),
                ingredients: vec![ingredient("iron-plate", 2)],
                products: vec![product("electronic-circuit", 1)],
                energy: rat(1, 1),
                productivity_bonus: rat(0, 1),
                allowed_effects: effects_with_productivity(),
            },
            modules: vec![],
            beacons: vec![beacon(), beacon(), beacon(), beacon()],
            count_constraint: None,
        },
        crafter_count: MachineCount(rat(1, 1)),
    };
    let cps = m.crafts_per_second().unwrap();
    assert!(cps.0.eq_val(rat(11, 5)));
}

#[test]
fn crafts_per_second_scales_with_count_speed_and_energy() {
    let mk = |count: Rat| Machine {
        kind: MachineKind::Crafter {
            crafter: Crafter {
                name: CrafterName("assembling-machine-1".to_string()),
                energy_usage: rat(75, 1),
                crafting_speed: rat(1, 2),
                module_inventory_size: 2,
            },
            recipe: Recipe {
                name: RecipeName("electronic-circuit".to_string()),
                category: RecipeCategory("electronics".to_string()),
                ingredients: vec![ingredient("iron-plate", 2)],
                products: vec![product("electronic-circuit", 1)],
                energy: rat(2, 1),
                productivity_bonus: rat(0, 1),
                allowed_effects: effects_with_productivity(),
            },
            modules: vec![],
            beacons: vec![],
            count_constraint: None,
        },
        crafter_count: MachineCount(count),
    };
    // 0.5 speed / 2.0 energy = 0.25 crafts per second per machine.
    let one = mk(rat(1, 1));
    assert!(one.crafts_per_second().unwrap().0.eq_val(rat(1, 4)));
    let four = mk(rat(4, 1));
    assert!(four.crafts_per_second().unwrap().0.eq_val(rat(1, 1)));
    // Ingredient drain is negative and scaled by the amount.
    let speeds = four.item_speeds().unwrap();
    assert_eq!(speeds[0].item.as_str(), "iron-plate");
    assert!(speeds[0].speed.0.eq_val(rat(-2, 1)));
    assert_eq!(speeds[1].item.as_str(), "electronic-circuit");
    assert!(speeds[1].speed.0.eq_val(rat(1, 1)));
}

// ---------------------------------------------------------------------------
// Editor scenarios.
// ---------------------------------------------------------------------------

/// Adding a machine auto-creates sources for ingredients used nowhere else
/// as products, and a sink for its product; removing the machine removes
/// them again.
#[test]
fn source_sink_auto_sync() {
    let mut ed = circuit_editor();
    assert!(source_count(&ed, "iron-plate").is_some());
    assert!(source_count(&ed, "copper-plate").is_some());
    assert!(sink_count(&ed, "electronic-circuit").is_some());
    assert_eq!(ed.machines().len(), 4);

    let idx = find_crafter_index(&ed, "electronic-circuit");
    ed.remove_machine(idx).unwrap();
    assert_eq!(ed.machines().len(), 0);
    assert!(ed.item_speed_constraints().is_empty());
}

/// A produced-and-consumed item gets neither a source nor a sink.
#[test]
fn internal_item_gets_no_pseudo_machine() {
    let mut ed = circuit_editor();
    ed.add_crafter(
        &RecipeName("smelting-iron".to_string()),
        Some(&CrafterName("stone-furnace".to_string())),
    )
    .unwrap();
    assert!(source_count(&ed, "iron-plate").is_none());
    assert!(sink_count(&ed, "iron-plate").is_none());
    assert!(source_count(&ed, "iron-ore").is_some());
}

/// Single recipe with an explicit rate: 3/s of electronic-circuit from a
/// 0.5-speed, energy-1 crafter needs a multiplier of exactly 6, and the
/// iron-plate source must run at the consumption rate of 12/s? No: two
/// plates per craft at three crafts per second is six plates per second.
#[test]
fn single_recipe_with_explicit_rate() {
    let mut ed = circuit_editor();
    ed.set_item_speed_constraint(
        &item("electronic-circuit"),
        Some(Speed(rat(3, 1))),
        true,
    )
    .unwrap();
    assert!(ed.solved());
    let idx = find_crafter_index(&ed, "electronic-circuit");
    assert!(ed.machines()[idx].crafter_count.0.eq_val(rat(6, 1)));
    assert!(source_count(&ed, "iron-plate").unwrap().eq_val(rat(6, 1)));
    assert!(source_count(&ed, "copper-plate").unwrap().eq_val(rat(3, 1)));
    assert!(sink_count(&ed, "electronic-circuit").unwrap().eq_val(rat(3, 1)));
}

/// The first machine added with no constraints brings a 1/s production
/// constraint on its first product.
#[test]
fn first_machine_gets_auto_constraint() {
    let ed = circuit_editor();
    assert_eq!(ed.item_speed_constraints().len(), 1);
    assert_eq!(ed.item_speed_constraints()[0].0.as_str(), "electronic-circuit");
    assert!(ed.item_speed_constraints()[0].1 .0.eq_val(rat(1, 1)));
    assert!(ed.solved());
    let idx = find_crafter_index(&ed, "electronic-circuit");
    assert!(ed.machines()[idx].crafter_count.0.eq_val(rat(2, 1)));
}

/// Solving twice with no intervening mutation keeps the multipliers.
#[test]
fn solve_is_idempotent() {
    let mut ed = circuit_editor();
    assert!(ed.solved());
    let before: Vec<Rat> = ed.machines().iter().map(|m| m.crafter_count.0).collect();
    ed.solve().unwrap();
    let after: Vec<Rat> = ed.machines().iter().map(|m| m.crafter_count.0).collect();
    assert_eq!(before.len(), after.len());
    for (b, a) in before.iter().zip(after.iter()) {
        assert!(b.eq_val(*a));
    }
}

/// With only balance constraints the all-zero solution wins and the solver
/// reports the degenerate case.
#[test]
fn degenerate_without_constraints() {
    let mut ed = circuit_editor();
    ed.set_item_speed_constraint(&item("electronic-circuit"), None, false).unwrap();
    assert!(!ed.solved());
    assert_eq!(ed.solve(), Err(Error::SolveDegenerate));
}

/// Pinning a machine's count overrides balance: the pinned machine solves to
/// exactly the pin and the sources follow.
#[test]
fn machine_count_pin_overrides_balance() {
    let mut ed = circuit_editor();
    let idx = find_crafter_index(&ed, "electronic-circuit");
    ed.set_machine_count_constraint(idx, Some(MachineCount(rat(5, 1))), true).unwrap();
    assert!(ed.solved());
    let idx = find_crafter_index(&ed, "electronic-circuit");
    assert!(ed.machines()[idx].crafter_count.0.eq_val(rat(5, 1)));
    // 5 machines * 0.5 speed = 2.5 crafts/s; 2 iron plates per craft.
    assert!(source_count(&ed, "iron-plate").unwrap().eq_val(rat(5, 1)));
    assert!(sink_count(&ed, "electronic-circuit").unwrap().eq_val(rat(5, 2)));
}

/// Contradictory constraints fail the residual check.
#[test]
fn contradictory_constraints_are_infeasible() {
    let mut ed = circuit_editor();
    let idx = find_crafter_index(&ed, "electronic-circuit");
    // 1/s of circuits needs 2 machines, but the pin demands 5.
    ed.set_machine_count_constraint(idx, Some(MachineCount(rat(5, 1))), false)
        .unwrap();
    assert!(!ed.solved());
    assert_eq!(ed.solve(), Err(Error::SolveInfeasible));
}

/// A negative requested rate drives the multipliers negative, which the
/// solver rejects.
#[test]
fn negative_solution_is_rejected() {
    let mut ed = circuit_editor();
    ed.set_item_speed_constraint(&item("electronic-circuit"), Some(Speed(rat(-1, 1))), true)
        .unwrap();
    assert!(!ed.solved());
    assert_eq!(ed.solve(), Err(Error::SolveNegative));
}

// ---------------------------------------------------------------------------
// Module and beacon rules.
// ---------------------------------------------------------------------------

/// Adding a third module to a two-slot crafter fails with the capacity error
/// and leaves the modules unchanged.
#[test]
fn module_capacity_rejection() {
    let mut ed = circuit_editor();
    let idx = find_crafter_index(&ed, "electronic-circuit");
    ed.add_module(idx, &ModuleName("speed-module".to_string())).unwrap();
    ed.add_module(idx, &ModuleName("speed-module".to_string())).unwrap();
    let r = ed.add_module(idx, &ModuleName("speed-module".to_string()));
    assert_eq!(r, Err(Error::ModuleCapacityExceeded));
    match &ed.machines()[idx].kind {
        MachineKind::Crafter { modules, .. } => assert_eq!(modules.len(), 2),
        _ => panic!("expected a crafter machine"),
    }
}

/// One 20% speed module turns 0.5 crafts/s into 0.6.
#[test]
fn speed_module_changes_throughput() {
    let mut ed = circuit_editor();
    let idx = find_crafter_index(&ed, "electronic-circuit");
    ed.add_module(idx, &ModuleName("speed-module".to_string())).unwrap();
    assert!(ed.solved());
    let idx = find_crafter_index(&ed, "electronic-circuit");
    // 1/s of circuits at 0.6 crafts/s per machine: 5/3 machines.
    assert!(ed.machines()[idx].crafter_count.0.eq_val(rat(5, 3)));
}

#[test]
fn productivity_module_rejected_when_recipe_disallows() {
    let mut ed = editor();
    ed.add_crafter(&RecipeName("no-productivity".to_string()), None).unwrap();
    let idx = find_crafter_index(&ed, "no-productivity");
    let r = ed.add_module(idx, &ModuleName("productivity-module".to_string()));
    assert_eq!(r, Err(Error::ProductivityNotAllowed));
}

#[test]
fn remove_module_bounds_checked() {
    let mut ed = circuit_editor();
    let idx = find_crafter_index(&ed, "electronic-circuit");
    assert_eq!(ed.remove_module(idx, 0), Err(Error::InvalidModuleIndex));
    ed.add_module(idx, &ModuleName("speed-module".to_string())).unwrap();
    ed.remove_module(idx, 0).unwrap();
    match &ed.machines()[idx].kind {
        MachineKind::Crafter { modules, .. } => assert_eq!(modules.len(), 0),
        _ => panic!("expected a crafter machine"),
    }
}

#[test]
fn beacon_rules_are_enforced() {
    let mut ed = circuit_editor();
    let idx = find_crafter_index(&ed, "electronic-circuit");
    let too_many = vec![Beacon {
        modules: vec![speed_module(), speed_module(), speed_module()],
    }];
    assert_eq!(ed.set_beacons(idx, too_many), Err(Error::TooManyBeaconModules));
    let prod_module = Module {
        name: ModuleName("productivity-module".to_string()),
        type_: ModuleType::Productivity,
        energy_delta_percent: rat(40, 1),
        speed_delta_percent: rat(-5, 1),
        productivity_delta_percent: rat(4, 1),
    };
    let with_prod = vec![Beacon { modules: vec![prod_module] }];
    assert_eq!(ed.set_beacons(idx, with_prod), Err(Error::ProductivityInBeacon));
    let fine = vec![Beacon { modules: vec![speed_module(), speed_module()] }];
    ed.set_beacons(idx, fine).unwrap();
    match &ed.machines()[idx].kind {
        MachineKind::Crafter { beacons, .. } => assert_eq!(beacons.len(), 1),
        _ => panic!("expected a crafter machine"),
    }
}

// ---------------------------------------------------------------------------
// Reference resolution errors.
// ---------------------------------------------------------------------------

#[test]
fn unknown_references_are_rejected() {
    let mut ed = editor();
    assert_eq!(
        ed.add_crafter(&RecipeName("unobtainium".to_string()), None),
        Err(Error::UnknownRecipe)
    );
    assert_eq!(
        ed.set_item_speed_constraint(&item("unobtainium"), Some(Speed(rat(1, 1))), false),
        Err(Error::UnknownItem)
    );
    assert_eq!(ed.remove_machine(0), Err(Error::InvalidMachineIndex));
    assert_eq!(
        ed.set_machine_count_constraint(3, Some(MachineCount(rat(1, 1))), false),
        Err(Error::InvalidMachineIndex)
    );
    assert_eq!(ed.add_module(0, &ModuleName("speed-module".to_string())), Err(Error::InvalidMachineIndex));
}

#[test]
fn ambiguous_crafter_requires_choice() {
    let mut ed = editor();
    // Two eligible furnaces and none configured.
    assert_eq!(
        ed.add_crafter(&RecipeName("smelting-iron".to_string()), None),
        Err(Error::AmbiguousCrafter)
    );
    ed.add_crafter(
        &RecipeName("smelting-iron".to_string()),
        Some(&CrafterName("steel-furnace".to_string())),
    )
    .unwrap();
}

#[test]
fn ineligible_crafter_is_rejected() {
    let mut ed = editor();
    assert_eq!(
        ed.add_crafter(
            &RecipeName("electronic-circuit".to_string()),
            Some(&CrafterName("stone-furnace".to_string())),
        ),
        Err(Error::CrafterNotEligible)
    );
}

#[test]
fn unknown_module_is_rejected() {
    let mut ed = circuit_editor();
    let idx = find_crafter_index(&ed, "electronic-circuit");
    assert_eq!(
        ed.add_module(idx, &ModuleName("warp-module".to_string())),
        Err(Error::UnknownModule)
    );
}

#[test]
fn pins_are_not_allowed_on_sources_and_sinks() {
    let mut ed = circuit_editor();
    let mut src_idx = None;
    for (i, m) in ed.machines().iter().enumerate() {
        if let MachineKind::Source { .. } = m.kind {
            src_idx = Some(i);
        }
    }
    assert_eq!(
        ed.set_machine_count_constraint(src_idx.unwrap(), Some(MachineCount(rat(1, 1))), false),
        Err(Error::NotACrafterMachine)
    );
}

#[test]
fn zero_time_recipe_is_a_numerical_failure() {
    let mut ed = editor();
    assert_eq!(
        ed.add_crafter(&RecipeName("broken-clock".to_string()), None),
        Err(Error::NumericalFailure)
    );
}

#[test]
fn crafter_not_found_in_table() {
    let mut ed = editor();
    // The ghost-town category lists a crafter that the table does not hold.
    let snip = CrafterSnippet {
        crafter: CrafterName("phantom".to_string()),
        modules: vec![],
        beacons: vec![],
        recipe: RecipeName("electronic-circuit".to_string()),
        count_constraint: None,
    };
    // Wrong category for the recipe: eligibility fails first.
    assert!(ed.create_crafter(&snip).is_err());
    let _ = &mut ed;
}

#[test]
fn set_crafter_switches_and_truncates() {
    let mut ed = editor();
    ed.add_crafter(
        &RecipeName("smelting-iron".to_string()),
        Some(&CrafterName("stone-furnace".to_string())),
    )
    .unwrap();
    let idx = find_crafter_index(&ed, "smelting-iron");
    ed.set_crafter(idx, &CrafterName("steel-furnace".to_string())).unwrap();
    let idx = find_crafter_index(&ed, "smelting-iron");
    match &ed.machines()[idx].kind {
        MachineKind::Crafter { crafter, .. } => {
            assert_eq!(crafter.name.as_str(), "steel-furnace")
        },
        _ => panic!("expected a crafter machine"),
    }
}

// ---------------------------------------------------------------------------
// Snippets.
// ---------------------------------------------------------------------------

#[test]
fn snippet_round_trip() {
    let mut ed = circuit_editor();
    let idx = find_crafter_index(&ed, "electronic-circuit");
    ed.add_module(idx, &ModuleName("speed-module".to_string())).unwrap();
    ed.set_item_speed_constraint(&item("electronic-circuit"), Some(Speed(rat(3, 1))), true)
        .unwrap();
    let snap = ed.snippet();

    let mut ed2 = editor();
    ed2.load_snippet(&snap).unwrap();
    assert!(ed2.solved());
    assert_eq!(ed2.machines().len(), ed.machines().len());
    let i1 = find_crafter_index(&ed, "electronic-circuit");
    let i2 = find_crafter_index(&ed2, "electronic-circuit");
    assert!(ed.machines()[i1].crafter_count.0.eq_val(ed2.machines()[i2].crafter_count.0));
    match &ed2.machines()[i2].kind {
        MachineKind::Crafter { modules, .. } => assert_eq!(modules.len(), 1),
        _ => panic!("expected a crafter machine"),
    }
}

#[test]
fn snippet_shapes_match_machines() {
    let ed = circuit_editor();
    let snap = ed.snippet();
    assert_eq!(snap.machines.len(), ed.machines().len());
    for (s, m) in snap.machines.iter().zip(ed.machines().iter()) {
        match (s, &m.kind) {
            (MachineSnippet::Source(ss), MachineKind::Source { item }) => {
                assert_eq!(ss.item.as_str(), item.as_str())
            },
            (MachineSnippet::Sink(ss), MachineKind::Sink { item }) => {
                assert_eq!(ss.item.as_str(), item.as_str())
            },
            (MachineSnippet::Crafter(cs), MachineKind::Crafter { crafter, recipe, .. }) => {
                assert_eq!(cs.crafter.as_str(), crafter.name.as_str());
                assert_eq!(cs.recipe.as_str(), recipe.name.as_str());
            },
            _ => panic!("snippet and machine kinds disagree"),
        }
    }
}

#[test]
fn load_snippet_rejects_unknown_items() {
    let mut ed = editor();
    let snap = factories::snippet::Snippet {
        machines: vec![MachineSnippet::Source(factories::snippet::SourceSinkSnippet {
            item: item("unobtainium"),
        })],
        item_speed_constraints: vec![],
    };
    assert_eq!(ed.load_snippet(&snap), Err(Error::UnknownItem));
    assert_eq!(ed.machines().len(), 0);
}

// ---------------------------------------------------------------------------
// Lookups and small helpers.
// ---------------------------------------------------------------------------

#[test]
fn info_lookups() {
    let info = test_info();
    assert!(info.module(&ModuleName("speed-module-3".to_string())).is_ok());
    assert!(info.module(&ModuleName("warp-module".to_string())).is_err());
    assert!(info.crafter(&CrafterName("stone-furnace".to_string())).is_ok());
    assert!(info.crafter(&CrafterName("phantom".to_string())).is_err());
    assert!(info
        .crafters_for_category(&RecipeCategory("smelting".to_string()))
        .is_ok());
    assert!(info
        .crafters_for_category(&RecipeCategory("alchemy".to_string()))
        .is_err());
    assert!(info.has_item(&item("iron-plate")));
    assert!(!info.has_item(&item("unobtainium")));
    assert!(info.game_data.recipe(&RecipeName("smelting-iron".to_string())).is_ok());
}

#[test]
fn added_items_are_unique_and_complete() {
    let ed = circuit_editor();
    let items = ed.added_items();
    let names: Vec<&str> = items.iter().map(|i| i.as_str()).collect();
    assert!(names.contains(&"iron-plate"));
    assert!(names.contains(&"copper-plate"));
    assert!(names.contains(&"electronic-circuit"));
    for (i, a) in names.iter().enumerate() {
        for b in names.iter().skip(i + 1) {
            assert_ne!(a, b);
        }
    }
}

#[test]
fn clear_resets_everything() {
    let mut ed = circuit_editor();
    ed.clear();
    assert_eq!(ed.machines().len(), 0);
    assert!(ed.item_speed_constraints().is_empty());
    assert!(ed.solved());
}

#[test]
fn error_messages_are_human_readable() {
    assert!(Error::SolveDegenerate.message().contains("zero"));
    assert!(Error::SolveInfeasible.message().contains("constraints"));
    assert!(Error::SolveNegative.message().contains("negative"));
    assert!(Error::ModuleCapacityExceeded.message().contains("modules"));
}

#[test]
fn name_or_untitled_placeholder() {
    assert_eq!(name_or_untitled(""), "Untitled");
    assert_eq!(name_or_untitled("lines"), "lines");
}

#[test]
fn default_module_tier_is_one() {
    assert_eq!(factories::config::default_module_tier(), 1);
}

#[test]
fn name_newtypes_expose_their_text() {
    assert_eq!(item("iron-plate").as_str(), "iron-plate");
    assert_eq!(RecipeName("a".to_string()).as_str(), "a");
    assert_eq!(CrafterName("b".to_string()).as_str(), "b");
    assert_eq!(ModuleName("c".to_string()).as_str(), "c");
    assert_eq!(RecipeCategory("d".to_string()).as_str(), "d");
}

// ---------------------------------------------------------------------------
// The solver on raw systems.
// ---------------------------------------------------------------------------

#[test]
fn solve_system_solves_a_determined_system() {
    // x0 = 2 and x0 + x1 = 5.
    let a = vec![vec![rat(1, 1), rat(0, 1)], vec![rat(1, 1), rat(1, 1)]];
    let b = vec![rat(2, 1), rat(5, 1)];
    let (res, _witness) = factories::solver::solve_system(&a, &b, 2);
    let x = res.unwrap();
    assert!(x[0].eq_val(rat(2, 1)));
    assert!(x[1].eq_val(rat(3, 1)));
}

#[test]
fn solve_system_reports_zero_rhs_as_degenerate() {
    let a = vec![vec![rat(1, 1), rat(-1, 1)]];
    let b = vec![rat(0, 1)];
    assert!(matches!(
        factories::solver::solve_system(&a, &b, 2).0,
        Err(Error::SolveDegenerate)
    ));
}

#[test]
fn solve_system_rejects_contradictions() {
    // x0 = 1 and x0 = 2 cannot both hold.
    let a = vec![vec![rat(1, 1)], vec![rat(1, 1)]];
    let b = vec![rat(1, 1), rat(2, 1)];
    assert!(matches!(
        factories::solver::solve_system(&a, &b, 1).0,
        Err(Error::SolveInfeasible)
    ));
}

#[test]
fn solve_system_rejects_negative_solutions() {
    let a = vec![vec![rat(1, 1)]];
    let b = vec![rat(-3, 1)];
    assert!(matches!(
        factories::solver::solve_system(&a, &b, 1).0,
        Err(Error::SolveNegative)
    ));
}

#[test]
fn validate_candidate_checks_in_order() {
    let a = vec![vec![rat(1, 1)]];
    let b = vec![rat(2, 1)];
    // An all-zero candidate is degenerate even though its residual is bad.
    assert_eq!(
        factories::solver::validate_candidate(&a, &b, &vec![rat(0, 1)]),
        Err(Error::SolveDegenerate)
    );
    // A nonzero candidate missing the target fails the residual check.
    assert_eq!(
        factories::solver::validate_candidate(&a, &b, &vec![rat(1, 1)]),
        Err(Error::SolveInfeasible)
    );
    // The exact solution passes.
    assert_eq!(factories::solver::validate_candidate(&a, &b, &vec![rat(2, 1)]), Ok(()));
    // A residual within 1/100 still passes: 2 + 1/200.
    assert_eq!(
        factories::solver::validate_candidate(&a, &b, &vec![rat(401, 200)]),
        Ok(())
    );
    // A residual beyond 1/100 fails: 2 + 1/50.
    assert_eq!(
        factories::solver::validate_candidate(&a, &b, &vec![rat(101, 50)]),
        Err(Error::SolveInfeasible)
    );
}

/// A rejected constraint edit has no partial effect: with an unknown item
/// even `replace_all` leaves constraints, pins and the solved flag alone.
#[test]
fn rejected_constraint_edit_changes_nothing() {
    let mut ed = circuit_editor();
    assert!(ed.solved());
    let n_constraints = ed.item_speed_constraints().len();
    assert_eq!(
        ed.set_item_speed_constraint(&item("unobtainium"), Some(Speed(rat(2, 1))), true),
        Err(Error::UnknownItem)
    );
    assert!(ed.solved());
    assert_eq!(ed.item_speed_constraints().len(), n_constraints);
}

/// The sorted machine list runs sources before consumers.
#[test]
fn machines_are_sorted_by_dependency() {
    let mut ed = circuit_editor();
    ed.add_crafter(
        &RecipeName("smelting-iron".to_string()),
        Some(&CrafterName("stone-furnace".to_string())),
    )
    .unwrap();
    // Every crafter's ingredients are produced by some machine before it.
    let ms = ed.machines();
    for (i, m) in ms.iter().enumerate() {
        if let MachineKind::Crafter { recipe, .. } = &m.kind {
            for ing in &recipe.ingredients {
                let produced_before = ms[..i].iter().any(|prev| match &prev.kind {
                    MachineKind::Source { item } => item.as_str() == ing.name.as_str(),
                    MachineKind::Crafter { recipe: r2, .. } => {
                        r2.products.iter().any(|p| p.name.as_str() == ing.name.as_str())
                    },
                    MachineKind::Sink { .. } => false,
                });
                assert!(produced_before, "ingredient {} not produced earlier", ing.name.as_str());
            }
        }
    }
}
