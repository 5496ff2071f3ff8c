//! The static data tables the editor plans against: recipes, crafters,
//! modules, the items they touch, and which crafters serve which recipe
//! category. Read-only once built.

use crate::config::Config;
use crate::error::Error;
use crate::game_data::GameData;
use crate::machine::{Crafter, Module, ModuleType};
use crate::primitives::{CrafterName, ItemName, ModuleName, RecipeCategory};
use crate::rational::Rat;
use vstd::prelude::*;

verus! {

pub struct Info {
    pub config: Config,
    pub game_data: GameData,
    pub modules: Vec<Module>,
    pub all_items: Vec<ItemName>,
    pub crafters: Vec<Crafter>,
    pub category_to_crafter: Vec<(RecipeCategory, Vec<CrafterName>)>,
}

/// A crafter name occurs in a list.
pub open spec fn name_in(names: Seq<CrafterName>, t: Seq<char>) -> bool {
    exists|k: int| 0 <= k < names.len() && names[k]@ == t
}

impl Info {
    /// The item name occurs in the item table.
    pub open spec fn item_known(&self, t: Seq<char>) -> bool {
        exists|k: int| 0 <= k < self.all_items@.len() && self.all_items@[k]@ == t
    }

    /// Every item mentioned by any recipe is in the item table.
    pub open spec fn wf(&self) -> bool {
        forall|r: int|
            0 <= r < self.game_data.recipes@.len() ==> self.recipe_items_known(
                #[trigger] self.game_data.recipes@[r],
            )
    }

    pub open spec fn recipe_items_known(&self, rec: crate::game_data::Recipe) -> bool {
        &&& forall|j: int|
            0 <= j < rec.ingredients@.len() ==> self.item_known(
                (#[trigger] rec.ingredients@[j]).name@,
            )
        &&& forall|j: int|
            0 <= j < rec.products@.len() ==> self.item_known((#[trigger] rec.products@[j]).name@)
    }

    /// Build the tables; the item table is derived from the recipes, so the
    /// result is well-formed by construction.
    pub fn new(
        config: Config,
        game_data: GameData,
        modules: Vec<Module>,
        crafters: Vec<Crafter>,
        category_to_crafter: Vec<(RecipeCategory, Vec<CrafterName>)>,
    ) -> (r: Info)
        ensures
            r.wf(),
            r.config == config,
            r.game_data == game_data,
            r.modules == modules,
            r.crafters == crafters,
            r.category_to_crafter == category_to_crafter,
    {
        let mut all_items: Vec<ItemName> = Vec::new();
        let mut ri: usize = 0;
        while ri < game_data.recipes.len()
            invariant
                ri <= game_data.recipes@.len(),
                forall|r: int, j: int|
                    0 <= r < ri && 0 <= j < (#[trigger] game_data.recipes@[r]).ingredients@.len()
                        ==> items_contain(
                        all_items@,
                        (#[trigger] game_data.recipes@[r].ingredients@[j]).name@,
                    ),
                forall|r: int, j: int|
                    0 <= r < ri && 0 <= j < (#[trigger] game_data.recipes@[r]).products@.len()
                        ==> items_contain(
                        all_items@,
                        (#[trigger] game_data.recipes@[r].products@[j]).name@,
                    ),
            decreases game_data.recipes@.len() - ri,
        {
            let rec = &game_data.recipes[ri];
            let mut j: usize = 0;
            while j < rec.ingredients.len()
                invariant
                    j <= rec.ingredients@.len(),
                    forall|k: int|
                        0 <= k < j ==> items_contain(
                            all_items@,
                            (#[trigger] rec.ingredients@[k]).name@,
                        ),
                    forall|r: int, jj: int|
                        0 <= r < ri && 0 <= jj < (
                        #[trigger] game_data.recipes@[r]).ingredients@.len() ==> items_contain(
                            all_items@,
                            (#[trigger] game_data.recipes@[r].ingredients@[jj]).name@,
                        ),
                    forall|r: int, jj: int|
                        0 <= r < ri && 0 <= jj < (#[trigger] game_data.recipes@[r]).products@.len()
                            ==> items_contain(
                            all_items@,
                            (#[trigger] game_data.recipes@[r].products@[jj]).name@,
                        ),
                decreases rec.ingredients@.len() - j,
            {
                add_item(&mut all_items, &rec.ingredients[j].name);
                j = j + 1;
            }
            let mut k: usize = 0;
            while k < rec.products.len()
                invariant
                    k <= rec.products@.len(),
                    forall|kk: int|
                        0 <= kk < rec.ingredients@.len() ==> items_contain(
                            all_items@,
                            (#[trigger] rec.ingredients@[kk]).name@,
                        ),
                    forall|kk: int|
                        0 <= kk < k ==> items_contain(
                            all_items@,
                            (#[trigger] rec.products@[kk]).name@,
                        ),
                    forall|r: int, jj: int|
                        0 <= r < ri && 0 <= jj < (
                        #[trigger] game_data.recipes@[r]).ingredients@.len() ==> items_contain(
                            all_items@,
                            (#[trigger] game_data.recipes@[r].ingredients@[jj]).name@,
                        ),
                    forall|r: int, jj: int|
                        0 <= r < ri && 0 <= jj < (#[trigger] game_data.recipes@[r]).products@.len()
                            ==> items_contain(
                            all_items@,
                            (#[trigger] game_data.recipes@[r].products@[jj]).name@,
                        ),
                decreases rec.products@.len() - k,
            {
                add_item(&mut all_items, &rec.products[k].name);
                k = k + 1;
            }
            ri = ri + 1;
        }
        let r = Info { config, game_data, modules, all_items, crafters, category_to_crafter };
        proof {
            assert forall|ridx: int|
                0 <= ridx < r.game_data.recipes@.len() implies r.recipe_items_known(
                #[trigger] r.game_data.recipes@[ridx],
            ) by {
                let rec = r.game_data.recipes@[ridx];
                assert forall|j: int| 0 <= j < rec.ingredients@.len() implies r.item_known(
                    (#[trigger] rec.ingredients@[j]).name@,
                ) by {
                    assert(items_contain(r.all_items@, rec.ingredients@[j].name@));
                }
                assert forall|j: int| 0 <= j < rec.products@.len() implies r.item_known(
                    (#[trigger] rec.products@[j]).name@,
                ) by {
                    assert(items_contain(r.all_items@, rec.products@[j].name@));
                }
            }
        }
        r
    }

    /// Membership in the item table; exactly `item_known`.
    pub fn has_item(&self, item: &ItemName) -> (r: bool)
        ensures
            r == self.item_known(item@),
    {
        let mut i: usize = 0;
        while i < self.all_items.len()
            invariant
                i <= self.all_items@.len(),
                forall|k: int| 0 <= k < i ==> (#[trigger] self.all_items@[k])@ != item@,
            decreases self.all_items@.len() - i,
        {
            if self.all_items[i] == *item {
                return true;
            }
            i = i + 1;
        }
        false
    }

    /// The first module entry carrying this name, if any.
    pub open spec fn module_named(&self, t: Seq<char>) -> bool {
        exists|i: int| 0 <= i < self.modules@.len() && (#[trigger] self.modules@[i]).name@ == t
    }

    /// Position `k` holds the first module entry named `t`.
    pub open spec fn first_module_at(&self, t: Seq<char>, k: int) -> bool {
        &&& 0 <= k < self.modules@.len()
        &&& (#[trigger] self.modules@[k]).name@ == t
        &&& forall|j: int| 0 <= j < k ==> (#[trigger] self.modules@[j]).name@ != t
    }

    /// Look a module up by name; the first entry with that name is returned.
    pub fn module(&self, name: &ModuleName) -> (r: Result<&Module, Error>)
        ensures
            match r {
                Ok(m) => exists|i: int|
                    0 <= i < self.modules@.len() && #[trigger] self.modules@[i] == *m && m.name@
                        == name@ && (forall|j: int|
                        0 <= j < i ==> (#[trigger] self.modules@[j]).name@ != name@),
                Err(e) => e == Error::UnknownModule && !self.module_named(name@),
            },
            (r is Ok) == self.module_named(name@),
    {
        let mut i: usize = 0;
        while i < self.modules.len()
            invariant
                i <= self.modules@.len(),
                forall|k: int| 0 <= k < i ==> (#[trigger] self.modules@[k]).name@ != name@,
            decreases self.modules@.len() - i,
        {
            if self.modules[i].name == *name {
                proof {
                    assert((self.modules@[i as int]).name@ == name@);
                }
                return Ok(&self.modules[i]);
            }
            i = i + 1;
        }
        Err(Error::UnknownModule)
    }

    /// Position `k` holds the first crafter entry named `t`.
    pub open spec fn first_crafter_at(&self, t: Seq<char>, k: int) -> bool {
        &&& 0 <= k < self.crafters@.len()
        &&& (#[trigger] self.crafters@[k]).name@ == t
        &&& forall|j: int| 0 <= j < k ==> (#[trigger] self.crafters@[j]).name@ != t
    }

    pub open spec fn crafter_named(&self, t: Seq<char>) -> bool {
        exists|i: int| 0 <= i < self.crafters@.len() && (#[trigger] self.crafters@[i]).name@ == t
    }

    /// Look a crafter up by name; the first entry with that name is returned.
    pub fn crafter(&self, name: &CrafterName) -> (r: Result<&Crafter, Error>)
        ensures
            match r {
                Ok(c) => exists|i: int|
                    0 <= i < self.crafters@.len() && #[trigger] self.crafters@[i] == *c && c.name@
                        == name@ && (forall|j: int|
                        0 <= j < i ==> (#[trigger] self.crafters@[j]).name@ != name@),
                Err(e) => e == Error::UnknownCrafter && !self.crafter_named(name@),
            },
            (r is Ok) == self.crafter_named(name@),
    {
        let mut i: usize = 0;
        while i < self.crafters.len()
            invariant
                i <= self.crafters@.len(),
                forall|k: int| 0 <= k < i ==> (#[trigger] self.crafters@[k]).name@ != name@,
            decreases self.crafters@.len() - i,
        {
            if self.crafters[i].name == *name {
                proof {
                    assert((self.crafters@[i as int]).name@ == name@);
                }
                return Ok(&self.crafters[i]);
            }
            i = i + 1;
        }
        Err(Error::UnknownCrafter)
    }

    /// Position `k` holds the first category entry named `t`.
    pub open spec fn first_category_at(&self, t: Seq<char>, k: int) -> bool {
        &&& 0 <= k < self.category_to_crafter@.len()
        &&& (#[trigger] self.category_to_crafter@[k]).0@ == t
        &&& forall|j: int| 0 <= j < k ==> (#[trigger] self.category_to_crafter@[j]).0@ != t
    }

    pub open spec fn category_known(&self, t: Seq<char>) -> bool {
        exists|i: int|
            0 <= i < self.category_to_crafter@.len() && (
            #[trigger] self.category_to_crafter@[i]).0@ == t
    }

    /// The crafters eligible for a recipe category; the first entry with
    /// that category is returned.
    pub fn crafters_for_category(&self, cat: &RecipeCategory) -> (r: Result<&Vec<CrafterName>, Error>)
        ensures
            match r {
                Ok(cs) => exists|i: int|
                    0 <= i < self.category_to_crafter@.len() && (
                    #[trigger] self.category_to_crafter@[i]).1 == *cs
                        && self.category_to_crafter@[i].0@ == cat@ && (forall|j: int|
                        0 <= j < i ==> (#[trigger] self.category_to_crafter@[j]).0@ != cat@),
                Err(e) => e == Error::UnknownCategory && !self.category_known(cat@),
            },
            (r is Ok) == self.category_known(cat@),
    {
        let mut i: usize = 0;
        while i < self.category_to_crafter.len()
            invariant
                i <= self.category_to_crafter@.len(),
                forall|k: int|
                    0 <= k < i ==> (#[trigger] self.category_to_crafter@[k]).0@ != cat@,
            decreases self.category_to_crafter@.len() - i,
        {
            if self.category_to_crafter[i].0 == *cat {
                proof {
                    assert((self.category_to_crafter@[i as int]).0@ == cat@);
                }
                return Ok(&self.category_to_crafter[i].1);
            }
            i = i + 1;
        }
        Err(Error::UnknownCategory)
    }

    /// Pick a crafter automatically: the only eligible one, else the
    /// configured assembler, else the configured furnace.
    pub fn auto_select_crafter(&self, crafters: &Vec<CrafterName>) -> (r: Option<CrafterName>)
        ensures
            crafters@.len() == 1 ==> (r matches Some(c) && c@ == crafters@[0]@),
            crafters@.len() != 1 && name_in(crafters@, self.config.assembler_type@) ==> (r matches
                Some(c) && c@ == self.config.assembler_type@),
            crafters@.len() != 1 && !name_in(crafters@, self.config.assembler_type@) && name_in(
                crafters@,
                self.config.furnace_type@,
            ) ==> (r matches Some(c) && c@ == self.config.furnace_type@),
            crafters@.len() != 1 && !name_in(crafters@, self.config.assembler_type@) && !name_in(
                crafters@,
                self.config.furnace_type@,
            ) ==> r is None,
    {
        if crafters.len() == 1 {
            Some(crafters[0].clone())
        } else if contains_name(crafters, &self.config.assembler_type) {
            Some(self.config.assembler_type.clone())
        } else if contains_name(crafters, &self.config.furnace_type) {
            Some(self.config.furnace_type.clone())
        } else {
            None
        }
    }
}

/// An item name occurs in the table.
pub open spec fn items_contain(items: Seq<ItemName>, t: Seq<char>) -> bool {
    exists|k: int| 0 <= k < items.len() && items[k]@ == t
}

/// Add an item name to the table unless it is already present.
fn add_item(items: &mut Vec<ItemName>, name: &ItemName)
    ensures
        items_contain(final(items)@, name@),
        forall|t: Seq<char>| items_contain(old(items)@, t) ==> items_contain(final(items)@, t),
{
    let mut i: usize = 0;
    while i < items.len()
        invariant
            i <= items@.len(),
            items@ == old(items)@,
        decreases items@.len() - i,
    {
        if items[i] == *name {
            return ;
        }
        i = i + 1;
    }
    items.push(name.clone());
    proof {
        assert(items@[items@.len() - 1]@ == name@);
        assert forall|t: Seq<char>| items_contain(old(items)@, t) implies items_contain(
            items@,
            t,
        ) by {
            let k = choose|k: int| 0 <= k < old(items)@.len() && old(items)@[k]@ == t;
            assert(items@[k]@ == t);
        }
    }
}

pub fn contains_name(names: &Vec<CrafterName>, name: &CrafterName) -> (r: bool)
    ensures
        r == name_in(names@, name@),
{
    let mut i: usize = 0;
    while i < names.len()
        invariant
            i <= names@.len(),
            forall|k: int| 0 <= k < i ==> (#[trigger] names@[k])@ != name@,
        decreases names@.len() - i,
    {
        if names[i] == *name {
            return true;
        }
        i = i + 1;
    }
    false
}

/// The standard module table: three speed tiers and three productivity
/// tiers.
pub fn default_modules() -> (r: Vec<Module>)
    ensures
        r@.len() == 6,
{
    let mut v: Vec<Module> = Vec::new();
    v.push(
        Module {
            name: ModuleName(String::from_str("speed-module")),
            type_: ModuleType::Speed,
            energy_delta_percent: Rat::from_small(50),
            speed_delta_percent: Rat::from_small(20),
            productivity_delta_percent: Rat::from_small(0),
        },
    );
    v.push(
        Module {
            name: ModuleName(String::from_str("speed-module-2")),
            type_: ModuleType::Speed,
            energy_delta_percent: Rat::from_small(60),
            speed_delta_percent: Rat::from_small(30),
            productivity_delta_percent: Rat::from_small(0),
        },
    );
    v.push(
        Module {
            name: ModuleName(String::from_str("speed-module-3")),
            type_: ModuleType::Speed,
            energy_delta_percent: Rat::from_small(70),
            speed_delta_percent: Rat::from_small(50),
            productivity_delta_percent: Rat::from_small(0),
        },
    );
    v.push(
        Module {
            name: ModuleName(String::from_str("productivity-module")),
            type_: ModuleType::Productivity,
            energy_delta_percent: Rat::from_small(40),
            speed_delta_percent: Rat::from_small(-5),
            productivity_delta_percent: Rat::from_small(4),
        },
    );
    v.push(
        Module {
            name: ModuleName(String::from_str("productivity-module-2")),
            type_: ModuleType::Productivity,
            energy_delta_percent: Rat::from_small(60),
            speed_delta_percent: Rat::from_small(-10),
            productivity_delta_percent: Rat::from_small(6),
        },
    );
    v.push(
        Module {
            name: ModuleName(String::from_str("productivity-module-3")),
            type_: ModuleType::Productivity,
            energy_delta_percent: Rat::from_small(80),
            speed_delta_percent: Rat::from_small(-15),
            productivity_delta_percent: Rat::from_small(10),
        },
    );
    v
}

} // verus!
