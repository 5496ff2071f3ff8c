//! Immutable reference data: recipes and their parts.
//!
//! Loaded once from the external game description (the loading itself is
//! ordinary I/O and lives outside the library); read-only thereafter.

use crate::error::Error;
use crate::primitives::{Amount, ItemName, RecipeCategory, RecipeName};
use crate::rational::{Qv, Rat};
use vstd::prelude::*;

verus! {

/// Which bonus effects a recipe accepts.
#[derive(Clone, Copy, Debug, PartialEq, Eq, Structural)]
pub struct Effects {
    pub consumption: bool,
    pub speed: bool,
    pub productivity: bool,
    pub pollution: bool,
    pub quality: bool,
}

impl Effects {
    /// No effect allowed; what sources and sinks use.
    pub fn none() -> (r: Effects)
        ensures
            !r.consumption && !r.speed && !r.productivity && !r.pollution && !r.quality,
    {
        Effects { consumption: false, speed: false, productivity: false, pollution: false, quality: false }
    }
}

pub struct Ingredient {
    pub name: ItemName,
    pub amount: Amount,
}

/// Mathematical value of an `Ingredient`.
pub struct IngredientV {
    pub name: Seq<char>,
    pub amount: Qv,
}

impl View for Ingredient {
    type V = IngredientV;

    open spec fn view(&self) -> IngredientV {
        IngredientV { name: self.name@, amount: self.amount@ }
    }
}

impl DeepView for Ingredient {
    type V = IngredientV;

    open spec fn deep_view(&self) -> IngredientV {
        self.view()
    }
}

impl Clone for Ingredient {
    fn clone(&self) -> (r: Self)
        ensures
            r@ == self@,
    {
        Ingredient { name: self.name.clone(), amount: self.amount }
    }
}

pub struct Product {
    pub name: ItemName,
    pub amount: Amount,
    /// Part of the amount that productivity bonuses do not multiply.
    pub ignored_by_productivity: Amount,
    /// Chance that a craft yields the product at all.
    pub probability: Rat,
}

/// Mathematical value of a `Product`.
pub struct ProductV {
    pub name: Seq<char>,
    pub amount: Qv,
    pub ignored_by_productivity: Qv,
    pub probability: Qv,
}

impl View for Product {
    type V = ProductV;

    open spec fn view(&self) -> ProductV {
        ProductV {
            name: self.name@,
            amount: self.amount@,
            ignored_by_productivity: self.ignored_by_productivity@,
            probability: self.probability@,
        }
    }
}

impl DeepView for Product {
    type V = ProductV;

    open spec fn deep_view(&self) -> ProductV {
        self.view()
    }
}

impl Clone for Product {
    fn clone(&self) -> (r: Self)
        ensures
            r@ == self@,
    {
        Product {
            name: self.name.clone(),
            amount: self.amount,
            ignored_by_productivity: self.ignored_by_productivity,
            probability: self.probability,
        }
    }
}

/// A transformation of ingredient items into product items at a fixed time
/// cost (`energy`, seconds per craft at speed one).
pub struct Recipe {
    pub name: RecipeName,
    pub category: RecipeCategory,
    pub ingredients: Vec<Ingredient>,
    pub products: Vec<Product>,
    pub energy: Rat,
    pub productivity_bonus: Rat,
    pub allowed_effects: Effects,
}

/// Mathematical value of a `Recipe`.
pub struct RecipeV {
    pub name: Seq<char>,
    pub category: Seq<char>,
    pub ingredients: Seq<IngredientV>,
    pub products: Seq<ProductV>,
    pub energy: Qv,
    pub productivity_bonus: Qv,
    pub allowed_effects: Effects,
}

impl View for Recipe {
    type V = RecipeV;

    open spec fn view(&self) -> RecipeV {
        RecipeV {
            name: self.name@,
            category: self.category@,
            ingredients: self.ingredients.deep_view(),
            products: self.products.deep_view(),
            energy: self.energy@,
            productivity_bonus: self.productivity_bonus@,
            allowed_effects: self.allowed_effects,
        }
    }
}

impl DeepView for Recipe {
    type V = RecipeV;

    open spec fn deep_view(&self) -> RecipeV {
        self.view()
    }
}

impl Clone for Recipe {
    fn clone(&self) -> (r: Self)
        ensures
            r@ == self@,
    {
        let mut ingredients: Vec<Ingredient> = Vec::new();
        let mut i: usize = 0;
        while i < self.ingredients.len()
            invariant
                i == ingredients.len(),
                i <= self.ingredients.len(),
                forall|j: int| 0 <= j < i ==> (#[trigger] ingredients@[j])@ == self.ingredients@[j]@,
            decreases self.ingredients.len() - i,
        {
            ingredients.push(self.ingredients[i].clone());
            i = i + 1;
        }
        let mut products: Vec<Product> = Vec::new();
        let mut k: usize = 0;
        while k < self.products.len()
            invariant
                k == products.len(),
                k <= self.products.len(),
                forall|j: int| 0 <= j < k ==> (#[trigger] products@[j])@ == self.products@[j]@,
            decreases self.products.len() - k,
        {
            products.push(self.products[k].clone());
            k = k + 1;
        }
        proof {
            assert(ingredients.deep_view() =~= self.ingredients.deep_view());
            assert(products.deep_view() =~= self.products.deep_view());
        }
        Recipe {
            name: self.name.clone(),
            category: self.category.clone(),
            ingredients,
            products,
            energy: self.energy,
            productivity_bonus: self.productivity_bonus,
            allowed_effects: self.allowed_effects,
        }
    }
}

/// The recipe table of the loaded game data.
pub struct GameData {
    pub recipes: Vec<Recipe>,
}

impl GameData {
    /// A recipe of this name exists.
    pub open spec fn recipe_named(&self, t: Seq<char>) -> bool {
        exists|i: int| 0 <= i < self.recipes@.len() && (#[trigger] self.recipes@[i]@).name == t
    }

    /// Position `k` holds the first recipe named `t`.
    pub open spec fn first_recipe_at(&self, t: Seq<char>, k: int) -> bool {
        &&& 0 <= k < self.recipes@.len()
        &&& (#[trigger] self.recipes@[k]@).name == t
        &&& forall|j: int| 0 <= j < k ==> (#[trigger] self.recipes@[j]@).name != t
    }

    /// Look a recipe up by name; the first entry with that name is returned.
    pub fn recipe(&self, name: &RecipeName) -> (r: Result<&Recipe, Error>)
        ensures
            match r {
                Ok(rec) => exists|i: int|
                    0 <= i < self.recipes@.len() && (#[trigger] self.recipes@[i])@ == rec@
                        && rec@.name == name@ && (forall|j: int|
                        0 <= j < i ==> (#[trigger] self.recipes@[j]@).name != name@),
                Err(e) => e == Error::UnknownRecipe && !self.recipe_named(name@),
            },
            (r is Ok) == self.recipe_named(name@),
    {
        let mut i: usize = 0;
        while i < self.recipes.len()
            invariant
                i <= self.recipes.len(),
                forall|j: int| 0 <= j < i ==> (#[trigger] self.recipes@[j]@).name != name@,
            decreases self.recipes.len() - i,
        {
            if self.recipes[i].name == *name {
                proof {
                    assert((self.recipes@[i as int]@).name == name@);
                }
                return Ok(&self.recipes[i]);
            }
            i = i + 1;
        }
        Err(Error::UnknownRecipe)
    }
}

} // verus!
