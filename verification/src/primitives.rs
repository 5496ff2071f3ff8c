//! Identifier newtypes and scalar quantity wrappers.
//!
//! Item, recipe, crafter, module and category names are distinct wrappers
//! over owned strings, so that the different name spaces cannot be mixed up.
//! `Speed`, `MachineCount` and `Amount` wrap exact rationals.

use crate::rational::{q_int, Qv, Rat};
use vstd::prelude::*;

verus! {

#[derive(Debug)]
pub struct ItemName(pub String);

#[derive(Debug)]
pub struct RecipeName(pub String);

#[derive(Debug)]
pub struct CrafterName(pub String);

#[derive(Debug)]
pub struct ModuleName(pub String);

#[derive(Debug)]
pub struct RecipeCategory(pub String);

impl View for ItemName {
    type V = Seq<char>;

    open spec fn view(&self) -> Seq<char> {
        self.0@
    }
}

impl Clone for ItemName {
    fn clone(&self) -> (r: Self)
        ensures
            r@ == self@,
    {
        ItemName(self.0.clone())
    }
}

impl PartialEq for ItemName {
    fn eq(&self, other: &Self) -> (r: bool) {
        self.0 == other.0
    }
}

impl vstd::std_specs::cmp::PartialEqSpecImpl for ItemName {
    open spec fn obeys_eq_spec() -> bool {
        true
    }

    open spec fn eq_spec(&self, other: &Self) -> bool {
        self@ == other@
    }
}

impl ItemName {
    pub fn as_str(&self) -> (r: &str)
        ensures
            r@ == self@,
    {
        self.0.as_str()
    }
}

impl View for RecipeName {
    type V = Seq<char>;

    open spec fn view(&self) -> Seq<char> {
        self.0@
    }
}

impl Clone for RecipeName {
    fn clone(&self) -> (r: Self)
        ensures
            r@ == self@,
    {
        RecipeName(self.0.clone())
    }
}

impl PartialEq for RecipeName {
    fn eq(&self, other: &Self) -> (r: bool) {
        self.0 == other.0
    }
}

impl vstd::std_specs::cmp::PartialEqSpecImpl for RecipeName {
    open spec fn obeys_eq_spec() -> bool {
        true
    }

    open spec fn eq_spec(&self, other: &Self) -> bool {
        self@ == other@
    }
}

impl RecipeName {
    pub fn as_str(&self) -> (r: &str)
        ensures
            r@ == self@,
    {
        self.0.as_str()
    }
}

impl View for CrafterName {
    type V = Seq<char>;

    open spec fn view(&self) -> Seq<char> {
        self.0@
    }
}

impl Clone for CrafterName {
    fn clone(&self) -> (r: Self)
        ensures
            r@ == self@,
    {
        CrafterName(self.0.clone())
    }
}

impl PartialEq for CrafterName {
    fn eq(&self, other: &Self) -> (r: bool) {
        self.0 == other.0
    }
}

impl vstd::std_specs::cmp::PartialEqSpecImpl for CrafterName {
    open spec fn obeys_eq_spec() -> bool {
        true
    }

    open spec fn eq_spec(&self, other: &Self) -> bool {
        self@ == other@
    }
}

impl CrafterName {
    pub fn as_str(&self) -> (r: &str)
        ensures
            r@ == self@,
    {
        self.0.as_str()
    }
}

impl View for ModuleName {
    type V = Seq<char>;

    open spec fn view(&self) -> Seq<char> {
        self.0@
    }
}

impl Clone for ModuleName {
    fn clone(&self) -> (r: Self)
        ensures
            r@ == self@,
    {
        ModuleName(self.0.clone())
    }
}

impl PartialEq for ModuleName {
    fn eq(&self, other: &Self) -> (r: bool) {
        self.0 == other.0
    }
}

impl vstd::std_specs::cmp::PartialEqSpecImpl for ModuleName {
    open spec fn obeys_eq_spec() -> bool {
        true
    }

    open spec fn eq_spec(&self, other: &Self) -> bool {
        self@ == other@
    }
}

impl ModuleName {
    pub fn as_str(&self) -> (r: &str)
        ensures
            r@ == self@,
    {
        self.0.as_str()
    }
}

impl View for RecipeCategory {
    type V = Seq<char>;

    open spec fn view(&self) -> Seq<char> {
        self.0@
    }
}

impl Clone for RecipeCategory {
    fn clone(&self) -> (r: Self)
        ensures
            r@ == self@,
    {
        RecipeCategory(self.0.clone())
    }
}

impl PartialEq for RecipeCategory {
    fn eq(&self, other: &Self) -> (r: bool) {
        self.0 == other.0
    }
}

impl vstd::std_specs::cmp::PartialEqSpecImpl for RecipeCategory {
    open spec fn obeys_eq_spec() -> bool {
        true
    }

    open spec fn eq_spec(&self, other: &Self) -> bool {
        self@ == other@
    }
}

impl RecipeCategory {
    pub fn as_str(&self) -> (r: &str)
        ensures
            r@ == self@,
    {
        self.0.as_str()
    }
}

/// Required net production rate of one item, in items per second; negative
/// values mean consumption.
#[derive(Clone, Copy, Debug)]
pub struct Speed(pub Rat);

impl View for Speed {
    type V = Qv;

    open spec fn view(&self) -> Qv {
        self.0@
    }
}

impl Speed {
    pub fn zero() -> (r: Speed)
        ensures
            r@ == q_int(0),
    {
        Speed(Rat::zero())
    }

    pub fn one() -> (r: Speed)
        ensures
            r@ == q_int(1),
    {
        Speed(Rat::one())
    }
}

/// How many parallel instances of a machine run; for sources and sinks this
/// doubles as the raw item rate.
#[derive(Clone, Copy, Debug)]
pub struct MachineCount(pub Rat);

impl View for MachineCount {
    type V = Qv;

    open spec fn view(&self) -> Qv {
        self.0@
    }
}

impl MachineCount {
    pub fn one() -> (r: MachineCount)
        ensures
            r@ == q_int(1),
    {
        MachineCount(Rat::one())
    }
}

/// Quantity of one item consumed or produced by a single craft.
#[derive(Clone, Copy, Debug)]
pub struct Amount(pub Rat);

impl View for Amount {
    type V = Qv;

    open spec fn view(&self) -> Qv {
        self.0@
    }
}

impl Amount {
    pub fn zero() -> (r: Amount)
        ensures
            r@ == q_int(0),
    {
        Amount(Rat::zero())
    }

    pub fn one() -> (r: Amount)
        ensures
            r@ == q_int(1),
    {
        Amount(Rat::one())
    }
}

/// Display helper: a snippet name, or a placeholder when it is empty.
pub fn name_or_untitled(name: &str) -> (r: &str)
    ensures
        name@.len() > 0 ==> r@ == name@,
        name@.len() == 0 ==> r@ == "Untitled"@,
{
    if name.unicode_len() == 0 {
        "Untitled"
    } else {
        name
    }
}

} // verus!
