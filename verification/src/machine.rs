//! Machines: one placed production unit.
//!
//! A machine is either a crafter running a recipe (with modules and beacons),
//! or a pseudo-machine standing for an unmetered external source or sink of a
//! single item. Each computes its signed item throughput as a function of
//! crafter speed, module and beacon bonuses, and its `crafter_count`
//! multiplier; throughput is linear in the multiplier.

use crate::game_data::Recipe;
use crate::primitives::{CrafterName, ItemName, MachineCount, ModuleName, Speed};
use crate::rational::{
    isqrt_spec, q_add, q_div, q_eq, q_int, q_lt, q_mul, q_neg, q_sub, q_wf, Qv, Rat,
};
use vstd::prelude::*;

verus! {

broadcast use crate::rational::lemma_rat_wf;

/// The two module categories; mutually exclusive.
#[derive(Clone, Copy, Debug, PartialEq, Eq, Structural)]
pub enum ModuleType {
    Speed,
    Productivity,
}

/// A per-machine modifier installed in a machine's own slots or in a beacon.
pub struct Module {
    pub name: ModuleName,
    pub type_: ModuleType,
    pub energy_delta_percent: Rat,
    pub speed_delta_percent: Rat,
    pub productivity_delta_percent: Rat,
}

impl Clone for Module {
    fn clone(&self) -> (r: Self)
        ensures
            r.name@ == self.name@,
            r.type_ == self.type_,
            r.energy_delta_percent == self.energy_delta_percent,
            r.speed_delta_percent == self.speed_delta_percent,
            r.productivity_delta_percent == self.productivity_delta_percent,
    {
        Module {
            name: self.name.clone(),
            type_: self.type_,
            energy_delta_percent: self.energy_delta_percent,
            speed_delta_percent: self.speed_delta_percent,
            productivity_delta_percent: self.productivity_delta_percent,
        }
    }
}

/// A modifier-broadcasting structure; its modules affect the machine at the
/// transmitted strength without occupying the machine's own slots.
pub struct Beacon {
    pub modules: Vec<Module>,
}

/// A machine archetype: base crafting speed and module capacity.
pub struct Crafter {
    pub name: CrafterName,
    pub energy_usage: Rat,
    pub crafting_speed: Rat,
    pub module_inventory_size: u64,
}

impl Clone for Crafter {
    fn clone(&self) -> (r: Self)
        ensures
            r.name@ == self.name@,
            r.energy_usage == self.energy_usage,
            r.crafting_speed == self.crafting_speed,
            r.module_inventory_size == self.module_inventory_size,
    {
        Crafter {
            name: self.name.clone(),
            energy_usage: self.energy_usage,
            crafting_speed: self.crafting_speed,
            module_inventory_size: self.module_inventory_size,
        }
    }
}

/// What a machine is: an external source or sink of one item, or a crafter
/// running a recipe.
pub enum MachineKind {
    Source { item: ItemName },
    Sink { item: ItemName },
    Crafter {
        crafter: Crafter,
        recipe: Recipe,
        modules: Vec<Module>,
        beacons: Vec<Beacon>,
        count_constraint: Option<MachineCount>,
    },
}

/// One placed production unit. `crafter_count` is the solver's output: how
/// many parallel instances run; for sources and sinks it is the raw item
/// rate in items per second.
pub struct Machine {
    pub kind: MachineKind,
    pub crafter_count: MachineCount,
}

/// A signed item rate: negative means consumed, positive produced.
pub struct ItemSpeed {
    pub item: ItemName,
    pub speed: Speed,
}

// ---------------------------------------------------------------------------
// Bonus sums.
// ---------------------------------------------------------------------------

/// Which percentage column of a module a sum ranges over.
#[derive(Clone, Copy, Debug, PartialEq, Eq, Structural)]
pub enum BonusKind {
    Speed,
    Productivity,
}

pub open spec fn module_bonus(m: Module, w: BonusKind) -> Qv {
    match w {
        BonusKind::Speed => m.speed_delta_percent@,
        BonusKind::Productivity => m.productivity_delta_percent@,
    }
}

/// Sum of one percentage column over a machine's own modules.
pub open spec fn module_bonus_sum(mods: Seq<Module>, w: BonusKind) -> Qv {
    crate::linalg::q_sum(mods.map(|i: int, m: Module| module_bonus(m, w)))
}

/// Sum of one percentage column over all modules of all beacons.
pub open spec fn beacon_bonus_sum(bs: Seq<Beacon>, w: BonusKind) -> Qv {
    crate::linalg::q_sum(bs.map(|i: int, b: Beacon| module_bonus_sum(b.modules@, w)))
}

pub proof fn lemma_module_bonus_sum_wf(mods: Seq<Module>, w: BonusKind)
    ensures
        q_wf(module_bonus_sum(mods, w)),
{
    let s = mods.map(|i: int, m: Module| module_bonus(m, w));
    assert forall|i: int| 0 <= i < s.len() implies q_wf(#[trigger] s[i]) by {
        assert(s[i] == module_bonus(mods[i], w));
    }
    crate::linalg::lemma_q_sum_wf(s);
}

pub proof fn lemma_beacon_bonus_sum_wf(bs: Seq<Beacon>, w: BonusKind)
    ensures
        q_wf(beacon_bonus_sum(bs, w)),
{
    let s = bs.map(|i: int, b: Beacon| module_bonus_sum(b.modules@, w));
    assert forall|i: int| 0 <= i < s.len() implies q_wf(#[trigger] s[i]) by {
        assert(s[i] == module_bonus_sum(bs[i].modules@, w));
        lemma_module_bonus_sum_wf(bs[i].modules@, w);
    }
    crate::linalg::lemma_q_sum_wf(s);
}

fn bonus_of(m: &Module, w: BonusKind) -> (r: Rat)
    ensures
        r@ == module_bonus(*m, w),
{
    match w {
        BonusKind::Speed => m.speed_delta_percent,
        BonusKind::Productivity => m.productivity_delta_percent,
    }
}

/// Exact sum of one percentage column over a module list.
fn sum_module_bonus(mods: &Vec<Module>, w: BonusKind) -> (r: Option<Rat>)
    ensures
        match r {
            Some(x) => q_eq(x@, module_bonus_sum(mods@, w)),
            None => true,
        },
{
    let ghost f = |i: int, m: Module| module_bonus(m, w);
    let mut acc = Rat::zero();
    let mut i: usize = 0;
    proof {
        assert(mods@.take(0).map(f) =~= Seq::<Qv>::empty());
    }
    while i < mods.len()
        invariant
            i <= mods.len(),
            f == (|i: int, m: Module| module_bonus(m, w)),
            q_eq(acc@, crate::linalg::q_sum(mods@.take(i as int).map(f))),
        decreases mods.len() - i,
    {
        let elem = bonus_of(&mods[i], w);
        let next = acc.add(elem);
        match next {
            None => {
                return None;
            },
            Some(x) => {
                proof {
                    let prefix = mods@.take(i as int).map(f);
                    assert forall|k: int| 0 <= k < prefix.len() implies q_wf(
                        #[trigger] prefix[k],
                    ) by {
                        assert(prefix[k] == module_bonus(mods@.take(i as int)[k], w));
                    }
                    crate::linalg::lemma_q_sum_wf(prefix);
                    crate::rational::lemma_q_acc_step(
                        x@,
                        acc@,
                        crate::linalg::q_sum(prefix),
                        elem@,
                    );
                    assert(mods@.take(i + 1).map(f) =~= prefix.push(elem@));
                    crate::linalg::lemma_q_sum_push(prefix, elem@);
                }
                acc = x;
            },
        }
        i = i + 1;
    }
    proof {
        assert(mods@.take(mods@.len() as int) =~= mods@);
    }
    Some(acc)
}

/// Exact sum of one percentage column over all beacons.
fn sum_beacon_bonus(bs: &Vec<Beacon>, w: BonusKind) -> (r: Option<Rat>)
    ensures
        match r {
            Some(x) => q_eq(x@, beacon_bonus_sum(bs@, w)),
            None => true,
        },
{
    let ghost f = |i: int, b: Beacon| module_bonus_sum(b.modules@, w);
    let mut acc = Rat::zero();
    let mut i: usize = 0;
    proof {
        assert(bs@.take(0).map(f) =~= Seq::<Qv>::empty());
    }
    while i < bs.len()
        invariant
            i <= bs.len(),
            f == (|i: int, b: Beacon| module_bonus_sum(b.modules@, w)),
            q_eq(acc@, crate::linalg::q_sum(bs@.take(i as int).map(f))),
        decreases bs.len() - i,
    {
        let elem = match sum_module_bonus(&bs[i].modules, w) {
            None => {
                return None;
            },
            Some(e) => e,
        };
        let next = acc.add(elem);
        match next {
            None => {
                return None;
            },
            Some(x) => {
                proof {
                    let prefix = bs@.take(i as int).map(f);
                    assert forall|k: int| 0 <= k < prefix.len() implies q_wf(
                        #[trigger] prefix[k],
                    ) by {
                        assert(prefix[k] == module_bonus_sum(bs@.take(i as int)[k].modules@, w));
                        lemma_module_bonus_sum_wf(bs@.take(i as int)[k].modules@, w);
                    }
                    crate::linalg::lemma_q_sum_wf(prefix);
                    let target = module_bonus_sum(bs@[i as int].modules@, w);
                    lemma_module_bonus_sum_wf(bs@[i as int].modules@, w);
                    // `x` extends the accumulator by `elem`, which equals the
                    // per-beacon target sum.
                    crate::rational::lemma_q_add_cong(acc@, acc@, elem@, target);
                    crate::rational::lemma_q_add_wf(acc@, elem@);
                    crate::rational::lemma_q_eq_trans(x@, q_add(acc@, elem@), q_add(acc@, target));
                    crate::rational::lemma_q_acc_step(
                        x@,
                        acc@,
                        crate::linalg::q_sum(prefix),
                        target,
                    );
                    assert(bs@.take(i + 1).map(f) =~= prefix.push(target));
                    crate::linalg::lemma_q_sum_push(prefix, target);
                }
                acc = x;
            },
        }
        i = i + 1;
    }
    proof {
        assert(bs@.take(bs@.len() as int) =~= bs@);
    }
    Some(acc)
}

// ---------------------------------------------------------------------------
// Beacon transmission strength and multipliers.
// ---------------------------------------------------------------------------

/// Transmission strength of `n` beacons: zero for none, else `1.5/sqrt(n)`
/// (diminishing returns), with the square root taken at six decimal digits.
pub open spec fn beacon_strength(n: nat) -> Qv {
    if n == 0 {
        q_int(0)
    } else {
        Qv { n: 3000000, d: 2 * (isqrt_spec(n * 1000000000000) as int) }
    }
}

pub proof fn lemma_beacon_strength_wf(n: nat)
    ensures
        q_wf(beacon_strength(n)),
{
    if n > 0 {
        crate::rational::lemma_isqrt_spec_correct(n * 1000000000000);
        assert(n * 1000000000000 >= 1000000000000) by (nonlinear_arith)
            requires
                n >= 1,
        ;
        let s = isqrt_spec(n * 1000000000000);
        if s == 0 {
            assert((s + 1) * (s + 1) == 1) by (nonlinear_arith)
                requires
                    s == 0,
            ;
            assert(false);
        }
    }
}

fn beacon_strength_exec(n: usize) -> (r: Option<Rat>)
    ensures
        match r {
            Some(x) => q_eq(x@, beacon_strength(n as nat)),
            None => true,
        },
        n <= 1000000 ==> r is Some,
{
    if n == 0 {
        Some(Rat::zero())
    } else if n > 1000000 {
        None
    } else {
        proof {
            assert((n as int) * 1000000000000 <= 1000000 * 1000000000000) by (nonlinear_arith)
                requires
                    1 <= (n as int) <= 1000000,
            ;
        }
        let v: u64 = (n as u64) * 1000000000000;
        let s: u64 = crate::rational::isqrt_u64(v);
        proof {
            assert((v as nat) == (n as nat) * 1000000000000);
            crate::rational::lemma_isqrt_spec_correct(v as nat);
            // The root of at least 10^12 is at least one; of at most 10^18,
            // at most 10^9.
            assert((n as nat) * 1000000000000 >= 1000000000000) by (nonlinear_arith)
                requires
                    n >= 1,
            ;
            if s == 0 {
                assert(((s as nat) + 1) * ((s as nat) + 1) == 1) by (nonlinear_arith)
                    requires
                        s == 0,
                ;
                assert(false);
            }
            if s > 1000000000 {
                assert((s as nat) * (s as nat) > 1000000000000000000) by (nonlinear_arith)
                    requires
                        (s as nat) > 1000000000,
                ;
                assert(false);
            }
        }
        let den: u64 = 2 * s;
        Rat::new(3000000, den as i64)
    }
}

/// `100 + own-module bonus + strength * beacon bonus`, for one bonus column.
pub open spec fn bonus_total(mods: Seq<Module>, bs: Seq<Beacon>, w: BonusKind) -> Qv {
    q_add(
        q_add(q_int(100), module_bonus_sum(mods, w)),
        q_mul(beacon_strength(bs.len()), beacon_bonus_sum(bs, w)),
    )
}

pub proof fn lemma_bonus_total_wf(mods: Seq<Module>, bs: Seq<Beacon>, w: BonusKind)
    ensures
        q_wf(bonus_total(mods, bs, w)),
{
    lemma_module_bonus_sum_wf(mods, w);
    lemma_beacon_bonus_sum_wf(bs, w);
    lemma_beacon_strength_wf(bs.len());
    crate::rational::lemma_q_add_wf(q_int(100), module_bonus_sum(mods, w));
    crate::rational::lemma_q_mul_wf(beacon_strength(bs.len()), beacon_bonus_sum(bs, w));
    crate::rational::lemma_q_add_wf(
        q_add(q_int(100), module_bonus_sum(mods, w)),
        q_mul(beacon_strength(bs.len()), beacon_bonus_sum(bs, w)),
    );
}

/// The crafting-speed factor of a machine's modules and beacons.
pub open spec fn speed_multiplier(mods: Seq<Module>, bs: Seq<Beacon>) -> Qv {
    q_div(bonus_total(mods, bs, BonusKind::Speed), q_int(100))
}

/// The product-output factor: module and beacon productivity plus the
/// recipe's own bonus.
pub open spec fn productivity_multiplier(mods: Seq<Module>, bs: Seq<Beacon>, bonus: Qv) -> Qv {
    q_div(q_add(bonus_total(mods, bs, BonusKind::Productivity), bonus), q_int(100))
}

pub proof fn lemma_speed_multiplier_wf(mods: Seq<Module>, bs: Seq<Beacon>)
    ensures
        q_wf(speed_multiplier(mods, bs)),
{
    lemma_bonus_total_wf(mods, bs, BonusKind::Speed);
    crate::rational::lemma_q_inv_wf(q_int(100));
    crate::rational::lemma_q_mul_wf(
        bonus_total(mods, bs, BonusKind::Speed),
        crate::rational::q_inv(q_int(100)),
    );
}

pub proof fn lemma_productivity_multiplier_wf(mods: Seq<Module>, bs: Seq<Beacon>, bonus: Qv)
    requires
        q_wf(bonus),
    ensures
        q_wf(productivity_multiplier(mods, bs, bonus)),
{
    lemma_bonus_total_wf(mods, bs, BonusKind::Productivity);
    crate::rational::lemma_q_add_wf(bonus_total(mods, bs, BonusKind::Productivity), bonus);
    crate::rational::lemma_q_inv_wf(q_int(100));
    crate::rational::lemma_q_mul_wf(
        q_add(bonus_total(mods, bs, BonusKind::Productivity), bonus),
        crate::rational::q_inv(q_int(100)),
    );
}

fn bonus_total_exec(mods: &Vec<Module>, bs: &Vec<Beacon>, w: BonusKind) -> (r: Option<Rat>)
    ensures
        match r {
            Some(x) => q_eq(x@, bonus_total(mods@, bs@, w)),
            None => true,
        },
{
    let msum = match sum_module_bonus(mods, w) {
        None => {
            return None;
        },
        Some(v) => v,
    };
    let bsum = match sum_beacon_bonus(bs, w) {
        None => {
            return None;
        },
        Some(v) => v,
    };
    let strength = match beacon_strength_exec(bs.len()) {
        None => {
            return None;
        },
        Some(v) => v,
    };
    let hundred = Rat::from_small(100);
    let t1 = match hundred.add(msum) {
        None => {
            return None;
        },
        Some(v) => v,
    };
    let t2 = match strength.mul(bsum) {
        None => {
            return None;
        },
        Some(v) => v,
    };
    let t3 = match t1.add(t2) {
        None => {
            return None;
        },
        Some(v) => v,
    };
    proof {
        let ms = module_bonus_sum(mods@, w);
        let bsv = beacon_bonus_sum(bs@, w);
        let st = beacon_strength(bs@.len());
        lemma_module_bonus_sum_wf(mods@, w);
        lemma_beacon_bonus_sum_wf(bs@, w);
        lemma_beacon_strength_wf(bs@.len());
        // t1 equals 100 + ms.
        crate::rational::lemma_q_add_cong(q_int(100), q_int(100), msum@, ms);
        crate::rational::lemma_q_add_wf(q_int(100), msum@);
        crate::rational::lemma_q_eq_trans(
            t1@,
            q_add(q_int(100), msum@),
            q_add(q_int(100), ms),
        );
        // t2 equals strength * beacon sum.
        crate::rational::lemma_q_mul_cong(strength@, st, bsum@, bsv);
        crate::rational::lemma_q_mul_wf(strength@, bsum@);
        crate::rational::lemma_q_eq_trans(t2@, q_mul(strength@, bsum@), q_mul(st, bsv));
        // t3 equals the total.
        crate::rational::lemma_q_add_wf(q_int(100), ms);
        crate::rational::lemma_q_mul_wf(st, bsv);
        crate::rational::lemma_q_add_cong(t1@, q_add(q_int(100), ms), t2@, q_mul(st, bsv));
        crate::rational::lemma_q_add_wf(t1@, t2@);
        crate::rational::lemma_q_eq_trans(
            t3@,
            q_add(t1@, t2@),
            q_add(q_add(q_int(100), ms), q_mul(st, bsv)),
        );
    }
    Some(t3)
}

fn speed_multiplier_exec(mods: &Vec<Module>, bs: &Vec<Beacon>) -> (r: Option<Rat>)
    ensures
        match r {
            Some(x) => q_eq(x@, speed_multiplier(mods@, bs@)),
            None => true,
        },
{
    let tot = match bonus_total_exec(mods, bs, BonusKind::Speed) {
        None => {
            return None;
        },
        Some(v) => v,
    };
    let hundred = Rat::from_small(100);
    let r = match tot.div(hundred) {
        None => {
            return None;
        },
        Some(v) => v,
    };
    proof {
        let spec_tot = bonus_total(mods@, bs@, BonusKind::Speed);
        lemma_bonus_total_wf(mods@, bs@, BonusKind::Speed);
        crate::rational::lemma_q_div_cong_left(tot@, spec_tot, q_int(100));
        crate::rational::lemma_q_inv_wf(q_int(100));
        crate::rational::lemma_q_mul_wf(tot@, crate::rational::q_inv(q_int(100)));
        crate::rational::lemma_q_eq_trans(
            r@,
            q_div(tot@, q_int(100)),
            q_div(spec_tot, q_int(100)),
        );
    }
    Some(r)
}

fn productivity_multiplier_exec(mods: &Vec<Module>, bs: &Vec<Beacon>, bonus: Rat) -> (r: Option<
    Rat,
>)
    ensures
        match r {
            Some(x) => q_eq(x@, productivity_multiplier(mods@, bs@, bonus@)),
            None => true,
        },
{
    let tot = match bonus_total_exec(mods, bs, BonusKind::Productivity) {
        None => {
            return None;
        },
        Some(v) => v,
    };
    let t = match tot.add(bonus) {
        None => {
            return None;
        },
        Some(v) => v,
    };
    let hundred = Rat::from_small(100);
    let r = match t.div(hundred) {
        None => {
            return None;
        },
        Some(v) => v,
    };
    proof {
        let spec_tot = bonus_total(mods@, bs@, BonusKind::Productivity);
        lemma_bonus_total_wf(mods@, bs@, BonusKind::Productivity);
        crate::rational::lemma_q_add_cong(tot@, spec_tot, bonus@, bonus@);
        crate::rational::lemma_q_add_wf(tot@, bonus@);
        crate::rational::lemma_q_eq_trans(t@, q_add(tot@, bonus@), q_add(spec_tot, bonus@));
        crate::rational::lemma_q_add_wf(spec_tot, bonus@);
        crate::rational::lemma_q_div_cong_left(t@, q_add(spec_tot, bonus@), q_int(100));
        crate::rational::lemma_q_inv_wf(q_int(100));
        crate::rational::lemma_q_mul_wf(t@, crate::rational::q_inv(q_int(100)));
        crate::rational::lemma_q_eq_trans(
            r@,
            q_div(t@, q_int(100)),
            q_div(q_add(spec_tot, bonus@), q_int(100)),
        );
    }
    Some(r)
}

// ---------------------------------------------------------------------------
// Throughput.
// ---------------------------------------------------------------------------

/// Crafts per second at multiplier `c`. Sources and sinks run one synthetic
/// craft per second per unit, so their rate is the multiplier itself.
pub open spec fn crafts_per_second_at_spec(m: Machine, c: Qv) -> Qv {
    match m.kind {
        MachineKind::Source { .. } => c,
        MachineKind::Sink { .. } => c,
        MachineKind::Crafter { crafter, recipe, modules, beacons, .. } => q_div(
            q_mul(q_mul(speed_multiplier(modules@, beacons@), crafter.crafting_speed@), c),
            recipe.energy@,
        ),
    }
}

/// How many signed item rates a machine reports: one per ingredient, then
/// one per product; a source or sink reports exactly one.
pub open spec fn item_speeds_len(m: Machine) -> int {
    match m.kind {
        MachineKind::Source { .. } => 1,
        MachineKind::Sink { .. } => 1,
        MachineKind::Crafter { recipe, .. } => (recipe.ingredients@.len()
            + recipe.products@.len()) as int,
    }
}

pub open spec fn item_speed_name(m: Machine, j: int) -> Seq<char> {
    match m.kind {
        MachineKind::Source { item } => item@,
        MachineKind::Sink { item } => item@,
        MachineKind::Crafter { recipe, .. } => if j < recipe.ingredients@.len() {
            recipe.ingredients@[j].name@
        } else {
            recipe.products@[j - recipe.ingredients@.len()].name@
        },
    }
}

/// The signed rate of the `j`-th entry at multiplier `c`: negative for
/// consumed ingredients, positive for products.
pub open spec fn item_speed_at(m: Machine, c: Qv, j: int) -> Qv {
    match m.kind {
        MachineKind::Source { .. } => c,
        MachineKind::Sink { .. } => q_neg(c),
        MachineKind::Crafter { crafter, recipe, modules, beacons, .. } => {
            let cps = crafts_per_second_at_spec(m, c);
            if j < recipe.ingredients@.len() {
                q_neg(q_mul(cps, recipe.ingredients@[j].amount@))
            } else {
                let p = recipe.products@[j - recipe.ingredients@.len()];
                q_mul(
                    q_mul(
                        cps,
                        productivity_multiplier(modules@, beacons@, recipe.productivity_bonus@),
                    ),
                    q_sub(p.amount@, p.ignored_by_productivity@),
                )
            }
        },
    }
}

/// A machine whose formulas denote well-formed fractions: a crafter's recipe
/// must have a nonzero time per craft.
pub open spec fn machine_wf(m: Machine) -> bool {
    match m.kind {
        MachineKind::Source { .. } => true,
        MachineKind::Sink { .. } => true,
        MachineKind::Crafter { recipe, .. } => recipe.energy@.n != 0,
    }
}

pub proof fn lemma_crafts_per_second_wf(m: Machine, c: Qv)
    requires
        q_wf(c),
        machine_wf(m),
    ensures
        q_wf(crafts_per_second_at_spec(m, c)),
{
    match m.kind {
        MachineKind::Source { .. } => {},
        MachineKind::Sink { .. } => {},
        MachineKind::Crafter { crafter, recipe, modules, beacons, .. } => {
            lemma_speed_multiplier_wf(modules@, beacons@);
            crate::rational::lemma_q_mul_wf(
                speed_multiplier(modules@, beacons@),
                crafter.crafting_speed@,
            );
            crate::rational::lemma_q_mul_wf(
                q_mul(speed_multiplier(modules@, beacons@), crafter.crafting_speed@),
                c,
            );
            crate::rational::lemma_q_inv_wf(recipe.energy@);
            crate::rational::lemma_q_mul_wf(
                q_mul(q_mul(speed_multiplier(modules@, beacons@), crafter.crafting_speed@), c),
                crate::rational::q_inv(recipe.energy@),
            );
        },
    }
}

pub proof fn lemma_item_speed_wf(m: Machine, c: Qv, j: int)
    requires
        q_wf(c),
        machine_wf(m),
    ensures
        q_wf(item_speed_at(m, c, j)),
{
    lemma_crafts_per_second_wf(m, c);
    match m.kind {
        MachineKind::Source { .. } => {},
        MachineKind::Sink { .. } => {},
        MachineKind::Crafter { crafter, recipe, modules, beacons, .. } => {
            let cps = crafts_per_second_at_spec(m, c);
            if j < recipe.ingredients@.len() {
                crate::rational::lemma_q_mul_wf(cps, recipe.ingredients@[j].amount@);
            } else {
                let p = recipe.products@[j - recipe.ingredients@.len()];
                lemma_productivity_multiplier_wf(modules@, beacons@, recipe.productivity_bonus@);
                crate::rational::lemma_q_mul_wf(
                    cps,
                    productivity_multiplier(modules@, beacons@, recipe.productivity_bonus@),
                );
                assert(q_wf(p.amount@));
                assert(q_wf(p.ignored_by_productivity@));
                assert(q_wf(q_neg(p.ignored_by_productivity@)));
                crate::rational::lemma_q_add_wf(p.amount@, q_neg(p.ignored_by_productivity@));
                crate::rational::lemma_q_mul_wf(
                    q_mul(
                        cps,
                        productivity_multiplier(modules@, beacons@, recipe.productivity_bonus@),
                    ),
                    q_sub(p.amount@, p.ignored_by_productivity@),
                );
            }
        },
    }
}

impl Machine {
    pub open spec fn is_source_spec(&self) -> bool {
        self.kind is Source
    }

    pub open spec fn is_sink_spec(&self) -> bool {
        self.kind is Sink
    }

    pub fn new_source(item: ItemName) -> (m: Machine)
        ensures
            m.kind == (MachineKind::Source { item }),
            m.crafter_count@ == q_int(1),
    {
        Machine { kind: MachineKind::Source { item }, crafter_count: MachineCount::one() }
    }

    pub fn new_sink(item: ItemName) -> (m: Machine)
        ensures
            m.kind == (MachineKind::Sink { item }),
            m.crafter_count@ == q_int(1),
    {
        Machine { kind: MachineKind::Sink { item }, crafter_count: MachineCount::one() }
    }

    pub fn is_source(&self) -> (r: bool)
        ensures
            r == self.is_source_spec(),
    {
        match &self.kind {
            MachineKind::Source { .. } => true,
            _ => false,
        }
    }

    pub fn is_sink(&self) -> (r: bool)
        ensures
            r == self.is_sink_spec(),
    {
        match &self.kind {
            MachineKind::Sink { .. } => true,
            _ => false,
        }
    }

    pub fn is_source_or_sink(&self) -> (r: bool)
        ensures
            r == (self.is_source_spec() || self.is_sink_spec()),
    {
        match &self.kind {
            MachineKind::Source { .. } => true,
            MachineKind::Sink { .. } => true,
            MachineKind::Crafter { .. } => false,
        }
    }

    /// Crafts per second at the given multiplier; `None` on range exhaustion
    /// or a zero-time recipe.
    pub fn crafts_per_second_at(&self, count: Rat) -> (r: Option<Rat>)
        ensures
            match r {
                Some(x) => q_eq(x@, crafts_per_second_at_spec(*self, count@)),
                None => true,
            },
            r is Some ==> machine_wf(*self),
            (self.kind is Source || self.kind is Sink) ==> r is Some,
    {
        match &self.kind {
            MachineKind::Source { .. } => Some(count),
            MachineKind::Sink { .. } => Some(count),
            MachineKind::Crafter { crafter, recipe, modules, beacons, .. } => {
                let sm = match speed_multiplier_exec(modules, beacons) {
                    None => {
                        return None;
                    },
                    Some(v) => v,
                };
                let a = match sm.mul(crafter.crafting_speed) {
                    None => {
                        return None;
                    },
                    Some(v) => v,
                };
                let b = match a.mul(count) {
                    None => {
                        return None;
                    },
                    Some(v) => v,
                };
                let c = match b.div(recipe.energy) {
                    None => {
                        return None;
                    },
                    Some(v) => v,
                };
                proof {
                    let smv = speed_multiplier(modules@, beacons@);
                    lemma_speed_multiplier_wf(modules@, beacons@);
                    // a equals the multiplier times the crafting speed.
                    crate::rational::lemma_q_mul_cong(
                        sm@,
                        smv,
                        crafter.crafting_speed@,
                        crafter.crafting_speed@,
                    );
                    crate::rational::lemma_q_mul_wf(sm@, crafter.crafting_speed@);
                    crate::rational::lemma_q_eq_trans(
                        a@,
                        q_mul(sm@, crafter.crafting_speed@),
                        q_mul(smv, crafter.crafting_speed@),
                    );
                    // b multiplies in the count.
                    crate::rational::lemma_q_mul_wf(smv, crafter.crafting_speed@);
                    crate::rational::lemma_q_mul_cong(
                        a@,
                        q_mul(smv, crafter.crafting_speed@),
                        count@,
                        count@,
                    );
                    crate::rational::lemma_q_mul_wf(a@, count@);
                    crate::rational::lemma_q_eq_trans(
                        b@,
                        q_mul(a@, count@),
                        q_mul(q_mul(smv, crafter.crafting_speed@), count@),
                    );
                    // c divides by the recipe time.
                    crate::rational::lemma_q_zero_iff(recipe.energy@);
                    crate::rational::lemma_q_mul_wf(
                        q_mul(smv, crafter.crafting_speed@),
                        count@,
                    );
                    crate::rational::lemma_q_div_cong_left(
                        b@,
                        q_mul(q_mul(smv, crafter.crafting_speed@), count@),
                        recipe.energy@,
                    );
                    crate::rational::lemma_q_inv_wf(recipe.energy@);
                    crate::rational::lemma_q_mul_wf(
                        b@,
                        crate::rational::q_inv(recipe.energy@),
                    );
                    crate::rational::lemma_q_eq_trans(
                        c@,
                        q_div(b@, recipe.energy@),
                        q_div(
                            q_mul(q_mul(smv, crafter.crafting_speed@), count@),
                            recipe.energy@,
                        ),
                    );
                }
                Some(c)
            },
        }
    }

    /// All signed item rates at the given multiplier: ingredients (negative)
    /// first, then products (positive).
    pub fn item_speeds_at(&self, count: Rat) -> (r: Option<Vec<ItemSpeed>>)
        ensures
            match r {
                Some(v) => {
                    &&& v@.len() == item_speeds_len(*self)
                    &&& forall|j: int|
                        0 <= j < v@.len() ==> (#[trigger] v@[j]).item@ == item_speed_name(
                            *self,
                            j,
                        ) && q_eq(v@[j].speed@, item_speed_at(*self, count@, j))
                },
                None => true,
            },
            r is Some ==> machine_wf(*self),
            (self.kind is Source || self.kind is Sink) ==> r is Some,
    {
        let cps = match self.crafts_per_second_at(count) {
            None => {
                return None;
            },
            Some(v) => v,
        };
        proof {
            lemma_crafts_per_second_wf(*self, count@);
        }
        match &self.kind {
            MachineKind::Source { item } => {
                let mut v: Vec<ItemSpeed> = Vec::new();
                v.push(ItemSpeed { item: item.clone(), speed: Speed(count) });
                Some(v)
            },
            MachineKind::Sink { item } => {
                let mut v: Vec<ItemSpeed> = Vec::new();
                v.push(ItemSpeed { item: item.clone(), speed: Speed(count.neg()) });
                Some(v)
            },
            MachineKind::Crafter { crafter, recipe, modules, beacons, .. } => {
                let pm = match productivity_multiplier_exec(
                    modules,
                    beacons,
                    recipe.productivity_bonus,
                ) {
                    None => {
                        return None;
                    },
                    Some(v) => v,
                };
                let om = match cps.mul(pm) {
                    None => {
                        return None;
                    },
                    Some(v) => v,
                };
                proof {
                    let cpsv = crafts_per_second_at_spec(*self, count@);
                    let pmv = productivity_multiplier(
                        modules@,
                        beacons@,
                        recipe.productivity_bonus@,
                    );
                    lemma_crafts_per_second_wf(*self, count@);
                    lemma_productivity_multiplier_wf(
                        modules@,
                        beacons@,
                        recipe.productivity_bonus@,
                    );
                    crate::rational::lemma_q_mul_cong(cps@, cpsv, pm@, pmv);
                    crate::rational::lemma_q_mul_wf(cps@, pm@);
                    crate::rational::lemma_q_eq_trans(
                        om@,
                        q_mul(cps@, pm@),
                        q_mul(cpsv, pmv),
                    );
                }
                let ghost cpsv = crafts_per_second_at_spec(*self, count@);
                let ghost pmv = productivity_multiplier(
                    modules@,
                    beacons@,
                    recipe.productivity_bonus@,
                );
                let ni = recipe.ingredients.len();
                let mut v: Vec<ItemSpeed> = Vec::new();
                let mut i: usize = 0;
                while i < ni
                    invariant
                        ni == recipe.ingredients@.len(),
                        i <= ni,
                        v@.len() == i,
                        machine_wf(*self),
                        q_eq(cps@, crafts_per_second_at_spec(*self, count@)),
                        cpsv == crafts_per_second_at_spec(*self, count@),
                        self.kind matches MachineKind::Crafter { recipe: r2, .. } && r2 == *recipe,
                        forall|j: int|
                            0 <= j < i ==> (#[trigger] v@[j]).item@ == recipe.ingredients@[j].name@
                                && q_eq(v@[j].speed@, item_speed_at(*self, count@, j)),
                    decreases ni - i,
                {
                    let ing = &recipe.ingredients[i];
                    let t = match cps.mul(ing.amount.0) {
                        None => {
                            return None;
                        },
                        Some(x) => x,
                    };
                    let s = t.neg();
                    proof {
                        lemma_crafts_per_second_wf(*self, count@);
                        crate::rational::lemma_q_mul_cong(
                            cps@,
                            cpsv,
                            ing.amount@,
                            ing.amount@,
                        );
                        crate::rational::lemma_q_mul_wf(cps@, ing.amount@);
                        crate::rational::lemma_q_eq_trans(
                            t@,
                            q_mul(cps@, ing.amount@),
                            q_mul(cpsv, ing.amount@),
                        );
                        crate::rational::lemma_q_neg_cong(t@, q_mul(cpsv, ing.amount@));
                    }
                    v.push(ItemSpeed { item: ing.name.clone(), speed: Speed(s) });
                    i = i + 1;
                }
                let np = recipe.products.len();
                let mut k: usize = 0;
                while k < np
                    invariant
                        np == recipe.products@.len(),
                        ni == recipe.ingredients@.len(),
                        k <= np,
                        v@.len() == ni + k,
                        machine_wf(*self),
                        q_eq(om@, q_mul(cpsv, pmv)),
                        cpsv == crafts_per_second_at_spec(*self, count@),
                        pmv == productivity_multiplier(
                            modules@,
                            beacons@,
                            recipe.productivity_bonus@,
                        ),
                        self.kind matches MachineKind::Crafter {
                            recipe: r2,
                            modules: m2,
                            beacons: b2,
                            ..
                        } && r2 == *recipe && m2 == *modules && b2 == *beacons,
                        forall|j: int|
                            0 <= j < v@.len() ==> (#[trigger] v@[j]).item@ == item_speed_name(
                                *self,
                                j,
                            ) && q_eq(v@[j].speed@, item_speed_at(*self, count@, j)),
                    decreases np - k,
                {
                    let p = &recipe.products[k];
                    let d = match p.amount.0.sub(p.ignored_by_productivity.0) {
                        None => {
                            return None;
                        },
                        Some(x) => x,
                    };
                    let s = match om.mul(d) {
                        None => {
                            return None;
                        },
                        Some(x) => x,
                    };
                    proof {
                        let dv = q_sub(p.amount@, p.ignored_by_productivity@);
                        lemma_crafts_per_second_wf(*self, count@);
                        lemma_productivity_multiplier_wf(
                            modules@,
                            beacons@,
                            recipe.productivity_bonus@,
                        );
                        crate::rational::lemma_q_mul_wf(cpsv, pmv);
                        assert(q_wf(p.amount@));
                        assert(q_wf(p.ignored_by_productivity@));
                        assert(q_wf(q_neg(p.ignored_by_productivity@)));
                        crate::rational::lemma_q_add_wf(
                            p.amount@,
                            q_neg(p.ignored_by_productivity@),
                        );
                        crate::rational::lemma_q_mul_cong(om@, q_mul(cpsv, pmv), d@, dv);
                        crate::rational::lemma_q_mul_wf(om@, d@);
                        crate::rational::lemma_q_eq_trans(
                            s@,
                            q_mul(om@, d@),
                            q_mul(q_mul(cpsv, pmv), dv),
                        );
                    }
                    v.push(ItemSpeed { item: p.name.clone(), speed: Speed(s) });
                    k = k + 1;
                }
                Some(v)
            },
        }
    }

    /// All signed item rates at this machine's own multiplier.
    pub fn item_speeds(&self) -> (r: Option<Vec<ItemSpeed>>)
        ensures
            match r {
                Some(v) => {
                    &&& v@.len() == item_speeds_len(*self)
                    &&& forall|j: int|
                        0 <= j < v@.len() ==> (#[trigger] v@[j]).item@ == item_speed_name(
                            *self,
                            j,
                        ) && q_eq(v@[j].speed@, item_speed_at(*self, self.crafter_count@, j))
                },
                None => true,
            },
            r is Some ==> machine_wf(*self),
            (self.kind is Source || self.kind is Sink) ==> r is Some,
    {
        self.item_speeds_at(self.crafter_count.0)
    }

    /// Crafts per second at this machine's own multiplier.
    pub fn crafts_per_second(&self) -> (r: Option<Speed>)
        ensures
            match r {
                Some(x) => q_eq(x@, crafts_per_second_at_spec(*self, self.crafter_count@)),
                None => true,
            },
    {
        match self.crafts_per_second_at(self.crafter_count.0) {
            None => None,
            Some(x) => Some(Speed(x)),
        }
    }
}


/// Throughput is linear in the multiplier: the crafts-per-second value at
/// multiplier `c` equals the value at multiplier one scaled by `c`.
pub proof fn lemma_crafts_per_second_linear(m: Machine, c: Qv)
    ensures
        q_eq(
            crafts_per_second_at_spec(m, c),
            q_mul(crafts_per_second_at_spec(m, q_int(1)), c),
        ),
        m.kind is Crafter ==> crafts_per_second_at_spec(m, c) == q_mul(
            crafts_per_second_at_spec(m, q_int(1)),
            c,
        ),
{
    match m.kind {
        MachineKind::Source { .. } => {},
        MachineKind::Sink { .. } => {},
        MachineKind::Crafter { crafter, recipe, modules, beacons, .. } => {
            let sn = speed_multiplier(modules@, beacons@).n * crafter.crafting_speed@.n;
            let sd = speed_multiplier(modules@, beacons@).d * crafter.crafting_speed@.d;
            let iv = crate::rational::q_inv(recipe.energy@);
            assert((sn * c.n) * iv.n == ((sn * 1) * iv.n) * c.n) by (nonlinear_arith);
            assert((sd * c.d) * iv.d == ((sd * 1) * iv.d) * c.d) by (nonlinear_arith);
            assert(crafts_per_second_at_spec(m, c) == q_mul(
                crafts_per_second_at_spec(m, q_int(1)),
                c,
            ));
        },
    }
}

/// Superposition: every reported item rate at multiplier `c` is the unit
/// rate scaled by `c`. This is what lets the solver compute each column's
/// coefficients at multiplier one.
pub proof fn lemma_item_speed_linear(m: Machine, c: Qv, j: int)
    ensures
        q_eq(item_speed_at(m, c, j), q_mul(item_speed_at(m, q_int(1), j), c)),
{
    lemma_crafts_per_second_linear(m, c);
    match m.kind {
        MachineKind::Source { .. } => {},
        MachineKind::Sink { .. } => {},
        MachineKind::Crafter { crafter, recipe, modules, beacons, .. } => {
            let b = crafts_per_second_at_spec(m, q_int(1));
            assert(crafts_per_second_at_spec(m, c) == q_mul(b, c));
            if j < recipe.ingredients@.len() {
                let am = recipe.ingredients@[j].amount@;
                assert(-((b.n * c.n) * am.n) == (-(b.n * am.n)) * c.n) by (nonlinear_arith);
                assert((b.d * c.d) * am.d == (b.d * am.d) * c.d) by (nonlinear_arith);
                assert(item_speed_at(m, c, j) == q_mul(item_speed_at(m, q_int(1), j), c));
            } else {
                let pm = productivity_multiplier(modules@, beacons@, recipe.productivity_bonus@);
                let p = recipe.products@[j - recipe.ingredients@.len()];
                let sub = q_sub(p.amount@, p.ignored_by_productivity@);
                assert(((b.n * c.n) * pm.n) * sub.n == ((b.n * pm.n) * sub.n) * c.n)
                    by (nonlinear_arith);
                assert(((b.d * c.d) * pm.d) * sub.d == ((b.d * pm.d) * sub.d) * c.d)
                    by (nonlinear_arith);
                assert(item_speed_at(m, c, j) == q_mul(item_speed_at(m, q_int(1), j), c));
            }
        },
    }
}

} // verus!
