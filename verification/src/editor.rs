//! The editor: owns the machine list and the constraint set, applies
//! mutations, keeps sources and sinks in sync, and re-solves after every
//! change.
//!
//! The solved state is captured by `solution_ok`: the multipliers are not
//! all zero and none is negative; for every touched item the net flow is
//! within the tolerance of zero; for every item speed constraint the gross
//! production is within the tolerance of the requested rate; and every
//! pinned machine count is within the tolerance of its pin.

use crate::error::Error;
use crate::info::Info;
use crate::linalg::{
    all_nonneg, all_wf, all_zero, lemma_q_dot_eq_sum_pointwise, lemma_q_dot_pin, lemma_q_sum_wf,
    q_dot, q_sum, q_tol, residual_ok,
};
use crate::machine::{
    item_speed_at, item_speed_name, item_speeds_len, lemma_item_speed_wf, machine_wf, Beacon,
    Machine, MachineKind, Module, ModuleType,
};
use crate::primitives::{CrafterName, ItemName, MachineCount, ModuleName, RecipeName, Speed};
use crate::rational::{
    lemma_q_acc_step, lemma_q_add_cong, lemma_q_add_wf, lemma_q_add_zero, lemma_q_eq_trans,
    lemma_q_le_cong, lemma_q_lt_cong, lemma_q_mul_cong, lemma_q_mul_wf, lemma_q_neg_cong, q_add,
    q_eq, q_int, q_le, q_lt, q_mul, q_neg, q_sub, q_wf, Qv, Rat,
};
use crate::snippet::{machine_snippet_of, snippet_matches, MachineSnippet, Snippet};
use crate::solver::{mat_qv, solve_system, vec_qv};
use vstd::pervasive::VecAdditionalExecFns;
use vstd::prelude::*;

verus! {

broadcast use crate::rational::lemma_rat_wf;

// ---------------------------------------------------------------------------
// Flow specifications.
// ---------------------------------------------------------------------------

/// Signed rates of one machine at multiplier one, kept at indices whose item
/// is `t`, zero elsewhere.
pub open spec fn balance_terms(m: Machine, t: Seq<char>) -> Seq<Qv> {
    Seq::new(
        item_speeds_len(m) as nat,
        |j: int|
            if item_speed_name(m, j) == t {
                item_speed_at(m, q_int(1), j)
            } else {
                q_int(0)
            },
    )
}

/// This machine's column coefficient in the balance row of item `t`: its
/// net signed rate of `t` at multiplier one.
pub open spec fn machine_balance_coeff(m: Machine, t: Seq<char>) -> Qv {
    q_sum(balance_terms(m, t))
}

/// Like `balance_terms`, but keeping only producing entries: the gross
/// production side, as the production-rate constraint counts it.
pub open spec fn production_terms(m: Machine, t: Seq<char>) -> Seq<Qv> {
    Seq::new(
        item_speeds_len(m) as nat,
        |j: int|
            if item_speed_name(m, j) == t && q_lt(q_int(0), item_speed_at(m, q_int(1), j)) {
                item_speed_at(m, q_int(1), j)
            } else {
                q_int(0)
            },
    )
}

pub open spec fn machine_production_coeff(m: Machine, t: Seq<char>) -> Qv {
    q_sum(production_terms(m, t))
}

pub proof fn lemma_balance_coeff_wf(m: Machine, t: Seq<char>)
    requires
        machine_wf(m),
    ensures
        q_wf(machine_balance_coeff(m, t)),
        q_wf(machine_production_coeff(m, t)),
        all_wf(balance_terms(m, t)),
        all_wf(production_terms(m, t)),
{
    let bt = balance_terms(m, t);
    assert forall|j: int| 0 <= j < bt.len() implies q_wf(#[trigger] bt[j]) by {
        lemma_item_speed_wf(m, q_int(1), j);
    }
    lemma_q_sum_wf(bt);
    let pt = production_terms(m, t);
    assert forall|j: int| 0 <= j < pt.len() implies q_wf(#[trigger] pt[j]) by {
        lemma_item_speed_wf(m, q_int(1), j);
    }
    lemma_q_sum_wf(pt);
}

/// The coefficients depend only on what the machine is, not on its current
/// multiplier.
pub proof fn lemma_coeff_count_irrelevant(m1: Machine, m2: Machine, t: Seq<char>)
    requires
        m1.kind == m2.kind,
    ensures
        machine_balance_coeff(m1, t) == machine_balance_coeff(m2, t),
        machine_production_coeff(m1, t) == machine_production_coeff(m2, t),
        item_speeds_len(m1) == item_speeds_len(m2),
        forall|j: int| item_speed_name(m1, j) == item_speed_name(m2, j),
{
    assert forall|j: int| item_speed_name(m1, j) == item_speed_name(m2, j) by {}
    assert forall|j: int, c: Qv| item_speed_at(m1, c, j) == #[trigger] item_speed_at(m2, c, j) by {}
    assert(balance_terms(m1, t) =~= balance_terms(m2, t));
    assert(production_terms(m1, t) =~= production_terms(m2, t));
}

/// The machine reports some rate for item `t`.
pub open spec fn machine_touches(m: Machine, t: Seq<char>) -> bool {
    exists|j: int| 0 <= j < item_speeds_len(m) && item_speed_name(m, j) == t
}

pub open spec fn any_touches(ms: Seq<Machine>, t: Seq<char>) -> bool {
    exists|i: int| 0 <= i < ms.len() && machine_touches(ms[i], t)
}

/// Per-machine net flow of `t` at each machine's own multiplier.
pub open spec fn balance_flow_terms(ms: Seq<Machine>, t: Seq<char>) -> Seq<Qv> {
    ms.map(|i: int, m: Machine| q_mul(machine_balance_coeff(m, t), m.crafter_count@))
}

/// Net flow of item `t` over the whole machine list: production minus
/// consumption, at the solved multipliers.
pub open spec fn total_balance_flow(ms: Seq<Machine>, t: Seq<char>) -> Qv {
    q_sum(balance_flow_terms(ms, t))
}

pub open spec fn production_flow_terms(ms: Seq<Machine>, t: Seq<char>) -> Seq<Qv> {
    ms.map(|i: int, m: Machine| q_mul(machine_production_coeff(m, t), m.crafter_count@))
}

/// Gross production of item `t` over the whole machine list.
pub open spec fn total_production_flow(ms: Seq<Machine>, t: Seq<char>) -> Qv {
    q_sum(production_flow_terms(ms, t))
}

/// Within `1/100` of zero.
pub open spec fn within_tol(v: Qv) -> bool {
    q_le(q_neg(q_tol()), v) && q_le(v, q_tol())
}

pub open spec fn within_tol_of(v: Qv, c: Qv) -> bool {
    within_tol(q_sub(v, c))
}

pub proof fn lemma_within_tol_cong(v: Qv, v2: Qv)
    requires
        q_wf(v),
        q_wf(v2),
        q_eq(v, v2),
    ensures
        within_tol(v) == within_tol(v2),
{
    assert(q_wf(q_neg(q_tol())));
    assert(q_wf(q_tol()));
    lemma_q_le_cong(q_neg(q_tol()), q_neg(q_tol()), v, v2);
    lemma_q_le_cong(v, v2, q_tol(), q_tol());
}

// ---------------------------------------------------------------------------
// Structural machine invariants.
// ---------------------------------------------------------------------------

/// The capacity rules of the data model: modules fit the crafter's
/// inventory, productivity modules only where the recipe allows them,
/// beacons hold at most two modules and never productivity modules.
pub open spec fn machine_caps_ok(m: Machine) -> bool {
    match m.kind {
        MachineKind::Source { .. } => true,
        MachineKind::Sink { .. } => true,
        MachineKind::Crafter { crafter, recipe, modules, beacons, .. } => {
            &&& modules@.len() <= crafter.module_inventory_size
            &&& forall|j: int|
                0 <= j < modules@.len() && (#[trigger] modules@[j]).type_
                    == ModuleType::Productivity ==> recipe.allowed_effects.productivity
            &&& forall|b: int|
                0 <= b < beacons@.len() ==> (#[trigger] beacons@[b]).modules@.len() <= 2
            &&& forall|b: int, j: int|
                0 <= b < beacons@.len() && 0 <= j < (#[trigger] beacons@[b]).modules@.len() ==> (
                #[trigger] beacons@[b].modules@[j]).type_ != ModuleType::Productivity
        },
    }
}

/// All items the machine touches are present in the info's item table.
pub open spec fn machine_items_known(info: Info, m: Machine) -> bool {
    forall|j: int|
        0 <= j < item_speeds_len(m) ==> info.item_known(#[trigger] item_speed_name(m, j))
}

// ---------------------------------------------------------------------------
// Item collection.
// ---------------------------------------------------------------------------

pub open spec fn names_contain(items: Seq<ItemName>, t: Seq<char>) -> bool {
    exists|k: int| 0 <= k < items.len() && items[k]@ == t
}

/// The item names a machine touches, in report order.
fn machine_item_names(m: &Machine) -> (r: Vec<ItemName>)
    ensures
        r@.len() == item_speeds_len(*m),
        forall|j: int| 0 <= j < r@.len() ==> (#[trigger] r@[j])@ == item_speed_name(*m, j),
{
    match &m.kind {
        MachineKind::Source { item } => {
            let mut v: Vec<ItemName> = Vec::new();
            v.push(item.clone());
            v
        },
        MachineKind::Sink { item } => {
            let mut v: Vec<ItemName> = Vec::new();
            v.push(item.clone());
            v
        },
        MachineKind::Crafter { recipe, .. } => {
            let mut v: Vec<ItemName> = Vec::new();
            let mut i: usize = 0;
            while i < recipe.ingredients.len()
                invariant
                    i <= recipe.ingredients@.len(),
                    v@.len() == i,
                    m.kind matches MachineKind::Crafter { recipe: r2, .. } && r2 == *recipe,
                    forall|j: int|
                        0 <= j < i ==> (#[trigger] v@[j])@ == recipe.ingredients@[j].name@,
                decreases recipe.ingredients@.len() - i,
            {
                v.push(recipe.ingredients[i].name.clone());
                i = i + 1;
            }
            let mut k: usize = 0;
            while k < recipe.products.len()
                invariant
                    k <= recipe.products@.len(),
                    v@.len() == recipe.ingredients@.len() + k,
                    m.kind matches MachineKind::Crafter { recipe: r2, .. } && r2 == *recipe,
                    forall|j: int|
                        0 <= j < v@.len() ==> (#[trigger] v@[j])@ == item_speed_name(*m, j),
                decreases recipe.products@.len() - k,
            {
                v.push(recipe.products[k].name.clone());
                k = k + 1;
            }
            v
        },
    }
}

/// All distinct item names touched by the machines, in first-touch order.
pub fn added_items_of(machines: &Vec<Machine>) -> (r: Vec<ItemName>)
    ensures
        forall|i: int, j: int|
            0 <= i < machines@.len() && 0 <= j < item_speeds_len(#[trigger] machines@[i])
                ==> names_contain(r@, #[trigger] item_speed_name(machines@[i], j)),
        forall|k: int| 0 <= k < r@.len() ==> any_touches(machines@, (#[trigger] r@[k])@),
        forall|k1: int, k2: int| 0 <= k1 < k2 < r@.len() ==> (#[trigger] r@[k1])@ != (
        #[trigger] r@[k2])@,
{
    let mut out: Vec<ItemName> = Vec::new();
    let mut i: usize = 0;
    while i < machines.len()
        invariant
            i <= machines@.len(),
            forall|ii: int, j: int|
                0 <= ii < i && 0 <= j < item_speeds_len(#[trigger] machines@[ii])
                    ==> names_contain(out@, #[trigger] item_speed_name(machines@[ii], j)),
            forall|k: int| 0 <= k < out@.len() ==> any_touches(machines@, (#[trigger] out@[k])@),
            forall|k1: int, k2: int| 0 <= k1 < k2 < out@.len() ==> (#[trigger] out@[k1])@ != (
            #[trigger] out@[k2])@,
        decreases machines@.len() - i,
    {
        let names = machine_item_names(&machines[i]);
        let mut j: usize = 0;
        while j < names.len()
            invariant
                i < machines@.len(),
                j <= names@.len(),
                names@.len() == item_speeds_len(machines@[i as int]),
                forall|jj: int|
                    0 <= jj < names@.len() ==> (#[trigger] names@[jj])@ == item_speed_name(
                        machines@[i as int],
                        jj,
                    ),
                forall|ii: int, jj: int|
                    0 <= ii < i && 0 <= jj < item_speeds_len(#[trigger] machines@[ii])
                        ==> names_contain(out@, #[trigger] item_speed_name(machines@[ii], jj)),
                forall|jj: int|
                    0 <= jj < j ==> names_contain(
                        out@,
                        #[trigger] item_speed_name(machines@[i as int], jj),
                    ),
                forall|k: int|
                    0 <= k < out@.len() ==> any_touches(machines@, (#[trigger] out@[k])@),
                forall|k1: int, k2: int| 0 <= k1 < k2 < out@.len() ==> (#[trigger] out@[k1])@ != (
                #[trigger] out@[k2])@,
            decreases names@.len() - j,
        {
            let mut found = false;
            let mut k: usize = 0;
            while k < out.len()
                invariant
                    k <= out@.len(),
                    j < names@.len(),
                    found ==> names_contain(out@, names@[j as int]@),
                    !found ==> (forall|kk: int|
                        0 <= kk < k ==> (#[trigger] out@[kk])@ != names@[j as int]@),
                decreases out@.len() - k,
            {
                if out[k] == names[j] {
                    found = true;
                }
                k = k + 1;
            }
            if !found {
                proof {
                    assert(machine_touches(machines@[i as int], names@[j as int]@)) by {
                        assert(item_speed_name(machines@[i as int], j as int)
                            == names@[j as int]@);
                    }
                }
                let ghost old_out = out@;
                out.push(names[j].clone());
                proof {
                    assert(out@[out@.len() - 1]@ == names@[j as int]@);
                    assert forall|t: Seq<char>| names_contain(old_out, t) implies names_contain(
                        out@,
                        t,
                    ) by {
                        let k = choose|k: int| 0 <= k < old_out.len() && old_out[k]@ == t;
                        assert(out@[k]@ == t);
                    }
                }
            }
            proof {
                assert(names_contain(out@, names@[j as int]@));
            }
            j = j + 1;
        }
        i = i + 1;
    }
    out
}

// ---------------------------------------------------------------------------
// Row construction.
// ---------------------------------------------------------------------------

/// This machine's balance coefficient for item `t`, computed exactly.
fn balance_coeff_exec(m: &Machine, item: &ItemName) -> (r: Option<Rat>)
    ensures
        match r {
            Some(c) => q_eq(c@, machine_balance_coeff(*m, item@)),
            None => true,
        },
{
    let speeds = match m.item_speeds_at(Rat::one()) {
        None => {
            return None;
        },
        Some(v) => v,
    };
    let ghost terms = balance_terms(*m, item@);
    let mut acc = Rat::zero();
    let mut j: usize = 0;
    proof {
        assert(terms.take(0) =~= Seq::<Qv>::empty());
    }
    while j < speeds.len()
        invariant
            j <= speeds@.len(),
            machine_wf(*m),
            speeds@.len() == item_speeds_len(*m),
            terms == balance_terms(*m, item@),
            forall|jj: int|
                0 <= jj < speeds@.len() ==> (#[trigger] speeds@[jj]).item@ == item_speed_name(
                    *m,
                    jj,
                ) && q_eq(speeds@[jj].speed@, item_speed_at(*m, q_int(1), jj)),
            q_eq(acc@, q_sum(terms.take(j as int))),
        decreases speeds@.len() - j,
    {
        let ghost jj = j as int;
        let ghost prefix = terms.take(jj);
        proof {
            lemma_terms_prefix_wf(*m, item@, terms, jj);
        }
        if speeds[j].item == *item {
            let next = match acc.add(speeds[j].speed.0) {
                None => {
                    return None;
                },
                Some(v) => v,
            };
            proof {
                lemma_q_sum_wf(prefix);
                lemma_q_acc_step(next@, acc@, q_sum(prefix), speeds@[jj].speed@);
                assert(terms[jj] == item_speed_at(*m, q_int(1), jj));
                lemma_item_speed_wf_if(*m, jj);
                lemma_q_add_cong(q_sum(prefix), q_sum(prefix), speeds@[jj].speed@, terms[jj]);
                lemma_q_add_wf(q_sum(prefix), speeds@[jj].speed@);
                lemma_q_eq_trans(
                    next@,
                    q_add(q_sum(prefix), speeds@[jj].speed@),
                    q_add(q_sum(prefix), terms[jj]),
                );
                assert(terms.take(jj + 1).drop_last() =~= prefix);
                assert(terms.take(jj + 1).last() == terms[jj]);
            }
            acc = next;
        } else {
            proof {
                assert(terms[jj] == q_int(0));
                assert(terms.take(jj + 1).drop_last() =~= prefix);
                assert(terms.take(jj + 1).last() == terms[jj]);
                lemma_q_sum_wf(prefix);
                lemma_q_add_zero(q_sum(prefix));
                lemma_q_add_wf(q_sum(prefix), q_int(0));
                lemma_q_eq_trans(acc@, q_sum(prefix), q_sum(terms.take(jj + 1)));
            }
        }
        j = j + 1;
    }
    proof {
        assert(terms.take(terms.len() as int) =~= terms);
    }
    Some(acc)
}

/// This machine's gross-production coefficient for item `t`.
fn production_coeff_exec(m: &Machine, item: &ItemName) -> (r: Option<Rat>)
    ensures
        match r {
            Some(c) => q_eq(c@, machine_production_coeff(*m, item@)),
            None => true,
        },
{
    let speeds = match m.item_speeds_at(Rat::one()) {
        None => {
            return None;
        },
        Some(v) => v,
    };
    let ghost terms = production_terms(*m, item@);
    let mut acc = Rat::zero();
    let mut j: usize = 0;
    proof {
        assert(terms.take(0) =~= Seq::<Qv>::empty());
    }
    while j < speeds.len()
        invariant
            j <= speeds@.len(),
            machine_wf(*m),
            speeds@.len() == item_speeds_len(*m),
            terms == production_terms(*m, item@),
            forall|jj: int|
                0 <= jj < speeds@.len() ==> (#[trigger] speeds@[jj]).item@ == item_speed_name(
                    *m,
                    jj,
                ) && q_eq(speeds@[jj].speed@, item_speed_at(*m, q_int(1), jj)),
            q_eq(acc@, q_sum(terms.take(j as int))),
        decreases speeds@.len() - j,
    {
        let ghost jj = j as int;
        let ghost prefix = terms.take(jj);
        proof {
            lemma_terms_prefix_wf_prod(*m, item@, terms, jj);
        }
        let positive = speeds[j].speed.0.is_pos();
        proof {
            lemma_item_speed_wf_if(*m, jj);
            lemma_q_lt_cong(
                q_int(0),
                q_int(0),
                speeds@[jj].speed@,
                item_speed_at(*m, q_int(1), jj),
            );
        }
        if positive && speeds[j].item == *item {
            let next = match acc.add(speeds[j].speed.0) {
                None => {
                    return None;
                },
                Some(v) => v,
            };
            proof {
                lemma_q_sum_wf(prefix);
                lemma_q_acc_step(next@, acc@, q_sum(prefix), speeds@[jj].speed@);
                assert(terms[jj] == item_speed_at(*m, q_int(1), jj));
                lemma_q_add_cong(q_sum(prefix), q_sum(prefix), speeds@[jj].speed@, terms[jj]);
                lemma_q_add_wf(q_sum(prefix), speeds@[jj].speed@);
                lemma_q_eq_trans(
                    next@,
                    q_add(q_sum(prefix), speeds@[jj].speed@),
                    q_add(q_sum(prefix), terms[jj]),
                );
                assert(terms.take(jj + 1).drop_last() =~= prefix);
                assert(terms.take(jj + 1).last() == terms[jj]);
            }
            acc = next;
        } else {
            proof {
                assert(terms[jj] == q_int(0));
                assert(terms.take(jj + 1).drop_last() =~= prefix);
                assert(terms.take(jj + 1).last() == terms[jj]);
                lemma_q_sum_wf(prefix);
                lemma_q_add_zero(q_sum(prefix));
                lemma_q_add_wf(q_sum(prefix), q_int(0));
                lemma_q_eq_trans(acc@, q_sum(prefix), q_sum(terms.take(jj + 1)));
            }
        }
        j = j + 1;
    }
    proof {
        assert(terms.take(terms.len() as int) =~= terms);
    }
    Some(acc)
}

/// Well-formedness of a prefix of balance terms, when the machine may not be
/// well-formed: each term is either an item rate or zero.
proof fn lemma_terms_prefix_wf(m: Machine, t: Seq<char>, terms: Seq<Qv>, j: int)
    requires
        machine_wf(m),
        terms == balance_terms(m, t),
        0 <= j <= terms.len(),
    ensures
        all_wf(terms.take(j)),
{
    let p = terms.take(j);
    assert forall|k: int| 0 <= k < p.len() implies q_wf(#[trigger] p[k]) by {
        assert(p[k] == terms[k]);
        lemma_item_speed_wf(m, q_int(1), k);
    }
}

proof fn lemma_terms_prefix_wf_prod(m: Machine, t: Seq<char>, terms: Seq<Qv>, j: int)
    requires
        machine_wf(m),
        terms == production_terms(m, t),
        0 <= j <= terms.len(),
    ensures
        all_wf(terms.take(j)),
{
    let p = terms.take(j);
    assert forall|k: int| 0 <= k < p.len() implies q_wf(#[trigger] p[k]) by {
        assert(p[k] == terms[k]);
        lemma_item_speed_wf(m, q_int(1), k);
    }
}

proof fn lemma_item_speed_wf_if(m: Machine, j: int)
    requires
        machine_wf(m),
    ensures
        q_wf(item_speed_at(m, q_int(1), j)),
{
    lemma_item_speed_wf(m, q_int(1), j);
}

// ---------------------------------------------------------------------------
// The editor.
// ---------------------------------------------------------------------------

/// A pinned machine's multiplier is within tolerance of its pin.
pub open spec fn pin_ok(m: Machine) -> bool {
    match m.kind {
        MachineKind::Crafter { count_constraint: Some(c), .. } => within_tol_of(
            m.crafter_count@,
            c@,
        ),
        _ => true,
    }
}

pub open spec fn counts_all_one(ms: Seq<Machine>) -> bool {
    forall|i: int| 0 <= i < ms.len() ==> (#[trigger] ms[i]).crafter_count@ == q_int(1)
}

/// Kind-equal machines satisfy the same structural predicates and have the
/// same coefficients.
pub proof fn lemma_same_kind_preds(info: Info, m1: Machine, m2: Machine)
    requires
        m1.kind == m2.kind,
    ensures
        machine_wf(m1) == machine_wf(m2),
        machine_caps_ok(m1) == machine_caps_ok(m2),
        machine_items_known(info, m1) == machine_items_known(info, m2),
        item_speeds_len(m1) == item_speeds_len(m2),
{
    lemma_coeff_count_irrelevant(m1, m2, Seq::<char>::empty());
    assert(machine_items_known(info, m1) == machine_items_known(info, m2)) by {
        if machine_items_known(info, m1) {
            assert forall|j: int| 0 <= j < item_speeds_len(m2) implies info.item_known(
                #[trigger] item_speed_name(m2, j),
            ) by {
                assert(item_speed_name(m2, j) == item_speed_name(m1, j));
            }
        }
        if machine_items_known(info, m2) {
            assert forall|j: int| 0 <= j < item_speeds_len(m1) implies info.item_known(
                #[trigger] item_speed_name(m1, j),
            ) by {
                assert(item_speed_name(m1, j) == item_speed_name(m2, j));
            }
        }
    }
}

/// The production-chain editor: the static data, the live machine list, the
/// item speed constraints, and whether the last solve succeeded.
pub struct Editor {
    pub info: Info,
    pub machines: Vec<Machine>,
    pub item_speed_constraints: Vec<(ItemName, Speed)>,
    pub solved: bool,
}

impl Editor {
    pub open spec fn counts(&self) -> Seq<Qv> {
        self.machines@.map(|i: int, m: Machine| m.crafter_count@)
    }

    pub open spec fn constraints_wf(&self) -> bool {
        forall|i: int, j: int|
            0 <= i < j < self.item_speed_constraints@.len() ==> (
            #[trigger] self.item_speed_constraints@[i]).0@ != (
            #[trigger] self.item_speed_constraints@[j]).0@
    }

    pub open spec fn machines_wf(&self) -> bool {
        forall|i: int|
            0 <= i < self.machines@.len() ==> {
                &&& machine_wf(#[trigger] self.machines@[i])
                &&& machine_caps_ok(self.machines@[i])
                &&& machine_items_known(self.info, self.machines@[i])
            }
    }

    /// What a successful solve establishes.
    pub open spec fn solution_ok(&self) -> bool {
        self.machines@.len() == 0 || {
            &&& !all_zero(self.counts())
            &&& all_nonneg(self.counts())
            &&& forall|t: Seq<char>|
                #[trigger] any_touches(self.machines@, t) ==> within_tol(
                    total_balance_flow(self.machines@, t),
                )
            &&& forall|ci: int|
                0 <= ci < self.item_speed_constraints@.len() ==> within_tol_of(
                    total_production_flow(
                        self.machines@,
                        (#[trigger] self.item_speed_constraints@[ci]).0@,
                    ),
                    self.item_speed_constraints@[ci].1@,
                )
            &&& forall|i: int| 0 <= i < self.machines@.len() ==> pin_ok(#[trigger] self.machines@[i])
        }
    }

    pub open spec fn wf(&self) -> bool {
        &&& self.info.wf()
        &&& self.machines_wf()
        &&& self.constraints_wf()
        &&& (self.solved ==> self.solution_ok())
    }

    /// The right-hand side of every assembled constraint would be zero:
    /// every item speed constraint asks for rate zero and every pin pins to
    /// zero. In particular this holds when there are no constraints at all.
    pub open spec fn rhs_all_zero(&self) -> bool {
        &&& forall|ci: int|
            0 <= ci < self.item_speed_constraints@.len() ==> q_eq(
                (#[trigger] self.item_speed_constraints@[ci]).1@,
                q_int(0),
            )
        &&& forall|i: int|
            0 <= i < self.machines@.len() ==> match (#[trigger] self.machines@[i]).kind {
                MachineKind::Crafter { count_constraint: Some(c), .. } => q_eq(c@, q_int(0)),
                _ => true,
            }
    }

    pub fn new(info: Info) -> (r: Editor)
        requires
            info.wf(),
        ensures
            r.wf(),
            r.info == info,
            r.machines@.len() == 0,
            r.item_speed_constraints@.len() == 0,
            r.solved,
    {
        Editor { info, machines: Vec::new(), item_speed_constraints: Vec::new(), solved: true }
    }

    pub fn solved(&self) -> (r: bool)
        ensures
            r == self.solved,
    {
        self.solved
    }

    pub fn machines(&self) -> (r: &Vec<Machine>)
        ensures
            r == &self.machines,
    {
        &self.machines
    }

    pub fn info(&self) -> (r: &Info)
        ensures
            r == &self.info,
    {
        &self.info
    }

    pub fn item_speed_constraints(&self) -> (r: &Vec<(ItemName, Speed)>)
        ensures
            r == &self.item_speed_constraints,
    {
        &self.item_speed_constraints
    }
}

/// A row that pins one column: one at `idx`, zero elsewhere.
pub open spec fn is_pin_row(row: Vec<Rat>, idx: int, n: int) -> bool {
    &&& row@.len() == n
    &&& forall|col: int|
        0 <= col < n ==> q_eq(
            (#[trigger] row@[col])@,
            if col == idx {
                q_int(1)
            } else {
                q_int(0)
            },
        )
}

/// Reset every multiplier to one, keeping everything else.
fn reset_counts(machines: &mut Vec<Machine>)
    ensures
        final(machines)@.len() == old(machines)@.len(),
        forall|k: int|
            0 <= k < old(machines)@.len() ==> (#[trigger] final(machines)@[k]).kind == old(
                machines,
            )@[k].kind,
        counts_all_one(final(machines)@),
{
    let one = Rat::one();
    let mut i: usize = 0;
    while i < machines.len()
        invariant
            i <= machines@.len(),
            one@ == q_int(1),
            machines@.len() == old(machines)@.len(),
            forall|k: int|
                0 <= k < machines@.len() ==> (#[trigger] machines@[k]).kind == old(
                    machines,
                )@[k].kind,
            forall|k: int| 0 <= k < i ==> (#[trigger] machines@[k]).crafter_count@ == q_int(1),
        decreases machines@.len() - i,
    {
        set_count(machines, i, one);
        i = i + 1;
    }
}

/// Write the solver's output back into the machines.
fn write_counts(machines: &mut Vec<Machine>, x: &Vec<Rat>)
    requires
        x@.len() == old(machines)@.len(),
    ensures
        final(machines)@.len() == old(machines)@.len(),
        forall|k: int|
            0 <= k < old(machines)@.len() ==> (#[trigger] final(machines)@[k]).kind == old(
                machines,
            )@[k].kind,
        forall|k: int|
            0 <= k < old(machines)@.len() ==> (#[trigger] final(machines)@[k]).crafter_count@
                == x@[k]@,
{
    let mut i: usize = 0;
    while i < machines.len()
        invariant
            i <= machines@.len(),
            machines@.len() == old(machines)@.len(),
            x@.len() == machines@.len(),
            forall|k: int|
                0 <= k < machines@.len() ==> (#[trigger] machines@[k]).kind == old(
                    machines,
                )@[k].kind,
            forall|k: int| 0 <= k < i ==> (#[trigger] machines@[k]).crafter_count@ == x@[k]@,
        decreases machines@.len() - i,
    {
        set_count(machines, i, x[i]);
        i = i + 1;
    }
}

fn append_rows(dst: &mut Vec<Vec<Rat>>, src: Vec<Vec<Rat>>)
    ensures
        final(dst)@ == old(dst)@ + src@,
{
    let mut s = src;
    proof {
        assert(dst@ + s@ =~= old(dst)@ + src@);
    }
    while s.len() > 0
        invariant
            dst@ + s@ == old(dst)@ + src@,
        decreases s@.len(),
    {
        let row = s.remove(0);
        dst.push(row);
        proof {
            assert(dst@ + s@ =~= old(dst)@ + src@);
        }
    }
    proof {
        assert(dst@ =~= dst@ + s@);
    }
}

fn append_rats(dst: &mut Vec<Rat>, src: Vec<Rat>)
    ensures
        final(dst)@ == old(dst)@ + src@,
{
    let mut s = src;
    proof {
        assert(dst@ + s@ =~= old(dst)@ + src@);
    }
    while s.len() > 0
        invariant
            dst@ + s@ == old(dst)@ + src@,
        decreases s@.len(),
    {
        let v = s.remove(0);
        dst.push(v);
        proof {
            assert(dst@ + s@ =~= old(dst)@ + src@);
        }
    }
    proof {
        assert(dst@ =~= dst@ + s@);
    }
}

/// One balance row per item: each machine's net rate of the item at
/// multiplier one, with right-hand side zero.
fn balance_rows(machines: &Vec<Machine>, items: &Vec<ItemName>) -> (r: Option<
    (Vec<Vec<Rat>>, Vec<Rat>),
>)
    ensures
        match r {
            Some(ab) => {
                &&& ab.0@.len() == items@.len()
                &&& ab.1@.len() == items@.len()
                &&& forall|k: int|
                    0 <= k < items@.len() ==> (#[trigger] ab.0@[k])@.len() == machines@.len()
                &&& forall|k: int, col: int|
                    #![trigger ab.0@[k]@[col]]
                    0 <= k < items@.len() && 0 <= col < machines@.len() ==> q_eq(
                        (ab.0@[k]@[col])@,
                        machine_balance_coeff(machines@[col], items@[k]@),
                    )
                &&& forall|k: int| 0 <= k < items@.len() ==> q_eq((#[trigger] ab.1@[k])@, q_int(0))
            },
            None => true,
        },
{
    let mut a: Vec<Vec<Rat>> = Vec::new();
    let mut b: Vec<Rat> = Vec::new();
    let mut k: usize = 0;
    while k < items.len()
        invariant
            k <= items@.len(),
            a@.len() == k,
            b@.len() == k,
            forall|kk: int| 0 <= kk < k ==> (#[trigger] a@[kk])@.len() == machines@.len(),
            forall|kk: int, col: int|
                #![trigger a@[kk]@[col]]
                0 <= kk < k && 0 <= col < machines@.len() ==> q_eq(
                    (a@[kk]@[col])@,
                    machine_balance_coeff(machines@[col], items@[kk]@),
                ),
            forall|kk: int| 0 <= kk < k ==> q_eq((#[trigger] b@[kk])@, q_int(0)),
        decreases items@.len() - k,
    {
        let mut row: Vec<Rat> = Vec::new();
        let mut col: usize = 0;
        while col < machines.len()
            invariant
                col <= machines@.len(),
                k < items@.len(),
                row@.len() == col,
                forall|cc: int|
                    0 <= cc < col ==> q_eq(
                        (#[trigger] row@[cc])@,
                        machine_balance_coeff(machines@[cc], items@[k as int]@),
                    ),
            decreases machines@.len() - col,
        {
            let cf = match balance_coeff_exec(&machines[col], &items[k]) {
                None => {
                    return None;
                },
                Some(v) => v,
            };
            row.push(cf);
            col = col + 1;
        }
        a.push(row);
        b.push(Rat::zero());
        k = k + 1;
    }
    Some((a, b))
}

/// One production-rate row per item speed constraint: each machine's gross
/// production of the item at multiplier one, with the requested rate on the
/// right-hand side.
fn production_rows(machines: &Vec<Machine>, constraints: &Vec<(ItemName, Speed)>) -> (r: Option<
    (Vec<Vec<Rat>>, Vec<Rat>),
>)
    ensures
        match r {
            Some(ab) => {
                &&& ab.0@.len() == constraints@.len()
                &&& ab.1@.len() == constraints@.len()
                &&& forall|k: int|
                    0 <= k < constraints@.len() ==> (#[trigger] ab.0@[k])@.len()
                        == machines@.len()
                &&& forall|k: int, col: int|
                    #![trigger ab.0@[k]@[col]]
                    0 <= k < constraints@.len() && 0 <= col < machines@.len() ==> q_eq(
                        (ab.0@[k]@[col])@,
                        machine_production_coeff(machines@[col], constraints@[k].0@),
                    )
                &&& forall|k: int|
                    0 <= k < constraints@.len() ==> (#[trigger] ab.1@[k])@ == constraints@[k].1@
            },
            None => true,
        },
{
    let mut a: Vec<Vec<Rat>> = Vec::new();
    let mut b: Vec<Rat> = Vec::new();
    let mut k: usize = 0;
    while k < constraints.len()
        invariant
            k <= constraints@.len(),
            a@.len() == k,
            b@.len() == k,
            forall|kk: int| 0 <= kk < k ==> (#[trigger] a@[kk])@.len() == machines@.len(),
            forall|kk: int, col: int|
                #![trigger a@[kk]@[col]]
                0 <= kk < k && 0 <= col < machines@.len() ==> q_eq(
                    (a@[kk]@[col])@,
                    machine_production_coeff(machines@[col], constraints@[kk].0@),
                ),
            forall|kk: int| 0 <= kk < k ==> (#[trigger] b@[kk])@ == constraints@[kk].1@,
        decreases constraints@.len() - k,
    {
        let mut row: Vec<Rat> = Vec::new();
        let mut col: usize = 0;
        while col < machines.len()
            invariant
                col <= machines@.len(),
                k < constraints@.len(),
                row@.len() == col,
                forall|cc: int|
                    0 <= cc < col ==> q_eq(
                        (#[trigger] row@[cc])@,
                        machine_production_coeff(machines@[cc], constraints@[k as int].0@),
                    ),
            decreases machines@.len() - col,
        {
            let cf = match production_coeff_exec(&machines[col], &constraints[k].0) {
                None => {
                    return None;
                },
                Some(v) => v,
            };
            row.push(cf);
            col = col + 1;
        }
        a.push(row);
        b.push(constraints[k].1.0);
        k = k + 1;
    }
    Some((a, b))
}

/// The machine's pinned multiplier, if any.
fn machine_pin(m: &Machine) -> (r: Option<Rat>)
    ensures
        match m.kind {
            MachineKind::Crafter { count_constraint: Some(c), .. } => (r matches Some(p) && p@
                == c@),
            _ => r is None,
        },
{
    match &m.kind {
        MachineKind::Crafter { count_constraint: Some(c), .. } => Some(c.0),
        _ => None,
    }
}

/// One pin row per machine with a fixed multiplier. The ghost result
/// records which machine each row pins.
fn pin_rows(machines: &Vec<Machine>) -> (r: (Vec<Vec<Rat>>, Vec<Rat>, Ghost<Seq<int>>))
    ensures
        r.0@.len() == r.1@.len(),
        r.2@.len() == r.0@.len(),
        forall|rr: int|
            0 <= rr < r.2@.len() ==> 0 <= #[trigger] r.2@[rr] < machines@.len() && is_pin_row(
                r.0@[rr],
                r.2@[rr],
                machines@.len() as int,
            ) && (machines@[r.2@[rr]].kind matches MachineKind::Crafter {
                count_constraint: Some(c),
                ..
            } && r.1@[rr]@ == c@),
        forall|idx: int|
            0 <= idx < machines@.len() ==> match (#[trigger] machines@[idx]).kind {
                MachineKind::Crafter { count_constraint: Some(c), .. } => exists|rr: int|
                    0 <= rr < r.2@.len() && #[trigger] r.2@[rr] == idx,
                _ => true,
            },
{
    let n = machines.len();
    let mut a: Vec<Vec<Rat>> = Vec::new();
    let mut b: Vec<Rat> = Vec::new();
    let ghost mut idxs: Seq<int> = Seq::empty();
    let mut mi: usize = 0;
    while mi < n
        invariant
            mi <= n,
            n == machines@.len(),
            a@.len() == b@.len(),
            idxs.len() == a@.len(),
            forall|rr: int|
                0 <= rr < idxs.len() ==> 0 <= #[trigger] idxs[rr] < machines@.len() && is_pin_row(
                    a@[rr],
                    idxs[rr],
                    n as int,
                ) && (machines@[idxs[rr]].kind matches MachineKind::Crafter {
                    count_constraint: Some(c),
                    ..
                } && b@[rr]@ == c@),
            forall|idx: int|
                0 <= idx < mi ==> match (#[trigger] machines@[idx]).kind {
                    MachineKind::Crafter { count_constraint: Some(c), .. } => exists|rr: int|
                        0 <= rr < idxs.len() && #[trigger] idxs[rr] == idx,
                    _ => true,
                },
        decreases n - mi,
    {
        let pin: Option<Rat> = machine_pin(&machines[mi]);
        match pin {
            Some(c) => {
                let mut row: Vec<Rat> = Vec::new();
                let mut col: usize = 0;
                while col < n
                    invariant
                        col <= n,
                        mi < n,
                        row@.len() == col,
                        forall|cc: int|
                            0 <= cc < col ==> q_eq(
                                (#[trigger] row@[cc])@,
                                if cc == mi {
                                    q_int(1)
                                } else {
                                    q_int(0)
                                },
                            ),
                    decreases n - col,
                {
                    if col == mi {
                        row.push(Rat::one());
                    } else {
                        row.push(Rat::zero());
                    }
                    col = col + 1;
                }
                a.push(row);
                b.push(c);
                proof {
                    let old_idxs = idxs;
                    idxs = idxs.push(mi as int);
                    assert(is_pin_row(a@[a@.len() - 1], mi as int, n as int));
                    assert forall|idx: int|
                        0 <= idx < mi + 1 implies match (#[trigger] machines@[idx]).kind {
                        MachineKind::Crafter { count_constraint: Some(cc2), .. } => exists|rr: int|
                            0 <= rr < idxs.len() && #[trigger] idxs[rr] == idx,
                        _ => true,
                    } by {
                        match machines@[idx].kind {
                            MachineKind::Crafter { count_constraint: Some(cc2), .. } => {
                                if idx == mi as int {
                                    assert(idxs[idxs.len() - 1] == idx);
                                } else {
                                    let rr0 = choose|rr: int|
                                        0 <= rr < old_idxs.len() && #[trigger] old_idxs[rr] == idx;
                                    assert(idxs[rr0] == idx);
                                }
                            },
                            _ => {},
                        }
                    }
                }
            },
            None => {
            },
        }
        mi = mi + 1;
    }
    (a, b, Ghost(idxs))
}

impl Editor {
    /// Whether every constraint's right-hand side is zero.
    fn rhs_zero_check(&self) -> (r: bool)
        ensures
            r == self.rhs_all_zero(),
    {
        let mut i: usize = 0;
        while i < self.item_speed_constraints.len()
            invariant
                i <= self.item_speed_constraints@.len(),
                forall|k: int|
                    0 <= k < i ==> q_eq(
                        (#[trigger] self.item_speed_constraints@[k]).1@,
                        q_int(0),
                    ),
            decreases self.item_speed_constraints@.len() - i,
        {
            if !self.item_speed_constraints[i].1.0.is_zero() {
                return false;
            }
            i = i + 1;
        }
        let mut j: usize = 0;
        while j < self.machines.len()
            invariant
                j <= self.machines@.len(),
                forall|k: int|
                    0 <= k < self.item_speed_constraints@.len() ==> q_eq(
                        (#[trigger] self.item_speed_constraints@[k]).1@,
                        q_int(0),
                    ),
                forall|k: int|
                    0 <= k < j ==> match (#[trigger] self.machines@[k]).kind {
                        MachineKind::Crafter { count_constraint: Some(c), .. } => q_eq(
                            c@,
                            q_int(0),
                        ),
                        _ => true,
                    },
            decreases self.machines@.len() - j,
        {
            let zero_pin = match &self.machines[j].kind {
                MachineKind::Crafter { count_constraint: Some(c), .. } => c.0.is_zero(),
                _ => true,
            };
            if !zero_pin {
                return false;
            }
            j = j + 1;
        }
        true
    }

    /// Re-solve from the full machine list.
    ///
    /// Repeated calls with no intervening mutation keep the multipliers: a
    /// state already marked solved is returned unchanged, and on failure
    /// every multiplier is deterministically reset to one. A system whose
    /// right-hand side is all zero is reported degenerate.
    #[verifier::rlimit(80)]
    pub fn solve(&mut self) -> (r: Result<(), Error>)
        requires
            old(self).wf(),
        ensures
            final(self).wf(),
            final(self).info == old(self).info,
            final(self).item_speed_constraints == old(self).item_speed_constraints,
            final(self).machines@.len() == old(self).machines@.len(),
            forall|i: int|
                0 <= i < old(self).machines@.len() ==> (#[trigger] final(self).machines@[i]).kind
                    == old(self).machines@[i].kind,
            (r is Ok) == final(self).solved,
            old(self).machines@.len() == 0 ==> r is Ok && final(self).machines@ == old(self).machines@,
            old(self).solved ==> r is Ok && *final(self) == *old(self),
            !old(self).solved && old(self).machines@.len() > 0 && old(self).rhs_all_zero() ==> r
                == Err::<(), Error>(Error::SolveDegenerate),
            r is Ok ==> final(self).solution_ok(),
            r is Err ==> counts_all_one(final(self).machines@),
            r is Err ==> (r == Err::<(), Error>(Error::SolveDegenerate) || r == Err::<(), Error>(
                Error::SolveInfeasible,
            ) || r == Err::<(), Error>(Error::SolveNegative) || r == Err::<(), Error>(
                Error::NumericalFailure,
            )),
    {
        if self.machines.len() == 0 {
            self.solved = true;
            return Ok(());
        }
        if self.solved {
            return Ok(());
        }
        // With an all-zero right-hand side the least-norm solution is the
        // zero vector: degenerate, before any arithmetic is attempted.
        if self.rhs_zero_check() {
            reset_counts(&mut self.machines);
            proof {
                self.lemma_err_state(*old(self), self.machines@);
            }
            return Err(Error::SolveDegenerate);
        }
        reset_counts(&mut self.machines);
        let ghost ms = self.machines@;
        let ncols = self.machines.len();
        if ncols >= 1000000000 {
            proof {
                self.lemma_err_state(*old(self), ms);
            }
            return Err(Error::NumericalFailure);
        }
        let items = added_items_of(&self.machines);
        let bal = match balance_rows(&self.machines, &items) {
            None => {
                proof {
                    self.lemma_err_state(*old(self), ms);
                }
                return Err(Error::NumericalFailure);
            },
            Some(v) => v,
        };
        let prod = match production_rows(&self.machines, &self.item_speed_constraints) {
            None => {
                proof {
                    self.lemma_err_state(*old(self), ms);
                }
                return Err(Error::NumericalFailure);
            },
            Some(v) => v,
        };
        let pins = pin_rows(&self.machines);
        let (mut a, mut b) = bal;
        let (pa, pb) = prod;
        let (qa, qb, pin_idxs) = pins;
        let ghost nb = items@.len() as int;
        let ghost np = self.item_speed_constraints@.len() as int;
        let ghost pin_a = qa@;
        let ghost pin_b = qb@;
        append_rows(&mut a, pa);
        append_rats(&mut b, pb);
        append_rows(&mut a, qa);
        append_rats(&mut b, qb);
        proof {
            assert(a@.len() == b@.len());
            assert forall|r: int| 0 <= r < a@.len() implies (#[trigger] a@[r])@.len()
                == ncols by {
                if r >= nb + np {
                    let rr = r - (nb + np);
                    assert(a@[r] == pin_a[rr]);
                    assert(is_pin_row(pin_a[rr], pin_idxs@[rr], ms.len() as int));
                }
            }
        }
        let (solve_res, _witness) = solve_system(&a, &b, ncols);
        let x = match solve_res {
            Err(e) => {
                proof {
                    self.lemma_err_state(*old(self), ms);
                }
                return Err(e);
            },
            Ok(v) => v,
        };
        write_counts(&mut self.machines, &x);
        self.solved = true;
        proof {
            self.lemma_solution_transport(*old(self), ms, items@, a, b, x, nb, np, pin_idxs@);
        }
        Ok(())
    }

    /// A failed solve leaves a well-formed, unsolved state with all
    /// multipliers reset to one.
    proof fn lemma_err_state(&self, orig: Editor, ms: Seq<Machine>)
        requires
            orig.wf(),
            !orig.solved,
            self.info == orig.info,
            self.item_speed_constraints == orig.item_speed_constraints,
            self.solved == orig.solved,
            self.machines@ == ms,
            ms.len() == orig.machines@.len(),
            forall|k: int| 0 <= k < ms.len() ==> (#[trigger] ms[k]).kind == orig.machines@[k].kind,
            counts_all_one(ms),
        ensures
            self.wf(),
            counts_all_one(self.machines@),
    {
        assert forall|k: int| 0 <= k < ms.len() implies machine_wf(#[trigger] self.machines@[k])
            && machine_caps_ok(self.machines@[k]) && machine_items_known(
            self.info,
            self.machines@[k],
        ) by {
            lemma_same_kind_preds(self.info, orig.machines@[k], ms[k]);
        }
    }

    /// Transport the solver's residual guarantee on the assembled matrix to
    /// the editor-level flow statements.
    proof fn lemma_solution_transport(
        &self,
        orig: Editor,
        ms: Seq<Machine>,
        items: Seq<ItemName>,
        a: Vec<Vec<Rat>>,
        b: Vec<Rat>,
        x: Vec<Rat>,
        nb: int,
        np: int,
        pin_idxs: Seq<int>,
    )
        requires
            orig.wf(),
            self.info == orig.info,
            self.item_speed_constraints == orig.item_speed_constraints,
            self.solved,
            ms.len() == orig.machines@.len(),
            forall|k: int| 0 <= k < ms.len() ==> (#[trigger] ms[k]).kind == orig.machines@[k].kind,
            self.machines@.len() == ms.len(),
            forall|j: int|
                0 <= j < ms.len() ==> (#[trigger] self.machines@[j]).kind == ms[j].kind,
            forall|j: int|
                0 <= j < ms.len() ==> (#[trigger] self.machines@[j]).crafter_count@ == x@[j]@,
            x@.len() == ms.len(),
            a@.len() == b@.len(),
            nb == items.len(),
            np == self.item_speed_constraints@.len(),
            nb + np <= a@.len(),
            forall|r: int| 0 <= r < a@.len() ==> (#[trigger] a@[r])@.len() == ms.len(),
            forall|k: int, col: int|
                #![trigger a@[k]@[col]]
                0 <= k < nb && 0 <= col < ms.len() ==> q_eq(
                    (a@[k]@[col])@,
                    machine_balance_coeff(ms[col], items[k]@),
                ),
            forall|k: int| 0 <= k < nb ==> q_eq((#[trigger] b@[k])@, q_int(0)),
            forall|k: int, col: int|
                #![trigger a@[nb + k]@[col]]
                0 <= k < np && 0 <= col < ms.len() ==> q_eq(
                    (a@[nb + k]@[col])@,
                    machine_production_coeff(ms[col], self.item_speed_constraints@[k].0@),
                ),
            forall|k: int|
                0 <= k < np ==> (#[trigger] b@[nb + k])@ == self.item_speed_constraints@[k].1@,
            nb + np + pin_idxs.len() == a@.len(),
            forall|rr: int|
                0 <= rr < pin_idxs.len() ==> 0 <= #[trigger] pin_idxs[rr] < ms.len() && is_pin_row(
                    a@[nb + np + rr],
                    pin_idxs[rr],
                    ms.len() as int,
                ) && (ms[pin_idxs[rr]].kind matches MachineKind::Crafter {
                    count_constraint: Some(c),
                    ..
                } && b@[nb + np + rr]@ == c@),
            forall|idx: int|
                0 <= idx < ms.len() ==> match (#[trigger] ms[idx]).kind {
                    MachineKind::Crafter { count_constraint: Some(cc), .. } => exists|rr: int|
                        0 <= rr < pin_idxs.len() && #[trigger] pin_idxs[rr] == idx,
                    _ => true,
                },
            forall|i: int, j: int|
                0 <= i < ms.len() && 0 <= j < item_speeds_len(#[trigger] ms[i]) ==> names_contain(
                    items,
                    #[trigger] item_speed_name(ms[i], j),
                ),
            !all_zero(vec_qv(x@)),
            residual_ok(mat_qv(a@), vec_qv(b@), vec_qv(x@)),
            all_nonneg(vec_qv(x@)),
        ensures
            self.wf(),
            self.solution_ok(),
    {
        let msf = self.machines@;
        // Structural predicates carry over by kind.
        assert forall|k: int| 0 <= k < msf.len() implies machine_wf(#[trigger] msf[k])
            && machine_caps_ok(msf[k]) && machine_items_known(self.info, msf[k]) by {
            lemma_same_kind_preds(self.info, orig.machines@[k], ms[k]);
            lemma_same_kind_preds(self.info, ms[k], msf[k]);
        }
        let av = mat_qv(a@);
        let bv = vec_qv(b@);
        let xv = vec_qv(x@);
        // The multipliers written back are exactly the solver's output.
        assert(self.counts() =~= xv) by {
            assert forall|j: int| 0 <= j < msf.len() implies self.counts()[j] == xv[j] by {
                assert(self.counts()[j] == msf[j].crafter_count@);
                assert(xv[j] == x@[j]@);
            }
        }
        // Well-formedness of the assembled system.
        assert forall|r: int| 0 <= r < av.len() implies (#[trigger] av[r]).len() == xv.len()
            && all_wf(av[r]) by {
            assert(av[r] == vec_qv(a@[r]@));
            crate::solver::lemma_rat_seq_wf(a@[r]@);
        }
        crate::solver::lemma_rat_seq_wf(b@);
        crate::solver::lemma_rat_seq_wf(x@);
        // Balance: every touched item's net flow is within tolerance.
        assert forall|t: Seq<char>| #[trigger] any_touches(msf, t) implies within_tol(
            total_balance_flow(msf, t),
        ) by {
            let i0 = choose|i: int| 0 <= i < msf.len() && machine_touches(msf[i], t);
            let j0 = choose|j: int|
                0 <= j < item_speeds_len(msf[i0]) && item_speed_name(msf[i0], j) == t;
            lemma_coeff_count_irrelevant(msf[i0], ms[i0], t);
            assert(item_speed_name(ms[i0], j0) == t);
            assert(names_contain(items, t));
            let kk = choose|kk: int| 0 <= kk < items.len() && items[kk]@ == t;
            crate::linalg::lemma_residual_row_small(av, bv, xv, kk);
            let row_v = vec_qv(a@[kk]@);
            assert(av[kk] == row_v);
            let target = balance_flow_terms(msf, t);
            assert forall|col: int| 0 <= col < row_v.len() implies q_eq(
                q_mul(row_v[col], xv[col]),
                #[trigger] target[col],
            ) && q_wf(target[col]) by {
                assert(row_v[col] == a@[kk]@[col]@);
                assert(q_eq(a@[kk]@[col]@, machine_balance_coeff(ms[col], t)));
                lemma_coeff_count_irrelevant(ms[col], msf[col], t);
                lemma_balance_coeff_wf(msf[col], t);
                assert(xv[col] == msf[col].crafter_count@);
                lemma_q_mul_cong(
                    row_v[col],
                    machine_balance_coeff(msf[col], t),
                    xv[col],
                    msf[col].crafter_count@,
                );
                lemma_q_mul_wf(machine_balance_coeff(msf[col], t), msf[col].crafter_count@);
                assert(target[col] == q_mul(
                    machine_balance_coeff(msf[col], t),
                    msf[col].crafter_count@,
                ));
            }
            lemma_q_dot_eq_sum_pointwise(row_v, xv, target);
            let d = q_dot(row_v, xv);
            crate::linalg::lemma_q_dot_wf(row_v, xv);
            lemma_q_sum_wf(target);
            assert(q_eq(bv[kk], q_int(0))) by {
                assert(bv[kk] == b@[kk]@);
            }
            crate::rational::lemma_q_sub_zero(d, bv[kk]);
            assert(q_wf(q_neg(bv[kk])));
            lemma_q_add_wf(d, q_neg(bv[kk]));
            lemma_q_eq_trans(q_sub(d, bv[kk]), d, q_sum(target));
            lemma_within_tol_cong(q_sub(d, bv[kk]), q_sum(target));
        }
        // Production: every constrained item's gross production is within
        // tolerance of the requested rate.
        assert forall|ci: int| 0 <= ci < self.item_speed_constraints@.len() implies within_tol_of(
            total_production_flow(msf, (#[trigger] self.item_speed_constraints@[ci]).0@),
            self.item_speed_constraints@[ci].1@,
        ) by {
            let t = self.item_speed_constraints@[ci].0@;
            let speed = self.item_speed_constraints@[ci].1@;
            let rr = nb + ci;
            crate::linalg::lemma_residual_row_small(av, bv, xv, rr);
            let row_v = vec_qv(a@[rr]@);
            assert(av[rr] == row_v);
            let target = production_flow_terms(msf, t);
            assert forall|col: int| 0 <= col < row_v.len() implies q_eq(
                q_mul(row_v[col], xv[col]),
                #[trigger] target[col],
            ) && q_wf(target[col]) by {
                assert(row_v[col] == a@[rr]@[col]@);
                assert(q_eq(a@[rr]@[col]@, machine_production_coeff(ms[col], t)));
                lemma_coeff_count_irrelevant(ms[col], msf[col], t);
                lemma_balance_coeff_wf(msf[col], t);
                assert(xv[col] == msf[col].crafter_count@);
                lemma_q_mul_cong(
                    row_v[col],
                    machine_production_coeff(msf[col], t),
                    xv[col],
                    msf[col].crafter_count@,
                );
                lemma_q_mul_wf(machine_production_coeff(msf[col], t), msf[col].crafter_count@);
                assert(target[col] == q_mul(
                    machine_production_coeff(msf[col], t),
                    msf[col].crafter_count@,
                ));
            }
            lemma_q_dot_eq_sum_pointwise(row_v, xv, target);
            let d = q_dot(row_v, xv);
            crate::linalg::lemma_q_dot_wf(row_v, xv);
            lemma_q_sum_wf(target);
            assert(bv[rr] == speed) by {
                assert(bv[rr] == b@[rr]@);
            }
            assert(q_wf(q_neg(speed)));
            lemma_q_neg_cong(speed, speed);
            lemma_q_add_cong(d, q_sum(target), q_neg(speed), q_neg(speed));
            lemma_q_add_wf(d, q_neg(speed));
            lemma_q_add_wf(q_sum(target), q_neg(speed));
            lemma_within_tol_cong(q_sub(d, speed), q_sub(q_sum(target), speed));
        }
        // Pins: every pinned machine sits within tolerance of its pin.
        assert forall|idx: int| 0 <= idx < msf.len() implies pin_ok(#[trigger] msf[idx]) by {
            match msf[idx].kind {
                MachineKind::Crafter { count_constraint: Some(cc), .. } => {
                    assert(ms[idx].kind == msf[idx].kind);
                    let rr0 = choose|rr: int|
                        0 <= rr < pin_idxs.len() && #[trigger] pin_idxs[rr] == idx;
                    let rr = nb + np + rr0;
                    assert(is_pin_row(a@[rr], idx, ms.len() as int) && b@[rr]@ == cc@);
                    crate::linalg::lemma_residual_row_small(av, bv, xv, rr);
                    let row_v = vec_qv(a@[rr]@);
                    assert(av[rr] == row_v);
                    assert forall|col: int| 0 <= col < row_v.len() implies q_eq(
                        #[trigger] row_v[col],
                        if col == idx {
                            q_int(1)
                        } else {
                            q_int(0)
                        },
                    ) by {
                        assert(row_v[col] == a@[rr]@[col]@);
                    }
                    lemma_q_dot_pin(row_v, xv, idx);
                    let d = q_dot(row_v, xv);
                    crate::linalg::lemma_q_dot_wf(row_v, xv);
                    assert(bv[rr] == cc@) by {
                        assert(bv[rr] == b@[rr]@);
                    }
                    assert(xv[idx] == msf[idx].crafter_count@);
                    assert(q_wf(q_neg(cc@)));
                    lemma_q_neg_cong(cc@, cc@);
                    lemma_q_add_cong(d, msf[idx].crafter_count@, q_neg(cc@), q_neg(cc@));
                    lemma_q_add_wf(d, q_neg(cc@));
                    lemma_q_add_wf(msf[idx].crafter_count@, q_neg(cc@));
                    lemma_within_tol_cong(
                        q_sub(d, cc@),
                        q_sub(msf[idx].crafter_count@, cc@),
                    );
                },
                _ => {},
            }
        }
    }
}

/// Overwrite one machine's multiplier, leaving everything else in place.
fn set_count(machines: &mut Vec<Machine>, i: usize, c: Rat)
    requires
        i < old(machines)@.len(),
    ensures
        final(machines)@.len() == old(machines)@.len(),
        forall|k: int|
            0 <= k < old(machines)@.len() && k != i ==> final(machines)@[k] == old(machines)@[k],
        final(machines)@[i as int].kind == old(machines)@[i as int].kind,
        final(machines)@[i as int].crafter_count@ == c@,
{
    let mut tmp = Machine::new_source(ItemName(String::new()));
    machines.set_and_swap(i, &mut tmp);
    tmp.crafter_count = MachineCount(c);
    machines.set_and_swap(i, &mut tmp);
}

// ---------------------------------------------------------------------------
// Graph assembly: source/sink synchronization and display ordering.
// ---------------------------------------------------------------------------

/// The machine kind with any count pin removed.
pub open spec fn strip_pin(k: MachineKind) -> MachineKind {
    match k {
        MachineKind::Crafter { crafter, recipe, modules, beacons, .. } => MachineKind::Crafter {
            crafter,
            recipe,
            modules,
            beacons,
            count_constraint: None,
        },
        other => other,
    }
}

/// Machines that differ at most in their count pin satisfy the same
/// structural predicates.
pub proof fn lemma_strip_pin_preds(info: Info, m1: Machine, m2: Machine)
    requires
        strip_pin(m1.kind) == strip_pin(m2.kind),
    ensures
        machine_wf(m1) == machine_wf(m2),
        machine_caps_ok(m1) == machine_caps_ok(m2),
        machine_items_known(info, m1) == machine_items_known(info, m2),
        item_speeds_len(m1) == item_speeds_len(m2),
        forall|j: int| item_speed_name(m1, j) == item_speed_name(m2, j),
        forall|c: Qv, j: int| item_speed_at(m1, c, j) == #[trigger] item_speed_at(m2, c, j),
{
    match (m1.kind, m2.kind) {
        (
            MachineKind::Crafter { crafter: c1, recipe: r1, modules: mo1, beacons: b1, .. },
            MachineKind::Crafter { crafter: c2, recipe: r2, modules: mo2, beacons: b2, .. },
        ) => {
            assert(c1 == c2 && r1 == r2 && mo1 == mo2 && b1 == b2);
        },
        _ => {},
    }
    assert forall|j: int| item_speed_name(m1, j) == item_speed_name(m2, j) by {}
    assert forall|c: Qv, j: int| item_speed_at(m1, c, j) == #[trigger] item_speed_at(
        m2,
        c,
        j,
    ) by {}
    assert(machine_items_known(info, m1) == machine_items_known(info, m2)) by {
        if machine_items_known(info, m1) {
            assert forall|j: int| 0 <= j < item_speeds_len(m2) implies info.item_known(
                #[trigger] item_speed_name(m2, j),
            ) by {
                assert(item_speed_name(m2, j) == item_speed_name(m1, j));
            }
        }
        if machine_items_known(info, m2) {
            assert forall|j: int| 0 <= j < item_speeds_len(m1) implies info.item_known(
                #[trigger] item_speed_name(m1, j),
            ) by {
                assert(item_speed_name(m1, j) == item_speed_name(m2, j));
            }
        }
    }
}

/// A crafter machine consuming item `t` through its recipe.
pub open spec fn crafter_consumes(m: Machine, t: Seq<char>) -> bool {
    match m.kind {
        MachineKind::Crafter { recipe, .. } => exists|j: int|
            0 <= j < recipe.ingredients@.len() && (#[trigger] recipe.ingredients@[j]).name@ == t,
        _ => false,
    }
}

/// A crafter machine producing item `t` through its recipe.
pub open spec fn crafter_produces(m: Machine, t: Seq<char>) -> bool {
    match m.kind {
        MachineKind::Crafter { recipe, .. } => exists|j: int|
            0 <= j < recipe.products@.len() && (#[trigger] recipe.products@[j]).name@ == t,
        _ => false,
    }
}

pub open spec fn any_crafter_consumes(ms: Seq<Machine>, t: Seq<char>) -> bool {
    exists|i: int| 0 <= i < ms.len() && crafter_consumes(#[trigger] ms[i], t)
}

pub open spec fn any_crafter_produces(ms: Seq<Machine>, t: Seq<char>) -> bool {
    exists|i: int| 0 <= i < ms.len() && crafter_produces(#[trigger] ms[i], t)
}

pub open spec fn has_source_for(ms: Seq<Machine>, t: Seq<char>) -> bool {
    exists|i: int|
        0 <= i < ms.len() && ((#[trigger] ms[i]).kind matches MachineKind::Source { item }
            && item@ == t)
}

pub open spec fn has_sink_for(ms: Seq<Machine>, t: Seq<char>) -> bool {
    exists|i: int|
        0 <= i < ms.len() && ((#[trigger] ms[i]).kind matches MachineKind::Sink { item } && item@
            == t)
}

/// The source/sink pseudo-machines are exactly right for the crafters:
/// a source for each item consumed but never produced, a sink for each item
/// produced but never consumed.
pub open spec fn sources_sinks_synced(ms: Seq<Machine>) -> bool {
    &&& forall|t: Seq<char>|
        #[trigger] has_source_for(ms, t) <==> (any_crafter_consumes(ms, t)
            && !any_crafter_produces(ms, t))
    &&& forall|t: Seq<char>|
        #[trigger] has_sink_for(ms, t) <==> (any_crafter_produces(ms, t) && !any_crafter_consumes(
            ms,
            t,
        ))
}

fn crafter_consumes_exec(m: &Machine, item: &ItemName) -> (r: bool)
    ensures
        r == crafter_consumes(*m, item@),
{
    match &m.kind {
        MachineKind::Crafter { recipe, .. } => {
            let mut j: usize = 0;
            while j < recipe.ingredients.len()
                invariant
                    j <= recipe.ingredients@.len(),
                    m.kind matches MachineKind::Crafter { recipe: r2, .. } && r2 == *recipe,
                    forall|k: int|
                        0 <= k < j ==> (#[trigger] recipe.ingredients@[k]).name@ != item@,
                decreases recipe.ingredients@.len() - j,
            {
                if recipe.ingredients[j].name == *item {
                    return true;
                }
                j = j + 1;
            }
            false
        },
        _ => false,
    }
}

fn crafter_produces_exec(m: &Machine, item: &ItemName) -> (r: bool)
    ensures
        r == crafter_produces(*m, item@),
{
    match &m.kind {
        MachineKind::Crafter { recipe, .. } => {
            let mut j: usize = 0;
            while j < recipe.products.len()
                invariant
                    j <= recipe.products@.len(),
                    m.kind matches MachineKind::Crafter { recipe: r2, .. } && r2 == *recipe,
                    forall|k: int| 0 <= k < j ==> (#[trigger] recipe.products@[k]).name@ != item@,
                decreases recipe.products@.len() - j,
            {
                if recipe.products[j].name == *item {
                    return true;
                }
                j = j + 1;
            }
            false
        },
        _ => false,
    }
}

fn any_crafter_consumes_exec(ms: &Vec<Machine>, item: &ItemName) -> (r: bool)
    ensures
        r == any_crafter_consumes(ms@, item@),
{
    let mut i: usize = 0;
    while i < ms.len()
        invariant
            i <= ms@.len(),
            forall|k: int| 0 <= k < i ==> !crafter_consumes(#[trigger] ms@[k], item@),
        decreases ms@.len() - i,
    {
        if crafter_consumes_exec(&ms[i], item) {
            return true;
        }
        i = i + 1;
    }
    false
}

fn any_crafter_produces_exec(ms: &Vec<Machine>, item: &ItemName) -> (r: bool)
    ensures
        r == any_crafter_produces(ms@, item@),
{
    let mut i: usize = 0;
    while i < ms.len()
        invariant
            i <= ms@.len(),
            forall|k: int| 0 <= k < i ==> !crafter_produces(#[trigger] ms@[k], item@),
        decreases ms@.len() - i,
    {
        if crafter_produces_exec(&ms[i], item) {
            return true;
        }
        i = i + 1;
    }
    false
}

/// The crafter machines of a list, in their order.
pub open spec fn crafters_of(ms: Seq<Machine>) -> Seq<Machine>
    decreases ms.len(),
{
    if ms.len() == 0 {
        Seq::empty()
    } else if ms.last().kind is Crafter {
        crafters_of(ms.drop_last()).push(ms.last())
    } else {
        crafters_of(ms.drop_last())
    }
}

/// The machine can produce item `t`: a crafter through its recipe's
/// products, a source through its item.
pub open spec fn machine_provides(m: Machine, t: Seq<char>) -> bool {
    match m.kind {
        MachineKind::Crafter { recipe, .. } => exists|j: int|
            0 <= j < recipe.products@.len() && (#[trigger] recipe.products@[j]).name@ == t,
        MachineKind::Source { item } => item@ == t,
        MachineKind::Sink { .. } => false,
    }
}

/// Some machine before position `i` provides item `t`.
pub open spec fn provided_before(ms: Seq<Machine>, i: int, t: Seq<char>) -> bool {
    exists|jj: int| 0 <= jj < i && machine_provides(#[trigger] ms[jj], t)
}

/// Everything the machine at `i` consumes is produced earlier in the list.
pub open spec fn machine_deps_before(ms: Seq<Machine>, i: int) -> bool {
    match ms[i].kind {
        MachineKind::Crafter { recipe, .. } => forall|j: int|
            0 <= j < recipe.ingredients@.len() ==> provided_before(
                ms,
                i,
                (#[trigger] recipe.ingredients@[j]).name@,
            ),
        MachineKind::Sink { item } => provided_before(ms, i, item@),
        MachineKind::Source { .. } => true,
    }
}

/// The first `p` machines are in dependency order.
pub open spec fn topo_prefix(ms: Seq<Machine>, p: int) -> bool {
    0 <= p <= ms.len() && (forall|i: int| 0 <= i < p ==> #[trigger] machine_deps_before(ms, i))
}

/// The machine at `i` needs an item that the first `p` machines do not
/// produce: why the sort left it behind.
pub open spec fn blocked_after(ms: Seq<Machine>, p: int, i: int) -> bool {
    match ms[i].kind {
        MachineKind::Crafter { recipe, .. } => exists|j: int|
            0 <= j < recipe.ingredients@.len() && !provided_before(
                ms,
                p,
                (#[trigger] recipe.ingredients@[j]).name@,
            ),
        MachineKind::Sink { item } => !provided_before(ms, p, item@),
        MachineKind::Source { .. } => false,
    }
}

/// All the machine's inputs occur in the crafted-item list.
pub open spec fn machine_inputs_ok(m: Machine, names: Seq<ItemName>) -> bool {
    match m.kind {
        MachineKind::Crafter { recipe, .. } => forall|j: int|
            0 <= j < recipe.ingredients@.len() ==> names_contain(
                names,
                (#[trigger] recipe.ingredients@[j]).name@,
            ),
        MachineKind::Sink { item } => names_contain(names, item@),
        MachineKind::Source { .. } => true,
    }
}

/// A dependency-ordered prefix survives extending the list.
proof fn lemma_topo_prefix_extend(ms1: Seq<Machine>, ms2: Seq<Machine>, p: int)
    requires
        ms1.len() <= ms2.len(),
        forall|i: int| 0 <= i < ms1.len() ==> #[trigger] ms2[i] == ms1[i],
        0 <= p <= ms1.len(),
        forall|i: int| 0 <= i < p ==> #[trigger] machine_deps_before(ms1, i),
    ensures
        topo_prefix(ms2, p),
{
    assert forall|i: int| 0 <= i < p implies #[trigger] machine_deps_before(ms2, i) by {
        assert(machine_deps_before(ms1, i));
        assert(ms2[i] == ms1[i]);
        match ms1[i].kind {
            MachineKind::Crafter { recipe, .. } => {
                assert forall|j: int| 0 <= j < recipe.ingredients@.len() implies provided_before(
                    ms2,
                    i,
                    (#[trigger] recipe.ingredients@[j]).name@,
                ) by {
                    let jj = choose|jj: int|
                        0 <= jj < i && machine_provides(
                            #[trigger] ms1[jj],
                            recipe.ingredients@[j].name@,
                        );
                    assert(machine_provides(ms2[jj], recipe.ingredients@[j].name@));
                }
            },
            MachineKind::Sink { item } => {
                let jj = choose|jj: int| 0 <= jj < i && machine_provides(#[trigger] ms1[jj], item@);
                assert(machine_provides(ms2[jj], item@));
            },
            MachineKind::Source { .. } => {},
        }
    }
}

/// The item a pseudo-machine stands for, if the machine is one.
pub open spec fn pseudo_item(k: MachineKind) -> Option<Seq<char>> {
    match k {
        MachineKind::Source { item } => Some(item@),
        MachineKind::Sink { item } => Some(item@),
        MachineKind::Crafter { .. } => None,
    }
}

/// Unfolding of the crafter subsequence over one appended machine.
proof fn lemma_crafters_of_push(s: Seq<Machine>, x: Machine)
    ensures
        crafters_of(s.push(x)) == (if x.kind is Crafter {
            crafters_of(s).push(x)
        } else {
            crafters_of(s)
        }),
{
    assert(s.push(x).drop_last() =~= s);
    assert(s.push(x).last() == x);
}

/// Drop every source and sink, keeping the crafters in their order: the
/// result is exactly the crafter subsequence of the input.
fn retain_crafters(machines: &mut Vec<Machine>)
    ensures
        final(machines)@ == crafters_of(old(machines)@),
        final(machines)@.len() <= old(machines)@.len(),
        forall|i: int|
            0 <= i < final(machines)@.len() ==> (#[trigger] final(machines)@[i]).kind is Crafter
                && (exists|j: int|
                0 <= j < old(machines)@.len() && old(machines)@[j] == final(machines)@[i]),
        forall|j: int|
            0 <= j < old(machines)@.len() && (#[trigger] old(machines)@[j]).kind is Crafter
                ==> exists|i: int|
                0 <= i < final(machines)@.len() && final(machines)@[i] == old(machines)@[j],
{
    let mut tmp: Vec<Machine> = Vec::new();
    core::mem::swap(machines, &mut tmp);
    let ghost orig_ms = tmp@;
    proof {
        assert(tmp@ =~= orig_ms.subrange(orig_ms.len() - tmp@.len(), orig_ms.len() as int));
        assert(orig_ms.subrange(0, 0) =~= Seq::<Machine>::empty());
        assert(machines@ =~= crafters_of(orig_ms.subrange(0, 0)));
    }
    while tmp.len() > 0
        invariant
            orig_ms == old(machines)@,
            machines@.len() + tmp@.len() <= orig_ms.len(),
            tmp@ == orig_ms.subrange(orig_ms.len() - tmp@.len(), orig_ms.len() as int),
            machines@ == crafters_of(orig_ms.subrange(0, orig_ms.len() - tmp@.len())),
            forall|i: int|
                0 <= i < machines@.len() ==> (#[trigger] machines@[i]).kind is Crafter && (exists|
                    j: int,
                |
                    0 <= j < orig_ms.len() && orig_ms[j] == machines@[i]),
            forall|j: int|
                0 <= j < orig_ms.len() - tmp@.len() && (#[trigger] orig_ms[j]).kind is Crafter
                    ==> exists|i: int| 0 <= i < machines@.len() && machines@[i] == orig_ms[j],
        decreases tmp@.len(),
    {
        let ghost old_tmp = tmp@;
        let ghost old_kept = machines@;
        let ghost off = orig_ms.len() - old_tmp.len();
        let m = tmp.remove(0);
        let keep = !m.is_source_or_sink();
        if keep {
            machines.push(m);
        }
        proof {
            assert(m == old_tmp[0]);
            assert(old_tmp[0] == orig_ms[off]);
            assert(tmp@ =~= orig_ms.subrange(orig_ms.len() - tmp@.len(), orig_ms.len() as int));
            // The kept prefix is exactly the crafter subsequence of the
            // processed prefix.
            assert(orig_ms.subrange(0, off + 1) =~= orig_ms.subrange(0, off).push(orig_ms[off]));
            lemma_crafters_of_push(orig_ms.subrange(0, off), orig_ms[off]);
            assert(machines@ =~= crafters_of(orig_ms.subrange(0, off + 1)));
            assert forall|j: int|
                0 <= j < orig_ms.len() - tmp@.len() && (#[trigger] orig_ms[j]).kind
                    is Crafter implies exists|i: int|
                0 <= i < machines@.len() && machines@[i] == orig_ms[j] by {
                if j < off {
                    let i0 = choose|i: int| 0 <= i < old_kept.len() && old_kept[i] == orig_ms[j];
                    assert(machines@[i0] == orig_ms[j]);
                } else {
                    assert(j == off);
                    assert(orig_ms[j] == m);
                    assert(machines@[machines@.len() - 1] == orig_ms[j]);
                }
            }
        }
    }
    proof {
        assert(orig_ms.subrange(0, orig_ms.len() as int) =~= orig_ms);
    }
}

/// Append a source for each item the crafters consume but never produce,
/// and a sink for each item they produce but never consume.
fn append_pseudos(machines: &mut Vec<Machine>, items: &Vec<ItemName>, info: &Info)
    requires
        forall|i: int|
            0 <= i < old(machines)@.len() ==> (#[trigger] old(machines)@[i]).kind is Crafter,
        forall|i: int|
            0 <= i < old(machines)@.len() ==> machine_wf(#[trigger] old(machines)@[i])
                && machine_caps_ok(old(machines)@[i]) && machine_items_known(
                *info,
                old(machines)@[i],
            ),
        forall|i: int, j: int|
            0 <= i < old(machines)@.len() && 0 <= j < item_speeds_len(#[trigger] old(machines)@[i])
                ==> names_contain(items@, #[trigger] item_speed_name(old(machines)@[i], j)),
        forall|k: int| 0 <= k < items@.len() ==> any_touches(old(machines)@, (#[trigger] items@[k])@),
        forall|k1: int, k2: int| 0 <= k1 < k2 < items@.len() ==> (#[trigger] items@[k1])@ != (
        #[trigger] items@[k2])@,
    ensures
        final(machines)@.len() >= old(machines)@.len(),
        final(machines)@.subrange(0, old(machines)@.len() as int) == old(machines)@,
        // At most one pseudo-machine per item.
        forall|i1: int, i2: int|
            old(machines)@.len() <= i1 < i2 < final(machines)@.len() ==> (match (
                pseudo_item((#[trigger] final(machines)@[i1]).kind),
                pseudo_item((#[trigger] final(machines)@[i2]).kind),
            ) {
                (Some(a), Some(b)) => a != b,
                _ => true,
            }),
        forall|i: int|
            0 <= i < final(machines)@.len() ==> machine_wf(#[trigger] final(machines)@[i])
                && machine_caps_ok(final(machines)@[i]) && machine_items_known(
                *info,
                final(machines)@[i],
            ),
        forall|i: int|
            old(machines)@.len() <= i < final(machines)@.len()
                ==> !((#[trigger] final(machines)@[i]).kind is Crafter),
        sources_sinks_synced(final(machines)@),
{
    let ghost crafters = machines@;
    let ncr = machines.len();
    let ghost mut pidx: Seq<int> = Seq::empty();
    let mut k: usize = 0;
    while k < items.len()
        invariant
            k <= items@.len(),
            crafters == old(machines)@,
            ncr == crafters.len(),
            ncr <= machines@.len(),
            machines@.subrange(0, ncr as int) == crafters,
            forall|i: int| 0 <= i < crafters.len() ==> (#[trigger] crafters[i]).kind is Crafter,
            forall|i: int|
                ncr <= i < machines@.len() ==> !((#[trigger] machines@[i]).kind is Crafter),
            forall|i: int|
                0 <= i < machines@.len() ==> machine_wf(#[trigger] machines@[i])
                    && machine_caps_ok(machines@[i]) && machine_items_known(*info, machines@[i]),
            forall|i: int|
                ncr <= i < machines@.len() ==> ((#[trigger] machines@[i]).kind matches
                    MachineKind::Source { item } ==> (any_crafter_consumes(crafters, item@)
                    && !any_crafter_produces(crafters, item@))),
            forall|i: int|
                ncr <= i < machines@.len() ==> ((#[trigger] machines@[i]).kind matches
                    MachineKind::Sink { item } ==> (any_crafter_produces(crafters, item@)
                    && !any_crafter_consumes(crafters, item@))),
            forall|kk: int|
                0 <= kk < k ==> (any_crafter_consumes(crafters, (#[trigger] items@[kk])@)
                    && !any_crafter_produces(crafters, items@[kk]@) ==> has_source_for(
                    machines@,
                    items@[kk]@,
                )),
            forall|kk: int|
                0 <= kk < k ==> (any_crafter_produces(crafters, (#[trigger] items@[kk])@)
                    && !any_crafter_consumes(crafters, items@[kk]@) ==> has_sink_for(
                    machines@,
                    items@[kk]@,
                )),
            forall|i: int, j: int|
                0 <= i < crafters.len() && 0 <= j < item_speeds_len(#[trigger] crafters[i])
                    ==> names_contain(items@, #[trigger] item_speed_name(crafters[i], j)),
            forall|kk: int|
                0 <= kk < items@.len() ==> any_touches(crafters, (#[trigger] items@[kk])@),
            forall|k1: int, k2: int| 0 <= k1 < k2 < items@.len() ==> (#[trigger] items@[k1])@ != (
            #[trigger] items@[k2])@,
            pidx.len() + ncr == machines@.len(),
            forall|a: int|
                0 <= a < pidx.len() ==> 0 <= #[trigger] pidx[a] < k && pseudo_item(
                    machines@[ncr + a].kind,
                ) == Some(items@[pidx[a]]@),
            forall|a: int, b2: int|
                #![trigger pidx[a], pidx[b2]]
                0 <= a < b2 < pidx.len() ==> pidx[a] != pidx[b2],
        decreases items@.len() - k,
    {
        let ghost before = machines@;
        let cons = any_crafter_consumes_exec(machines, &items[k]);
        let prod = any_crafter_produces_exec(machines, &items[k]);
        proof {
            lemma_crafter_scan_prefix(machines@, crafters, ncr as int, items@[k as int]@);
            assert(info.item_known(items@[k as int]@)) by {
                assert(any_touches(crafters, items@[k as int]@));
                let i0 = choose|i: int|
                    0 <= i < crafters.len() && machine_touches(crafters[i], items@[k as int]@);
                let j0 = choose|j: int|
                    0 <= j < item_speeds_len(crafters[i0]) && item_speed_name(crafters[i0], j)
                        == items@[k as int]@;
                assert(machine_items_known(*info, crafters[i0]));
            }
        }
        if cons && !prod {
            machines.push(Machine::new_source(items[k].clone()));
            proof {
                let nm = machines@[machines@.len() - 1];
                assert(nm.kind matches MachineKind::Source { item } && item@ == items@[k as int]@);
                assert(machine_items_known(*info, nm)) by {
                    assert forall|j: int| 0 <= j < item_speeds_len(nm) implies info.item_known(
                        #[trigger] item_speed_name(nm, j),
                    ) by {
                        assert(item_speed_name(nm, j) == items@[k as int]@);
                    }
                }
                assert(machines@.subrange(0, ncr as int) =~= crafters);
                lemma_pseudo_push_keeps(before, machines@);
                pidx = pidx.push(k as int);
                assert(pidx.len() + ncr == machines@.len());
                assert(pseudo_item(machines@[machines@.len() - 1].kind) == Some(
                    items@[k as int]@,
                ));
                assert forall|a: int| 0 <= a < pidx.len() implies 0 <= #[trigger] pidx[a] < k + 1
                    && pseudo_item(machines@[ncr + a].kind) == Some(items@[pidx[a]]@) by {
                    if a < pidx.len() - 1 {
                        assert(machines@[ncr + a] == before[ncr + a]);
                    } else {
                        assert(ncr + a == machines@.len() - 1);
                    }
                }
            }
        } else if !cons && prod {
            machines.push(Machine::new_sink(items[k].clone()));
            proof {
                let nm = machines@[machines@.len() - 1];
                assert(nm.kind matches MachineKind::Sink { item } && item@ == items@[k as int]@);
                assert(machine_items_known(*info, nm)) by {
                    assert forall|j: int| 0 <= j < item_speeds_len(nm) implies info.item_known(
                        #[trigger] item_speed_name(nm, j),
                    ) by {
                        assert(item_speed_name(nm, j) == items@[k as int]@);
                    }
                }
                assert(machines@.subrange(0, ncr as int) =~= crafters);
                lemma_pseudo_push_keeps(before, machines@);
                pidx = pidx.push(k as int);
                assert(pidx.len() + ncr == machines@.len());
                assert(pseudo_item(machines@[machines@.len() - 1].kind) == Some(
                    items@[k as int]@,
                ));
                assert forall|a: int| 0 <= a < pidx.len() implies 0 <= #[trigger] pidx[a] < k + 1
                    && pseudo_item(machines@[ncr + a].kind) == Some(items@[pidx[a]]@) by {
                    if a < pidx.len() - 1 {
                        assert(machines@[ncr + a] == before[ncr + a]);
                    } else {
                        assert(ncr + a == machines@.len() - 1);
                    }
                }
            }
        }
        k = k + 1;
    }
    proof {
        let msf = machines@;
        // Distinct witnesses give distinct pseudo-machine items.
        assert forall|i1: int, i2: int|
            ncr <= i1 < i2 < msf.len() implies (match (
            pseudo_item((#[trigger] msf[i1]).kind),
            pseudo_item((#[trigger] msf[i2]).kind),
        ) {
            (Some(a), Some(b)) => a != b,
            _ => true,
        }) by {
            let a1 = i1 - ncr;
            let a2 = i2 - ncr;
            assert(pidx[a1] != pidx[a2]);
            assert(pseudo_item(msf[i1].kind) == Some(items@[pidx[a1]]@));
            assert(pseudo_item(msf[i2].kind) == Some(items@[pidx[a2]]@));
            if pidx[a1] < pidx[a2] {
                assert(items@[pidx[a1]]@ != items@[pidx[a2]]@);
            } else {
                assert(items@[pidx[a2]]@ != items@[pidx[a1]]@);
            }
        }
        assert forall|t: Seq<char>| #[trigger] has_source_for(msf, t) implies (any_crafter_consumes(
            msf,
            t,
        ) && !any_crafter_produces(msf, t)) by {
            let i = choose|i: int|
                0 <= i < msf.len() && ((#[trigger] msf[i]).kind matches MachineKind::Source { item }
                    && item@ == t);
            if i < ncr {
                assert(msf.subrange(0, ncr as int)[i] == msf[i]);
                assert(false);
            }
            lemma_crafter_scan_prefix(msf, crafters, ncr as int, t);
        }
        assert forall|t: Seq<char>| #[trigger] has_sink_for(msf, t) implies (any_crafter_produces(
            msf,
            t,
        ) && !any_crafter_consumes(msf, t)) by {
            let i = choose|i: int|
                0 <= i < msf.len() && ((#[trigger] msf[i]).kind matches MachineKind::Sink { item }
                    && item@ == t);
            if i < ncr {
                assert(msf.subrange(0, ncr as int)[i] == msf[i]);
                assert(false);
            }
            lemma_crafter_scan_prefix(msf, crafters, ncr as int, t);
        }
        assert forall|t: Seq<char>|
            any_crafter_consumes(msf, t) && !any_crafter_produces(
                msf,
                t,
            ) implies #[trigger] has_source_for(msf, t) by {
            lemma_crafter_scan_prefix(msf, crafters, ncr as int, t);
            let i = choose|i: int| 0 <= i < crafters.len() && crafter_consumes(crafters[i], t);
            let j = choose|j: int|
                0 <= j < crafters[i].kind->Crafter_recipe.ingredients@.len() && (
                #[trigger] crafters[i].kind->Crafter_recipe.ingredients@[j]).name@ == t;
            assert(msf[i] == crafters[i]);
            assert(item_speed_name(crafters[i], j) == t);
            assert(0 <= j < item_speeds_len(crafters[i]));
            assert(names_contain(items@, t));
            let kk = choose|kk: int| 0 <= kk < items@.len() && (#[trigger] items@[kk])@ == t;
        }
        assert forall|t: Seq<char>|
            any_crafter_produces(msf, t) && !any_crafter_consumes(
                msf,
                t,
            ) implies #[trigger] has_sink_for(msf, t) by {
            lemma_crafter_scan_prefix(msf, crafters, ncr as int, t);
            let i = choose|i: int| 0 <= i < crafters.len() && crafter_produces(crafters[i], t);
            let j = choose|j: int|
                0 <= j < crafters[i].kind->Crafter_recipe.products@.len() && (
                #[trigger] crafters[i].kind->Crafter_recipe.products@[j]).name@ == t;
            assert(msf[i] == crafters[i]);
            assert(item_speed_name(
                crafters[i],
                crafters[i].kind->Crafter_recipe.ingredients@.len() + j,
            ) == t);
            assert(0 <= crafters[i].kind->Crafter_recipe.ingredients@.len() + j < item_speeds_len(
                crafters[i],
            ));
            assert(names_contain(items@, t));
        }
    }
}

impl Editor {
    /// Remove all source and sink pseudo-machines, then recreate exactly
    /// those the crafters' item usage calls for.
    fn add_sources_and_sinks(&mut self)
        requires
            old(self).wf(),
        ensures
            final(self).wf(),
            !final(self).solved,
            final(self).info == old(self).info,
            final(self).item_speed_constraints == old(self).item_speed_constraints,
            sources_sinks_synced(final(self).machines@),
            // The crafters stand first, exactly in their old order and
            // multiplicity; everything after them is a pseudo-machine, at
            // most one per item.
            final(self).machines@.subrange(0, crafters_of(old(self).machines@).len() as int)
                == crafters_of(old(self).machines@),
            forall|i: int|
                crafters_of(old(self).machines@).len() <= i < final(self).machines@.len()
                    ==> !((#[trigger] final(self).machines@[i]).kind is Crafter),
            forall|i1: int, i2: int|
                0 <= i1 < i2 < final(self).machines@.len() ==> (match (
                    pseudo_item((#[trigger] final(self).machines@[i1]).kind),
                    pseudo_item((#[trigger] final(self).machines@[i2]).kind),
                ) {
                    (Some(a), Some(b)) => a != b,
                    _ => true,
                }),
            forall|i: int|
                0 <= i < final(self).machines@.len() && (#[trigger] final(self).machines@[i]).kind is Crafter
                    ==> exists|j: int|
                    0 <= j < old(self).machines@.len() && old(self).machines@[j] == final(self).machines@[i],
            forall|j: int|
                0 <= j < old(self).machines@.len() && (#[trigger] old(self).machines@[j]).kind is Crafter
                    ==> exists|i: int|
                    0 <= i < final(self).machines@.len() && final(self).machines@[i] == old(self).machines@[j],
    {
        self.solved = false;
        retain_crafters(&mut self.machines);
        let ghost crafters = self.machines@;
        proof {
            assert forall|i: int| 0 <= i < crafters.len() implies machine_wf(
                #[trigger] crafters[i],
            ) && machine_caps_ok(crafters[i]) && machine_items_known(self.info, crafters[i]) by {
                let j = choose|j: int|
                    0 <= j < old(self).machines@.len() && old(self).machines@[j] == crafters[i];
                assert(machine_wf(old(self).machines@[j]));
            }
        }
        let items = added_items_of(&self.machines);
        let info = &self.info;
        append_pseudos(&mut self.machines, &items, info);
        proof {
            let msf = self.machines@;
            assert forall|i1: int, i2: int| 0 <= i1 < i2 < msf.len() implies (match (
                pseudo_item((#[trigger] msf[i1]).kind),
                pseudo_item((#[trigger] msf[i2]).kind),
            ) {
                (Some(a), Some(b)) => a != b,
                _ => true,
            }) by {
                if i1 < crafters.len() {
                    assert(msf.subrange(0, crafters.len() as int)[i1] == msf[i1]);
                    assert(msf[i1].kind is Crafter);
                }
            }
            assert forall|i: int|
                0 <= i < msf.len() && (#[trigger] msf[i]).kind is Crafter implies exists|j: int|
                0 <= j < old(self).machines@.len() && old(self).machines@[j] == msf[i] by {
                if i >= crafters.len() {
                    assert(!(msf[i].kind is Crafter));
                }
                assert(i < crafters.len());
                assert(msf.subrange(0, crafters.len() as int)[i] == msf[i]);
                assert(crafters[i] == msf[i]);
            }
            assert forall|j: int|
                0 <= j < old(self).machines@.len() && (#[trigger] old(self).machines@[j]).kind is Crafter
                implies exists|i: int|
                0 <= i < msf.len() && msf[i] == old(self).machines@[j] by {
                let i0 = choose|i: int|
                    0 <= i < crafters.len() && crafters[i] == old(self).machines@[j];
                assert(msf.subrange(0, crafters.len() as int)[i0] == crafters[i0]);
                assert(msf[i0] == old(self).machines@[j]);
            }
        }
    }
}


/// A scan for crafters over a list whose tail is all pseudo-machines sees
/// exactly the crafter prefix.
proof fn lemma_crafter_scan_prefix(ms: Seq<Machine>, crafters: Seq<Machine>, ncr: int, t: Seq<char>)
    requires
        0 <= ncr <= ms.len(),
        ms.subrange(0, ncr) == crafters,
        forall|i: int| ncr <= i < ms.len() ==> !((#[trigger] ms[i]).kind is Crafter),
    ensures
        any_crafter_consumes(ms, t) == any_crafter_consumes(crafters, t),
        any_crafter_produces(ms, t) == any_crafter_produces(crafters, t),
{
    if any_crafter_consumes(ms, t) {
        let i = choose|i: int| 0 <= i < ms.len() && crafter_consumes(#[trigger] ms[i], t);
        assert(i < ncr);
        assert(crafters[i] == ms[i]);
    }
    if any_crafter_consumes(crafters, t) {
        let i = choose|i: int|
            0 <= i < crafters.len() && crafter_consumes(#[trigger] crafters[i], t);
        assert(ms[i] == crafters[i]);
    }
    if any_crafter_produces(ms, t) {
        let i = choose|i: int| 0 <= i < ms.len() && crafter_produces(#[trigger] ms[i], t);
        assert(i < ncr);
        assert(crafters[i] == ms[i]);
    }
    if any_crafter_produces(crafters, t) {
        let i = choose|i: int|
            0 <= i < crafters.len() && crafter_produces(#[trigger] crafters[i], t);
        assert(ms[i] == crafters[i]);
    }
}


/// Pushing a machine keeps every existing source and sink.
proof fn lemma_pseudo_push_keeps(before: Seq<Machine>, after: Seq<Machine>)
    requires
        after.len() == before.len() + 1,
        forall|i: int| 0 <= i < before.len() ==> after[i] == #[trigger] before[i],
    ensures
        forall|t: Seq<char>| has_source_for(before, t) ==> has_source_for(after, t),
        forall|t: Seq<char>| has_sink_for(before, t) ==> has_sink_for(after, t),
{
    assert forall|t: Seq<char>| has_source_for(before, t) implies has_source_for(after, t) by {
        let i = choose|i: int|
            0 <= i < before.len() && ((#[trigger] before[i]).kind matches MachineKind::Source {
                item,
            } && item@ == t);
        assert(after[i] == before[i]);
    }
    assert forall|t: Seq<char>| has_sink_for(before, t) implies has_sink_for(after, t) by {
        let i = choose|i: int|
            0 <= i < before.len() && ((#[trigger] before[i]).kind matches MachineKind::Sink {
                item,
            } && item@ == t);
        assert(after[i] == before[i]);
    }
}


/// Append all machines of `src` to `dst`.
fn append_machines(dst: &mut Vec<Machine>, src: Vec<Machine>)
    ensures
        final(dst)@ == old(dst)@ + src@,
{
    let mut s = src;
    proof {
        assert(dst@ + s@ =~= old(dst)@ + src@);
    }
    while s.len() > 0
        invariant
            dst@ + s@ == old(dst)@ + src@,
        decreases s@.len(),
    {
        let m = s.remove(0);
        dst.push(m);
        proof {
            assert(dst@ + s@ =~= old(dst)@ + src@);
        }
    }
    proof {
        assert(dst@ =~= dst@ + s@);
    }
}

fn names_contain_exec(names: &Vec<ItemName>, item: &ItemName) -> (r: bool)
    ensures
        r == names_contain(names@, item@),
{
    let mut i: usize = 0;
    while i < names.len()
        invariant
            i <= names@.len(),
            forall|k: int| 0 <= k < i ==> (#[trigger] names@[k])@ != item@,
        decreases names@.len() - i,
    {
        if names[i] == *item {
            return true;
        }
        i = i + 1;
    }
    false
}

/// All of the machine's recipe ingredients appear in `crafted`.
fn all_ingredients_crafted(m: &Machine, crafted: &Vec<ItemName>) -> (r: bool)
    ensures
        r == machine_inputs_ok(*m, crafted@),
{
    match &m.kind {
        MachineKind::Crafter { recipe, .. } => {
            let mut j: usize = 0;
            while j < recipe.ingredients.len()
                invariant
                    j <= recipe.ingredients@.len(),
                    m.kind matches MachineKind::Crafter { recipe: r2, .. } && r2 == *recipe,
                    forall|k: int|
                        0 <= k < j ==> names_contain(
                            crafted@,
                            (#[trigger] recipe.ingredients@[k]).name@,
                        ),
                decreases recipe.ingredients@.len() - j,
            {
                if !names_contain_exec(crafted, &recipe.ingredients[j].name) {
                    return false;
                }
                j = j + 1;
            }
            true
        },
        MachineKind::Source { .. } => true,
        MachineKind::Sink { .. } => {
            let item_ok = match &m.kind {
                MachineKind::Sink { item } => names_contain_exec(crafted, item),
                _ => false,
            };
            item_ok
        },
    }
}

/// Record the machine's products as crafted.
fn record_products(m: &Machine, crafted: &mut Vec<ItemName>)
    ensures
        final(crafted)@.len() >= old(crafted)@.len(),
        forall|k: int| 0 <= k < old(crafted)@.len() ==> final(crafted)@[k] == old(crafted)@[k],
        forall|k: int|
            old(crafted)@.len() <= k < final(crafted)@.len() ==> machine_provides(
                *m,
                (#[trigger] final(crafted)@[k])@,
            ),
        forall|t: Seq<char>| machine_provides(*m, t) ==> names_contain(final(crafted)@, t),
        forall|t: Seq<char>| names_contain(old(crafted)@, t) ==> names_contain(final(crafted)@, t),
{
    match &m.kind {
        MachineKind::Crafter { recipe, .. } => {
            let mut j: usize = 0;
            while j < recipe.products.len()
                invariant
                    j <= recipe.products@.len(),
                    m.kind matches MachineKind::Crafter { recipe: r2, .. } && r2 == *recipe,
                    crafted@.len() == old(crafted)@.len() + j,
                    forall|k: int|
                        0 <= k < old(crafted)@.len() ==> crafted@[k] == old(crafted)@[k],
                    forall|k: int|
                        old(crafted)@.len() <= k < crafted@.len() ==> machine_provides(
                            *m,
                            (#[trigger] crafted@[k])@,
                        ),
                    forall|jj: int|
                        0 <= jj < j ==> names_contain(
                            crafted@,
                            (#[trigger] recipe.products@[jj]).name@,
                        ),
                decreases recipe.products@.len() - j,
            {
                let ghost pre = crafted@;
                crafted.push(recipe.products[j].name.clone());
                proof {
                    assert(crafted@[crafted@.len() - 1]@ == recipe.products@[j as int].name@);
                    assert forall|jj: int| 0 <= jj <= j implies names_contain(
                        crafted@,
                        (#[trigger] recipe.products@[jj]).name@,
                    ) by {
                        if jj < j {
                            let kk = choose|kk: int|
                                0 <= kk < pre.len() && (#[trigger] pre[kk])@
                                    == recipe.products@[jj].name@;
                            assert(crafted@[kk]@ == recipe.products@[jj].name@);
                        }
                    }
                }
                j = j + 1;
            }
            proof {
                assert forall|t: Seq<char>| machine_provides(*m, t) implies names_contain(
                    crafted@,
                    t,
                ) by {
                    let jp = choose|jp: int|
                        0 <= jp < recipe.products@.len() && (#[trigger] recipe.products@[jp]).name@
                            == t;
                }
                assert forall|t: Seq<char>| names_contain(old(crafted)@, t) implies names_contain(
                    crafted@,
                    t,
                ) by {
                    let kk = choose|kk: int|
                        0 <= kk < old(crafted)@.len() && (#[trigger] old(crafted)@[kk])@ == t;
                    assert(crafted@[kk]@ == t);
                }
            }
        },
        MachineKind::Source { item } => {
            crafted.push(item.clone());
            proof {
                assert(crafted@[crafted@.len() - 1]@ == item@);
                assert forall|t: Seq<char>| names_contain(old(crafted)@, t) implies names_contain(
                    crafted@,
                    t,
                ) by {
                    let kk = choose|kk: int|
                        0 <= kk < old(crafted)@.len() && (#[trigger] old(crafted)@[kk])@ == t;
                    assert(crafted@[kk]@ == t);
                }
            }
        },
        MachineKind::Sink { .. } => {
        },
    }
}

impl Editor {
    /// Best-effort topological ordering for display: repeatedly place any
    /// machine all of whose inputs are already produced by placed machines;
    /// machines stuck in a dependency cycle are appended after the ordered
    /// prefix, unsorted but never dropped. The machine list is only
    /// permuted.
    fn auto_sort_machines(&mut self)
        requires
            old(self).wf(),
            !old(self).solved,
        ensures
            final(self).wf(),
            !final(self).solved,
            final(self).info == old(self).info,
            final(self).item_speed_constraints == old(self).item_speed_constraints,
            final(self).machines@.to_multiset() == old(self).machines@.to_multiset(),
            // A dependency-ordered prefix, and every machine after it needs
            // an item the prefix does not produce: a genuine cycle.
            exists|p: int|
                #[trigger] topo_prefix(final(self).machines@, p) && (forall|i: int|
                    p <= i < final(self).machines@.len() ==> #[trigger] blocked_after(
                        final(self).machines@,
                        p,
                        i,
                    )),
    {
        broadcast use vstd::seq_lib::group_to_multiset_ensures;
        broadcast use vstd::multiset::group_multiset_axioms;

        let mut remaining: Vec<Machine> = Vec::new();
        core::mem::swap(&mut self.machines, &mut remaining);
        let ghost orig = remaining@;
        let mut crafted: Vec<ItemName> = Vec::new();
        let ghost mut prov: Seq<int> = Seq::empty();
        proof {
            assert(self.machines@.to_multiset().add(remaining@.to_multiset()) =~= orig.to_multiset());
        }
        let mut done = false;
        while !done
            invariant
                orig == old(self).machines@,
                self.machines@.to_multiset().add(remaining@.to_multiset()) == orig.to_multiset(),
                self.info == old(self).info,
                self.item_speed_constraints == old(self).item_speed_constraints,
                self.solved == old(self).solved,
                prov.len() == crafted@.len(),
                forall|k: int|
                    0 <= k < prov.len() ==> 0 <= #[trigger] prov[k] < self.machines@.len()
                        && machine_provides(self.machines@[prov[k]], crafted@[k]@),
                forall|i: int|
                    0 <= i < self.machines@.len() ==> #[trigger] machine_deps_before(
                        self.machines@,
                        i,
                    ),
                forall|jj: int, t: Seq<char>|
                    #![trigger machine_provides(self.machines@[jj], t)]
                    0 <= jj < self.machines@.len() && machine_provides(self.machines@[jj], t)
                        ==> names_contain(crafted@, t),
                done ==> (forall|jjj: int|
                    0 <= jjj < remaining@.len() ==> !machine_inputs_ok(
                        #[trigger] remaining@[jjj],
                        crafted@,
                    )),
            decreases remaining@.len() + (if done {
                0int
            } else {
                1
            }),
        {
            let before_len = remaining.len();
            let mut j: usize = 0;
            while j < remaining.len()
                invariant
                    self.machines@.to_multiset().add(remaining@.to_multiset())
                        == orig.to_multiset(),
                    remaining@.len() <= before_len,
                    self.info == old(self).info,
                    self.item_speed_constraints == old(self).item_speed_constraints,
                    self.solved == old(self).solved,
                    orig == old(self).machines@,
                    prov.len() == crafted@.len(),
                    forall|k: int|
                        0 <= k < prov.len() ==> 0 <= #[trigger] prov[k] < self.machines@.len()
                            && machine_provides(self.machines@[prov[k]], crafted@[k]@),
                    forall|i: int|
                        0 <= i < self.machines@.len() ==> #[trigger] machine_deps_before(
                            self.machines@,
                            i,
                        ),
                    forall|jj: int, t: Seq<char>|
                        #![trigger machine_provides(self.machines@[jj], t)]
                        0 <= jj < self.machines@.len() && machine_provides(self.machines@[jj], t)
                            ==> names_contain(crafted@, t),
                    remaining@.len() == before_len ==> (forall|jjj: int|
                        0 <= jjj < j ==> !machine_inputs_ok(
                            #[trigger] remaining@[jjj],
                            crafted@,
                        )),
                decreases remaining@.len() - j,
            {
                if all_ingredients_crafted(&remaining[j], &crafted) {
                    let ghost old_rem = remaining@;
                    let ghost old_kept = self.machines@;
                    let ghost old_crafted = crafted@;
                    let ghost prov_old = prov;
                    let m = remaining.remove(j);
                    record_products(&m, &mut crafted);
                    self.machines.push(m);
                    proof {
                        broadcast use vstd::multiset::group_multiset_axioms;

                        assert(old_rem.contains(old_rem[j as int]));
                        vstd::seq_lib::to_multiset_contains::<Machine>(
                            old_rem,
                            old_rem[j as int],
                        );
                        vstd::seq_lib::to_multiset_remove::<Machine>(old_rem, j as int);
                        vstd::seq_lib::to_multiset_build::<Machine>(old_kept, old_rem[j as int]);
                        assert(remaining@.to_multiset() == old_rem.to_multiset().remove(
                            old_rem[j as int],
                        ));
                        assert(self.machines@.to_multiset() =~= old_kept.to_multiset().insert(
                            old_rem[j as int],
                        ));
                        assert(self.machines@.to_multiset().add(remaining@.to_multiset())
                            =~= orig.to_multiset());
                        // Bookkeeping for the ordered prefix.
                        let p0 = old_kept.len() as int;
                        assert(self.machines@[p0] == m);
                        prov = prov.add(
                            Seq::new((crafted@.len() - old_crafted.len()) as nat, |x: int| p0),
                        );
                        assert forall|k: int| 0 <= k < prov.len() implies 0 <= #[trigger] prov[k]
                            < self.machines@.len() && machine_provides(
                            self.machines@[prov[k]],
                            crafted@[k]@,
                        ) by {
                            if k < old_crafted.len() {
                                assert(prov[k] == prov_old[k]);
                                assert(self.machines@[prov[k]] == old_kept[prov_old[k]]);
                                assert(crafted@[k] == old_crafted[k]);
                            } else {
                                assert(prov[k] == p0);
                                assert(machine_provides(m, crafted@[k]@));
                            }
                        }
                        // The moved machine's inputs were all crafted, so
                        // they come from earlier placed machines.
                        assert(machine_inputs_ok(m, old_crafted));
                        assert(machine_deps_before(self.machines@, p0)) by {
                            match m.kind {
                                MachineKind::Crafter { recipe, .. } => {
                                    assert forall|jx: int|
                                        0 <= jx
                                            < recipe.ingredients@.len() implies provided_before(
                                        self.machines@,
                                        p0,
                                        (#[trigger] recipe.ingredients@[jx]).name@,
                                    ) by {
                                        let t = recipe.ingredients@[jx].name@;
                                        assert(names_contain(old_crafted, t));
                                        let kk = choose|kk: int|
                                            0 <= kk < old_crafted.len() && (
                                            #[trigger] old_crafted[kk])@ == t;
                                        assert(0 <= prov_old[kk] < p0);
                                        assert(machine_provides(
                                            self.machines@[prov_old[kk]],
                                            t,
                                        ));
                                    }
                                },
                                MachineKind::Sink { item } => {
                                    let t = item@;
                                    assert(names_contain(old_crafted, t));
                                    let kk = choose|kk: int|
                                        0 <= kk < old_crafted.len() && (
                                        #[trigger] old_crafted[kk])@ == t;
                                    assert(0 <= prov_old[kk] < p0);
                                    assert(machine_provides(self.machines@[prov_old[kk]], t));
                                },
                                MachineKind::Source { .. } => {},
                            }
                        }
                        lemma_topo_prefix_extend(old_kept, self.machines@, p0);
                        assert forall|i: int|
                            0 <= i < self.machines@.len() implies #[trigger] machine_deps_before(
                            self.machines@,
                            i,
                        ) by {
                            if i < p0 {
                                assert(topo_prefix(self.machines@, p0));
                            }
                        }
                        // Crafted stays complete for every placed machine.
                        assert forall|jj: int, t: Seq<char>|
                            #![trigger machine_provides(self.machines@[jj], t)]
                            0 <= jj < self.machines@.len() && machine_provides(
                                self.machines@[jj],
                                t,
                            ) implies names_contain(crafted@, t) by {
                            if jj < p0 {
                                assert(self.machines@[jj] == old_kept[jj]);
                                assert(names_contain(old_crafted, t));
                            }
                        }
                    }
                } else {
                    j = j + 1;
                }
            }
            if remaining.len() == before_len {
                done = true;
            }
        }
        // A cycle: append whatever is left, unsorted.
        let ghost kept = self.machines@;
        let ghost rem = remaining@;
        let ghost crafted_final = crafted@;
        append_machines(&mut self.machines, remaining);
        proof {
            vstd::seq_lib::lemma_multiset_commutative(kept, rem);
            assert(self.machines@.to_multiset() =~= orig.to_multiset());
            lemma_multiset_preds(self.info, orig, self.machines@);
            // The placed machines form the ordered prefix.
            let p = kept.len() as int;
            lemma_topo_prefix_extend(kept, self.machines@, p);
            assert forall|i: int|
                p <= i < self.machines@.len() implies #[trigger] blocked_after(
                self.machines@,
                p,
                i,
            ) by {
                assert(self.machines@[i] == rem[i - p]);
                assert(!machine_inputs_ok(rem[i - p], crafted_final));
                match self.machines@[i].kind {
                    MachineKind::Crafter { recipe, .. } => {
                        let jx = choose|jx: int|
                            0 <= jx < recipe.ingredients@.len() && !names_contain(
                                crafted_final,
                                (#[trigger] recipe.ingredients@[jx]).name@,
                            );
                        let t = recipe.ingredients@[jx].name@;
                        assert(!provided_before(self.machines@, p, t)) by {
                            if provided_before(self.machines@, p, t) {
                                let jj = choose|jj: int|
                                    0 <= jj < p && machine_provides(
                                        #[trigger] self.machines@[jj],
                                        t,
                                    );
                                assert(self.machines@[jj] == kept[jj]);
                                assert(names_contain(crafted_final, t));
                            }
                        }
                    },
                    MachineKind::Sink { item } => {
                        let t = item@;
                        assert(!names_contain(crafted_final, t));
                        assert(!provided_before(self.machines@, p, t)) by {
                            if provided_before(self.machines@, p, t) {
                                let jj = choose|jj: int|
                                    0 <= jj < p && machine_provides(
                                        #[trigger] self.machines@[jj],
                                        t,
                                    );
                                assert(self.machines@[jj] == kept[jj]);
                                assert(names_contain(crafted_final, t));
                            }
                        }
                    },
                    MachineKind::Source { .. } => {
                        assert(machine_inputs_ok(rem[i - p], crafted_final));
                    },
                }
            }
            assert(topo_prefix(self.machines@, p));
        }
    }

    /// Re-derive sources and sinks, re-order for display, and re-solve.
    fn after_machines_changed(&mut self)
        requires
            old(self).wf(),
        ensures
            final(self).wf(),
            final(self).info == old(self).info,
            final(self).item_speed_constraints == old(self).item_speed_constraints,
            sources_sinks_synced(final(self).machines@),
            (final(self).solved) ==> final(self).solution_ok(),
            forall|j: int|
                0 <= j < old(self).machines@.len() && (#[trigger] old(self).machines@[j]).kind is Crafter
                    ==> exists|i: int|
                    0 <= i < final(self).machines@.len() && (#[trigger] final(self).machines@[i]).kind
                        == old(self).machines@[j].kind,
    {
        self.add_sources_and_sinks();
        let ghost synced_ms = self.machines@;
        self.auto_sort_machines();
        proof {
            lemma_multiset_sync(synced_ms, self.machines@);
        }
        let ghost sorted_ms = self.machines@;
        let _ = self.solve();
        proof {
            lemma_kinds_sync(sorted_ms, self.machines@);
            broadcast use vstd::seq_lib::group_to_multiset_ensures;

            assert forall|j: int|
                0 <= j < old(self).machines@.len() && (#[trigger] old(self).machines@[j]).kind is Crafter
                implies exists|i: int|
                0 <= i < self.machines@.len() && (#[trigger] self.machines@[i]).kind == old(self).machines@[j].kind by {
                let i1 = choose|i: int|
                    0 <= i < synced_ms.len() && synced_ms[i] == old(self).machines@[j];
                assert(synced_ms.contains(synced_ms[i1]));
                assert(synced_ms.to_multiset().count(synced_ms[i1]) > 0);
                assert(sorted_ms.to_multiset().count(synced_ms[i1]) > 0);
                assert(sorted_ms.contains(synced_ms[i1]));
                let i2 = choose|i: int| 0 <= i < sorted_ms.len() && sorted_ms[i] == synced_ms[i1];
                assert(self.machines@[i2].kind == sorted_ms[i2].kind);
            }
        }
    }
}

/// Elements of a permuted machine list keep the structural predicates.
proof fn lemma_multiset_preds(info: Info, ms1: Seq<Machine>, ms2: Seq<Machine>)
    requires
        ms1.to_multiset() == ms2.to_multiset(),
        forall|i: int|
            0 <= i < ms1.len() ==> machine_wf(#[trigger] ms1[i]) && machine_caps_ok(ms1[i])
                && machine_items_known(info, ms1[i]),
    ensures
        forall|i: int|
            0 <= i < ms2.len() ==> machine_wf(#[trigger] ms2[i]) && machine_caps_ok(ms2[i])
                && machine_items_known(info, ms2[i]),
{
    broadcast use vstd::seq_lib::group_to_multiset_ensures;
    broadcast use vstd::multiset::group_multiset_axioms;

    assert forall|i: int| 0 <= i < ms2.len() implies machine_wf(#[trigger] ms2[i])
        && machine_caps_ok(ms2[i]) && machine_items_known(info, ms2[i]) by {
        assert(ms2.contains(ms2[i]));
        assert(ms2.to_multiset().count(ms2[i]) > 0);
        assert(ms1.to_multiset().count(ms2[i]) > 0);
        assert(ms1.contains(ms2[i]));
        let j = choose|j: int| 0 <= j < ms1.len() && ms1[j] == ms2[i];
        assert(machine_wf(ms1[j]));
    }
}

/// A permutation keeps the source/sink synchronization property.
proof fn lemma_multiset_sync(ms1: Seq<Machine>, ms2: Seq<Machine>)
    requires
        ms1.to_multiset() == ms2.to_multiset(),
        sources_sinks_synced(ms1),
    ensures
        sources_sinks_synced(ms2),
{
    broadcast use vstd::seq_lib::group_to_multiset_ensures;

    assert forall|t: Seq<char>| #[trigger] has_source_for(ms2, t) <==> (any_crafter_consumes(
        ms2,
        t,
    ) && !any_crafter_produces(ms2, t)) by {
        lemma_multiset_exists_transfer(ms1, ms2, t);
    }
    assert forall|t: Seq<char>| #[trigger] has_sink_for(ms2, t) <==> (any_crafter_produces(ms2, t)
        && !any_crafter_consumes(ms2, t)) by {
        lemma_multiset_exists_transfer(ms1, ms2, t);
    }
}

proof fn lemma_multiset_exists_transfer(ms1: Seq<Machine>, ms2: Seq<Machine>, t: Seq<char>)
    requires
        ms1.to_multiset() == ms2.to_multiset(),
    ensures
        has_source_for(ms1, t) == has_source_for(ms2, t),
        has_sink_for(ms1, t) == has_sink_for(ms2, t),
        any_crafter_consumes(ms1, t) == any_crafter_consumes(ms2, t),
        any_crafter_produces(ms1, t) == any_crafter_produces(ms2, t),
{
    broadcast use vstd::seq_lib::group_to_multiset_ensures;
    broadcast use vstd::multiset::group_multiset_axioms;

    if has_source_for(ms1, t) {
        let i = choose|i: int|
            0 <= i < ms1.len() && ((#[trigger] ms1[i]).kind matches MachineKind::Source { item }
                && item@ == t);
        assert(ms1.contains(ms1[i]));
        assert(ms1.to_multiset().count(ms1[i]) > 0);
        assert(ms2.to_multiset().count(ms1[i]) > 0);
        assert(ms2.contains(ms1[i]));
        let j = choose|j: int| 0 <= j < ms2.len() && ms2[j] == ms1[i];
    }
    if has_source_for(ms2, t) {
        let i = choose|i: int|
            0 <= i < ms2.len() && ((#[trigger] ms2[i]).kind matches MachineKind::Source { item }
                && item@ == t);
        assert(ms2.contains(ms2[i]));
        assert(ms2.to_multiset().count(ms2[i]) > 0);
        assert(ms1.to_multiset().count(ms2[i]) > 0);
        assert(ms1.contains(ms2[i]));
        let j = choose|j: int| 0 <= j < ms1.len() && ms1[j] == ms2[i];
    }
    if has_sink_for(ms1, t) {
        let i = choose|i: int|
            0 <= i < ms1.len() && ((#[trigger] ms1[i]).kind matches MachineKind::Sink { item }
                && item@ == t);
        assert(ms1.contains(ms1[i]));
        assert(ms1.to_multiset().count(ms1[i]) > 0);
        assert(ms2.to_multiset().count(ms1[i]) > 0);
        assert(ms2.contains(ms1[i]));
        let j = choose|j: int| 0 <= j < ms2.len() && ms2[j] == ms1[i];
    }
    if has_sink_for(ms2, t) {
        let i = choose|i: int|
            0 <= i < ms2.len() && ((#[trigger] ms2[i]).kind matches MachineKind::Sink { item }
                && item@ == t);
        assert(ms2.contains(ms2[i]));
        assert(ms2.to_multiset().count(ms2[i]) > 0);
        assert(ms1.to_multiset().count(ms2[i]) > 0);
        assert(ms1.contains(ms2[i]));
        let j = choose|j: int| 0 <= j < ms1.len() && ms1[j] == ms2[i];
    }
    if any_crafter_consumes(ms1, t) {
        let i = choose|i: int| 0 <= i < ms1.len() && crafter_consumes(#[trigger] ms1[i], t);
        assert(ms1.contains(ms1[i]));
        assert(ms1.to_multiset().count(ms1[i]) > 0);
        assert(ms2.to_multiset().count(ms1[i]) > 0);
        assert(ms2.contains(ms1[i]));
        let j = choose|j: int| 0 <= j < ms2.len() && ms2[j] == ms1[i];
    }
    if any_crafter_consumes(ms2, t) {
        let i = choose|i: int| 0 <= i < ms2.len() && crafter_consumes(#[trigger] ms2[i], t);
        assert(ms2.contains(ms2[i]));
        assert(ms2.to_multiset().count(ms2[i]) > 0);
        assert(ms1.to_multiset().count(ms2[i]) > 0);
        assert(ms1.contains(ms2[i]));
        let j = choose|j: int| 0 <= j < ms1.len() && ms1[j] == ms2[i];
    }
    if any_crafter_produces(ms1, t) {
        let i = choose|i: int| 0 <= i < ms1.len() && crafter_produces(#[trigger] ms1[i], t);
        assert(ms1.contains(ms1[i]));
        assert(ms1.to_multiset().count(ms1[i]) > 0);
        assert(ms2.to_multiset().count(ms1[i]) > 0);
        assert(ms2.contains(ms1[i]));
        let j = choose|j: int| 0 <= j < ms2.len() && ms2[j] == ms1[i];
    }
    if any_crafter_produces(ms2, t) {
        let i = choose|i: int| 0 <= i < ms2.len() && crafter_produces(#[trigger] ms2[i], t);
        assert(ms2.contains(ms2[i]));
        assert(ms2.to_multiset().count(ms2[i]) > 0);
        assert(ms1.to_multiset().count(ms2[i]) > 0);
        assert(ms1.contains(ms2[i]));
        let j = choose|j: int| 0 <= j < ms1.len() && ms1[j] == ms2[i];
    }
}

/// Kind-equal machine lists agree on the synchronization property.
proof fn lemma_kinds_exists_transfer(ms1: Seq<Machine>, ms2: Seq<Machine>, t: Seq<char>)
    requires
        ms1.len() == ms2.len(),
        forall|i: int| 0 <= i < ms1.len() ==> (#[trigger] ms2[i]).kind == ms1[i].kind,
    ensures
        has_source_for(ms1, t) == has_source_for(ms2, t),
        has_sink_for(ms1, t) == has_sink_for(ms2, t),
        any_crafter_consumes(ms1, t) == any_crafter_consumes(ms2, t),
        any_crafter_produces(ms1, t) == any_crafter_produces(ms2, t),
{
    if has_source_for(ms1, t) {
        let i = choose|i: int|
            0 <= i < ms1.len() && ((#[trigger] ms1[i]).kind matches MachineKind::Source { item }
                && item@ == t);
        assert(ms2[i].kind == ms1[i].kind);
    }
    if has_source_for(ms2, t) {
        let i = choose|i: int|
            0 <= i < ms2.len() && ((#[trigger] ms2[i]).kind matches MachineKind::Source { item }
                && item@ == t);
        assert(ms2[i].kind == ms1[i].kind);
    }
    if has_sink_for(ms1, t) {
        let i = choose|i: int|
            0 <= i < ms1.len() && ((#[trigger] ms1[i]).kind matches MachineKind::Sink { item }
                && item@ == t);
        assert(ms2[i].kind == ms1[i].kind);
    }
    if has_sink_for(ms2, t) {
        let i = choose|i: int|
            0 <= i < ms2.len() && ((#[trigger] ms2[i]).kind matches MachineKind::Sink { item }
                && item@ == t);
        assert(ms2[i].kind == ms1[i].kind);
    }
    if any_crafter_consumes(ms1, t) {
        let i = choose|i: int| 0 <= i < ms1.len() && crafter_consumes(#[trigger] ms1[i], t);
        assert(ms2[i].kind == ms1[i].kind);
    }
    if any_crafter_consumes(ms2, t) {
        let i = choose|i: int| 0 <= i < ms2.len() && crafter_consumes(#[trigger] ms2[i], t);
        assert(ms2[i].kind == ms1[i].kind);
    }
    if any_crafter_produces(ms1, t) {
        let i = choose|i: int| 0 <= i < ms1.len() && crafter_produces(#[trigger] ms1[i], t);
        assert(ms2[i].kind == ms1[i].kind);
    }
    if any_crafter_produces(ms2, t) {
        let i = choose|i: int| 0 <= i < ms2.len() && crafter_produces(#[trigger] ms2[i], t);
        assert(ms2[i].kind == ms1[i].kind);
    }
}

proof fn lemma_kinds_sync(ms1: Seq<Machine>, ms2: Seq<Machine>)
    requires
        ms1.len() == ms2.len(),
        forall|i: int| 0 <= i < ms1.len() ==> (#[trigger] ms2[i]).kind == ms1[i].kind,
        sources_sinks_synced(ms1),
    ensures
        sources_sinks_synced(ms2),
{
    assert forall|t: Seq<char>| #[trigger] has_source_for(ms2, t) <==> (any_crafter_consumes(
        ms2,
        t,
    ) && !any_crafter_produces(ms2, t)) by {
        lemma_kinds_exists_transfer(ms1, ms2, t);
    }
    assert forall|t: Seq<char>| #[trigger] has_sink_for(ms2, t) <==> (any_crafter_produces(ms2, t)
        && !any_crafter_consumes(ms2, t)) by {
        lemma_kinds_exists_transfer(ms1, ms2, t);
    }
}

// ---------------------------------------------------------------------------
// Machine edits through swap, keeping ownership simple.
// ---------------------------------------------------------------------------

/// Replace machine `i` by the result of `edit` applied to it.
fn take_machine(machines: &mut Vec<Machine>, i: usize) -> (m: Machine)
    requires
        i < old(machines)@.len(),
    ensures
        m == old(machines)@[i as int],
        final(machines)@.len() == old(machines)@.len(),
        forall|k: int|
            0 <= k < old(machines)@.len() && k != i ==> final(machines)@[k] == old(machines)@[k],
{
    let mut tmp = Machine::new_source(ItemName(String::new()));
    machines.set_and_swap(i, &mut tmp);
    tmp
}

fn put_machine(machines: &mut Vec<Machine>, i: usize, m: Machine)
    requires
        i < old(machines)@.len(),
    ensures
        final(machines)@ == old(machines)@.update(i as int, m),
{
    let mut tmp = m;
    machines.set_and_swap(i, &mut tmp);
}

impl Editor {
    /// Drop every machine and constraint; the empty state counts as solved.
    pub fn clear(&mut self)
        ensures
            final(self).wf() <== old(self).info.wf(),
            final(self).info == old(self).info,
            final(self).machines@.len() == 0,
            final(self).item_speed_constraints@.len() == 0,
            final(self).solved,
    {
        self.machines.clear();
        self.item_speed_constraints.clear();
        self.solved = true;
    }

    /// Drop all item speed constraints and count pins, without re-solving.
    fn clear_all_constraints_internal(&mut self)
        requires
            old(self).wf(),
        ensures
            final(self).wf(),
            !final(self).solved,
            final(self).info == old(self).info,
            final(self).item_speed_constraints@.len() == 0,
            final(self).machines@.len() == old(self).machines@.len(),
            forall|i: int|
                0 <= i < old(self).machines@.len() ==> strip_pin(
                    (#[trigger] final(self).machines@[i]).kind,
                ) == strip_pin(old(self).machines@[i].kind) && (match final(self).machines@[i].kind {
                    MachineKind::Crafter { count_constraint, .. } => count_constraint is None,
                    _ => true,
                }),
    {
        self.solved = false;
        self.item_speed_constraints.clear();
        let mut i: usize = 0;
        while i < self.machines.len()
            invariant
                i <= self.machines@.len(),
                self.machines@.len() == old(self).machines@.len(),
                self.info == old(self).info,
                self.item_speed_constraints@.len() == 0,
                !self.solved,
                forall|k: int|
                    0 <= k < i ==> strip_pin((#[trigger] self.machines@[k]).kind) == strip_pin(
                        old(self).machines@[k].kind,
                    ) && (match self.machines@[k].kind {
                        MachineKind::Crafter { count_constraint, .. } => count_constraint is None,
                        _ => true,
                    }),
                forall|k: int|
                    i <= k < self.machines@.len() ==> #[trigger] self.machines@[k] == old(self).machines@[k],
            decreases self.machines@.len() - i,
        {
            let m = take_machine(&mut self.machines, i);
            let count = m.crafter_count;
            let stripped = match m.kind {
                MachineKind::Crafter { crafter, recipe, modules, beacons, .. } => Machine {
                    kind: MachineKind::Crafter {
                        crafter,
                        recipe,
                        modules,
                        beacons,
                        count_constraint: None,
                    },
                    crafter_count: count,
                },
                other => Machine { kind: other, crafter_count: count },
            };
            put_machine(&mut self.machines, i, stripped);
            i = i + 1;
        }
        proof {
            assert forall|k: int| 0 <= k < self.machines@.len() implies machine_wf(
                #[trigger] self.machines@[k],
            ) && machine_caps_ok(self.machines@[k]) && machine_items_known(
                self.info,
                self.machines@[k],
            ) by {
                lemma_strip_pin_preds(self.info, old(self).machines@[k], self.machines@[k]);
            }
        }
    }

    /// Set, replace or remove the required net production rate of one item.
    /// With `replace_all`, all existing constraints and pins are dropped
    /// first. The item must exist in the game data; a rejected edit leaves
    /// the editor unchanged.
    pub fn set_item_speed_constraint(
        &mut self,
        item: &ItemName,
        speed: Option<Speed>,
        replace_all: bool,
    ) -> (r: Result<(), Error>)
        requires
            old(self).wf(),
        ensures
            final(self).wf(),
            final(self).info == old(self).info,
            r is Err ==> *final(self) == *old(self),
            (r == Err::<(), Error>(Error::UnknownItem)) <==> !old(self).info.item_known(item@),
            (r is Ok) <==> old(self).info.item_known(item@),
            // The edited entry.
            r is Ok && speed is Some ==> exists|k: int|
                0 <= k < final(self).item_speed_constraints@.len() && (#[trigger] final(self).item_speed_constraints@[k]).0@ == item@,
            r is Ok ==> (forall|k: int|
                0 <= k < final(self).item_speed_constraints@.len() && (#[trigger] final(self).item_speed_constraints@[k]).0@ == item@ ==> (speed matches Some(s) && final(self).item_speed_constraints@[k].1@ == s@)),
            r is Ok && speed is None ==> (forall|k: int|
                0 <= k < final(self).item_speed_constraints@.len() ==> (#[trigger] final(self).item_speed_constraints@[k]).0@ != item@),
            // Other entries and the machine kinds are untouched unless
            // `replace_all` asked for a clean slate.
            r is Ok && !replace_all ==> (forall|i: int|
                0 <= i < old(self).machines@.len() ==> (#[trigger] final(self).machines@[i]).kind
                    == old(self).machines@[i].kind),
            r is Ok && !replace_all ==> (forall|k: int|
                0 <= k < final(self).item_speed_constraints@.len() && (#[trigger] final(self).item_speed_constraints@[k]).0@ != item@ ==> old(self).item_speed_constraints@.contains(
                    final(self).item_speed_constraints@[k],
                )),
            r is Ok && !replace_all ==> (forall|k: int|
                0 <= k < old(self).item_speed_constraints@.len() && (#[trigger] old(self).item_speed_constraints@[k]).0@ != item@ ==> final(self).item_speed_constraints@.contains(
                    old(self).item_speed_constraints@[k],
                )),
            // With `replace_all` the new entry is the only constraint and
            // every count pin is gone.
            r is Ok && replace_all && speed is Some ==> final(self).item_speed_constraints@.len()
                == 1 && final(self).item_speed_constraints@[0].0@ == item@,
            r is Ok && replace_all && speed is None ==> final(self).item_speed_constraints@.len()
                == 0,
            r is Ok && replace_all ==> (forall|i: int|
                0 <= i < final(self).machines@.len() ==> (match (#[trigger] final(self).machines@[i]).kind {
                    MachineKind::Crafter { count_constraint, .. } => count_constraint is None,
                    _ => true,
                })),
            // Machine kinds survive in any case, up to pin removal.
            final(self).machines@.len() == old(self).machines@.len(),
            forall|i: int|
                0 <= i < old(self).machines@.len() ==> strip_pin(
                    (#[trigger] final(self).machines@[i]).kind,
                ) == strip_pin(old(self).machines@[i].kind),
            final(self).solved ==> final(self).solution_ok(),
    {
        if !self.info.has_item(item) {
            return Err(Error::UnknownItem);
        }
        if replace_all {
            self.clear_all_constraints_internal();
        } else {
            self.solved = false;
        }
        let ghost pre = *self;
        match speed {
            Some(s) => {
                let mut k: usize = 0;
                let mut found = false;
                while k < self.item_speed_constraints.len() && !found
                    invariant
                        k <= self.item_speed_constraints@.len(),
                        self.constraints_wf(),
                        self.machines@ == pre.machines@,
                        !replace_all ==> pre.machines@ == old(self).machines@
                            && pre.item_speed_constraints@ == old(self).item_speed_constraints@,
                        replace_all ==> pre.item_speed_constraints@.len() == 0,
                        forall|i: int|
                            0 <= i < old(self).machines@.len() ==> strip_pin(
                                (#[trigger] pre.machines@[i]).kind,
                            ) == strip_pin(old(self).machines@[i].kind),
                        replace_all ==> (forall|i: int|
                            0 <= i < pre.machines@.len() ==> (match (
                            #[trigger] pre.machines@[i]).kind {
                                MachineKind::Crafter { count_constraint, .. } => count_constraint
                                    is None,
                                _ => true,
                            })),
                        found ==> k > 0 && 0 <= k - 1 < self.item_speed_constraints@.len()
                            && self.item_speed_constraints@[k - 1].0@ == item@
                            && self.item_speed_constraints@[k - 1].1@ == s@
                            && pre.item_speed_constraints@[k - 1].0@ == item@,
                        found ==> (forall|j: int|
                            0 <= j < self.item_speed_constraints@.len() && (
                            #[trigger] self.item_speed_constraints@[j]).0@ == item@ ==> j == k
                                - 1),
                        found ==> self.item_speed_constraints@.len()
                            == pre.item_speed_constraints@.len(),
                        found ==> (forall|j: int|
                            0 <= j < self.item_speed_constraints@.len() && j != k - 1
                                ==> #[trigger] self.item_speed_constraints@[j]
                                == pre.item_speed_constraints@[j]),
                        !found ==> self.item_speed_constraints@ == pre.item_speed_constraints@,
                        !found ==> (forall|j: int|
                            0 <= j < k ==> (#[trigger] self.item_speed_constraints@[j]).0@
                                != item@),
                        !self.solved,
                        self.info == old(self).info,
                        old(self).info.item_known(item@),
                        self.machines@.len() == old(self).machines@.len(),
                        self.wf(),
                    decreases self.item_speed_constraints@.len() - k,
                {
                    if self.item_speed_constraints[k].0 == *item {
                        self.item_speed_constraints[k] = (item.clone(), s);
                        found = true;
                    }
                    k = k + 1;
                }
                if !found {
                    self.item_speed_constraints.push((item.clone(), s));
                    proof {
                        let last = self.item_speed_constraints@.len() - 1;
                        assert(self.item_speed_constraints@[last].0@ == item@);
                        assert(self.item_speed_constraints@[last].1@ == s@);
                        assert forall|j: int|
                            0 <= j < self.item_speed_constraints@.len() && (
                            #[trigger] self.item_speed_constraints@[j]).0@
                                != item@ implies pre.item_speed_constraints@.contains(
                            self.item_speed_constraints@[j],
                        ) by {
                            assert(self.item_speed_constraints@[j]
                                == pre.item_speed_constraints@[j]);
                        }
                    }
                } else {
                    proof {
                        assert(self.item_speed_constraints@[k - 1].0@ == item@);
                        assert forall|j: int|
                            0 <= j < self.item_speed_constraints@.len() && (
                            #[trigger] self.item_speed_constraints@[j]).0@
                                != item@ implies pre.item_speed_constraints@.contains(
                            self.item_speed_constraints@[j],
                        ) by {
                            assert(j != k - 1);
                            assert(self.item_speed_constraints@[j]
                                == pre.item_speed_constraints@[j]);
                        }
                    }
                }
                proof {
                    assert forall|j: int|
                        0 <= j < pre.item_speed_constraints@.len() && (
                        #[trigger] pre.item_speed_constraints@[j]).0@
                            != item@ implies self.item_speed_constraints@.contains(
                        pre.item_speed_constraints@[j],
                    ) by {
                        if found {
                            assert(j != k - 1);
                        }
                        assert(self.item_speed_constraints@[j] == pre.item_speed_constraints@[j]);
                    }
                }
            },
            None => {
                let mut k: usize = 0;
                while k < self.item_speed_constraints.len()
                    invariant
                        k <= self.item_speed_constraints@.len(),
                        self.constraints_wf(),
                        self.machines@ == pre.machines@,
                        !replace_all ==> pre.machines@ == old(self).machines@
                            && pre.item_speed_constraints@ == old(self).item_speed_constraints@,
                        replace_all ==> pre.item_speed_constraints@.len() == 0,
                        forall|i: int|
                            0 <= i < old(self).machines@.len() ==> strip_pin(
                                (#[trigger] pre.machines@[i]).kind,
                            ) == strip_pin(old(self).machines@[i].kind),
                        replace_all ==> (forall|i: int|
                            0 <= i < pre.machines@.len() ==> (match (
                            #[trigger] pre.machines@[i]).kind {
                                MachineKind::Crafter { count_constraint, .. } => count_constraint
                                    is None,
                                _ => true,
                            })),
                        self.item_speed_constraints@ == pre.item_speed_constraints@,
                        forall|j: int|
                            0 <= j < k ==> (#[trigger] self.item_speed_constraints@[j]).0@
                                != item@,
                        !self.solved,
                        self.info == old(self).info,
                        old(self).info.item_known(item@),
                        self.machines@.len() == old(self).machines@.len(),
                        speed is None,
                        self.wf(),
                    decreases self.item_speed_constraints@.len() - k,
                {
                    if self.item_speed_constraints[k].0 == *item {
                        let ghost before_rm = self.item_speed_constraints@;
                        self.item_speed_constraints.remove(k);
                        proof {
                            assert(old(self).info.item_known(item@));
                            assert forall|j: int|
                                0 <= j < before_rm.len() && (#[trigger] before_rm[j]).0@
                                    != item@ implies self.item_speed_constraints@.contains(
                                before_rm[j],
                            ) by {
                                if j < k {
                                    assert(self.item_speed_constraints@[j] == before_rm[j]);
                                } else {
                                    assert(j > k);
                                    assert(self.item_speed_constraints@[j - 1] == before_rm[j]);
                                }
                            }
                            assert forall|j: int|
                                0 <= j < self.item_speed_constraints@.len() && (
                                #[trigger] self.item_speed_constraints@[j]).0@
                                    != item@ implies before_rm.contains(
                                self.item_speed_constraints@[j],
                            ) by {
                                if j < k {
                                    assert(before_rm[j] == self.item_speed_constraints@[j]);
                                } else {
                                    assert(before_rm[j + 1] == self.item_speed_constraints@[j]);
                                }
                            }
                        }
                        return self.finish_constraint_edit(item, true);
                    }
                    k = k + 1;
                }
                proof {
                    assert forall|j: int|
                        0 <= j < pre.item_speed_constraints@.len() && (
                        #[trigger] pre.item_speed_constraints@[j]).0@
                            != item@ implies self.item_speed_constraints@.contains(
                        pre.item_speed_constraints@[j],
                    ) by {
                        assert(self.item_speed_constraints@[j] == pre.item_speed_constraints@[j]);
                    }
                    assert forall|j: int|
                        0 <= j < self.item_speed_constraints@.len() && (
                        #[trigger] self.item_speed_constraints@[j]).0@
                            != item@ implies pre.item_speed_constraints@.contains(
                        self.item_speed_constraints@[j],
                    ) by {
                        assert(pre.item_speed_constraints@[j] == self.item_speed_constraints@[j]);
                    }
                }
            },
        }
        let removed = match speed {
            Some(_) => false,
            None => true,
        };
        self.finish_constraint_edit(item, removed)
    }

    /// Re-solve after a constraint edit.
    fn finish_constraint_edit(&mut self, item: &ItemName, removed: bool) -> (r: Result<(), Error>)
        requires
            old(self).wf(),
            !old(self).solved,
            removed ==> (forall|k: int|
                0 <= k < old(self).item_speed_constraints@.len() ==> (#[trigger] old(self).item_speed_constraints@[k]).0@ != item@),
        ensures
            final(self).wf(),
            final(self).info == old(self).info,
            final(self).item_speed_constraints == old(self).item_speed_constraints,
            final(self).machines@.len() == old(self).machines@.len(),
            forall|i: int|
                0 <= i < old(self).machines@.len() ==> (#[trigger] final(self).machines@[i]).kind
                    == old(self).machines@[i].kind,
            r is Ok,
            removed ==> (forall|k: int|
                0 <= k < final(self).item_speed_constraints@.len() ==> (#[trigger] final(self).item_speed_constraints@[k]).0@ != item@),
            final(self).solved ==> final(self).solution_ok(),
    {
        let _ = self.solve();
        Ok(())
    }

    /// Pin or unpin one machine's multiplier. Sources and sinks cannot be
    /// pinned; use an item speed constraint instead. A rejected edit leaves
    /// the editor unchanged.
    pub fn set_machine_count_constraint(
        &mut self,
        index: usize,
        count: Option<MachineCount>,
        replace_all: bool,
    ) -> (r: Result<(), Error>)
        requires
            old(self).wf(),
        ensures
            final(self).wf(),
            final(self).info == old(self).info,
            r is Err ==> *final(self) == *old(self),
            (r == Err::<(), Error>(Error::InvalidMachineIndex)) <==> index >= old(self).machines@.len(),
            index < old(self).machines@.len() ==> ((r == Err::<(), Error>(
                Error::NotACrafterMachine,
            )) <==> !(old(self).machines@[index as int].kind is Crafter)),
            (r is Ok) <==> (index < old(self).machines@.len() && old(self).machines@[
                index as int].kind is Crafter),
            // The pin at `index` afterwards is exactly `count`.
            r is Ok ==> (match final(self).machines@[index as int].kind {
                MachineKind::Crafter { count_constraint, .. } => (match (count, count_constraint) {
                    (Some(c), Some(c2)) => c2@ == c@,
                    (None, None) => true,
                    _ => false,
                }),
                _ => false,
            }),
            // Everything but pins keeps its shape; without `replace_all`
            // the other machines keep their pins and the constraints stay.
            final(self).machines@.len() == old(self).machines@.len(),
            forall|i: int|
                0 <= i < old(self).machines@.len() ==> strip_pin(
                    (#[trigger] final(self).machines@[i]).kind,
                ) == strip_pin(old(self).machines@[i].kind),
            r is Ok && !replace_all ==> (forall|i: int|
                0 <= i < old(self).machines@.len() && i != index ==> (#[trigger] final(self).machines@[i]).kind == old(self).machines@[i].kind),
            r is Ok && !replace_all ==> final(self).item_speed_constraints == old(self).item_speed_constraints,
            r is Ok && replace_all ==> final(self).item_speed_constraints@.len() == 0,
            r is Ok && replace_all ==> (forall|i: int|
                0 <= i < final(self).machines@.len() && i != index ==> (match (#[trigger] final(self).machines@[i]).kind {
                    MachineKind::Crafter { count_constraint, .. } => count_constraint is None,
                    _ => true,
                })),
            final(self).solved ==> final(self).solution_ok(),
    {
        if index >= self.machines.len() {
            return Err(Error::InvalidMachineIndex);
        }
        let is_crafter = match &self.machines[index].kind {
            MachineKind::Crafter { .. } => true,
            _ => false,
        };
        if !is_crafter {
            return Err(Error::NotACrafterMachine);
        }
        if replace_all {
            self.clear_all_constraints_internal();
        } else {
            self.solved = false;
        }
        let ghost pre = *self;
        let m = take_machine(&mut self.machines, index);
        let cc = m.crafter_count;
        let updated = match m.kind {
            MachineKind::Crafter { crafter, recipe, modules, beacons, .. } => Machine {
                kind: MachineKind::Crafter {
                    crafter,
                    recipe,
                    modules,
                    beacons,
                    count_constraint: count,
                },
                crafter_count: cc,
            },
            other => Machine { kind: other, crafter_count: cc },
        };
        put_machine(&mut self.machines, index, updated);
        proof {
            assert forall|k: int| 0 <= k < self.machines@.len() implies machine_wf(
                #[trigger] self.machines@[k],
            ) && machine_caps_ok(self.machines@[k]) && machine_items_known(
                self.info,
                self.machines@[k],
            ) && strip_pin(self.machines@[k].kind) == strip_pin(old(self).machines@[k].kind) by {
                assert(strip_pin(pre.machines@[k].kind) == strip_pin(old(self).machines@[k].kind));
                lemma_strip_pin_preds(self.info, old(self).machines@[k], self.machines@[k]);
            }
        }
        let _ = self.solve();
        Ok(())
    }
}


/// Machines sharing the recipe satisfy the same item bookkeeping.
proof fn lemma_same_recipe_preds(info: Info, m1: Machine, m2: Machine)
    requires
        m1.kind matches MachineKind::Crafter { recipe: r1, .. } && (m2.kind matches
            MachineKind::Crafter { recipe: r2, .. } && r1 == r2),
    ensures
        machine_wf(m1) == machine_wf(m2),
        machine_items_known(info, m1) == machine_items_known(info, m2),
        item_speeds_len(m1) == item_speeds_len(m2),
        forall|j: int| item_speed_name(m1, j) == item_speed_name(m2, j),
{
    assert forall|j: int| item_speed_name(m1, j) == item_speed_name(m2, j) by {}
    assert(machine_items_known(info, m1) == machine_items_known(info, m2)) by {
        if machine_items_known(info, m1) {
            assert forall|j: int| 0 <= j < item_speeds_len(m2) implies info.item_known(
                #[trigger] item_speed_name(m2, j),
            ) by {
                assert(item_speed_name(m2, j) == item_speed_name(m1, j));
            }
        }
        if machine_items_known(info, m2) {
            assert forall|j: int| 0 <= j < item_speeds_len(m1) implies info.item_known(
                #[trigger] item_speed_name(m1, j),
            ) by {
                assert(item_speed_name(m1, j) == item_speed_name(m2, j));
            }
        }
    }
}

/// The crafter name automatic selection picks from an eligible list: the
/// only entry, else the configured assembler, else the configured furnace.
pub open spec fn auto_choice(info: Info, names: Seq<CrafterName>) -> Option<Seq<char>> {
    if names.len() == 1 {
        Some(names[0]@)
    } else if crate::info::name_in(names, info.config.assembler_type@) {
        Some(info.config.assembler_type@)
    } else if crate::info::name_in(names, info.config.furnace_type@) {
        Some(info.config.furnace_type@)
    } else {
        None
    }
}

/// The crafter name `add_crafter` uses: the given one when eligible, else
/// the automatic choice.
pub open spec fn chosen_crafter_name(
    info: Info,
    names: Seq<CrafterName>,
    crafter: Option<&CrafterName>,
) -> Option<Seq<char>> {
    match crafter {
        Some(c) => if crate::info::name_in(names, c@) {
            Some(c@)
        } else {
            None
        },
        None => auto_choice(info, names),
    }
}

/// Exactly the inputs on which `add_crafter` succeeds: the recipe resolves
/// to a category with eligible crafters, a crafter can be chosen and found,
/// and the recipe's time per craft is not zero.
pub open spec fn add_crafter_ok(
    info: Info,
    recipe_name: Seq<char>,
    crafter: Option<&CrafterName>,
) -> bool {
    exists|k: int|
        #[trigger] info.game_data.first_recipe_at(recipe_name, k) && add_crafter_ok_from(
            info,
            info.game_data.recipes@[k]@,
            crafter,
        )
}

pub open spec fn add_crafter_ok_from(
    info: Info,
    rec: crate::game_data::RecipeV,
    crafter: Option<&CrafterName>,
) -> bool {
    exists|ci: int|
        #[trigger] info.first_category_at(rec.category, ci) && {
            let names = info.category_to_crafter@[ci].1;
            names@.len() > 0 && (match chosen_crafter_name(info, names@, crafter) {
                Some(cn) => info.crafter_named(cn) && !q_eq(rec.energy, q_int(0)),
                None => false,
            })
        }
}

proof fn lemma_first_recipe_unique(gd: crate::game_data::GameData, t: Seq<char>, k1: int, k2: int)
    requires
        gd.first_recipe_at(t, k1),
        gd.first_recipe_at(t, k2),
    ensures
        k1 == k2,
{
}

proof fn lemma_first_category_unique(info: Info, t: Seq<char>, k1: int, k2: int)
    requires
        info.first_category_at(t, k1),
        info.first_category_at(t, k2),
    ensures
        k1 == k2,
{
}

/// The machine's recipe accepts productivity effects.
pub open spec fn machine_allows_prod(m: Machine) -> bool {
    match m.kind {
        MachineKind::Crafter { recipe, .. } => recipe.allowed_effects.productivity,
        _ => false,
    }
}

/// The machine has a free module slot.
pub open spec fn machine_has_room(m: Machine) -> bool {
    match m.kind {
        MachineKind::Crafter { crafter, modules, .. } => modules@.len()
            < crafter.module_inventory_size,
        _ => false,
    }
}

/// The first module table entry of this name may go into the machine: it is
/// a speed module, or the machine's recipe accepts productivity.
pub open spec fn module_type_ok(info: Info, t: Seq<char>, m: Machine) -> bool {
    exists|k: int|
        #[trigger] info.first_module_at(t, k) && (info.modules@[k].type_ == ModuleType::Speed
            || machine_allows_prod(m))
}

/// There is at most one first position.
proof fn lemma_first_module_unique(info: Info, t: Seq<char>, k1: int, k2: int)
    requires
        info.first_module_at(t, k1),
        info.first_module_at(t, k2),
    ensures
        k1 == k2,
{
}

impl Editor {
    /// Install one more module into a machine's own slots. The module must
    /// exist, the recipe must allow productivity for productivity modules,
    /// and the crafter's inventory must have room; a rejected mutation
    /// leaves the editor unchanged.
    pub fn add_module(&mut self, machine_index: usize, module: &ModuleName) -> (r: Result<
        (),
        Error,
    >)
        requires
            old(self).wf(),
        ensures
            final(self).wf(),
            final(self).info == old(self).info,
            r is Err ==> *final(self) == *old(self),
            (r == Err::<(), Error>(Error::InvalidMachineIndex)) <==> machine_index >= old(self).machines@.len(),
            machine_index < old(self).machines@.len() ==> ((r == Err::<(), Error>(
                Error::UnknownModule,
            )) <==> !old(self).info.module_named(module@)),
            machine_index < old(self).machines@.len() && old(self).info.module_named(module@)
                ==> ((r == Err::<(), Error>(Error::ProductivityNotAllowed)) <==> !module_type_ok(
                old(self).info,
                module@,
                old(self).machines@[machine_index as int],
            )),
            machine_index < old(self).machines@.len() && old(self).info.module_named(module@)
                && module_type_ok(
                old(self).info,
                module@,
                old(self).machines@[machine_index as int],
            ) ==> ((r == Err::<(), Error>(Error::ModuleCapacityExceeded)) <==> !machine_has_room(
                old(self).machines@[machine_index as int],
            )),
            // Success is owed exactly on the valid inputs.
            (r is Ok) <==> (machine_index < old(self).machines@.len() && old(
                self,
            ).info.module_named(module@) && module_type_ok(
                old(self).info,
                module@,
                old(self).machines@[machine_index as int],
            ) && machine_has_room(old(self).machines@[machine_index as int])),
            // The appended module is the first table entry of that name;
            // everything else about the machine keeps its shape.
            r is Ok ==> exists|k: int|
                #[trigger] old(self).info.first_module_at(module@, k) && (match (
                final(self).machines@[machine_index as int].kind,
                old(self).machines@[machine_index as int].kind,
            ) {
                    (
                        MachineKind::Crafter {
                            crafter: c2,
                            recipe: r2,
                            modules: nm,
                            beacons: b2,
                            count_constraint: p2,
                        },
                        MachineKind::Crafter {
                            crafter: c1,
                            recipe: r1,
                            modules: om,
                            beacons: b1,
                            count_constraint: p1,
                        },
                    ) => c2 == c1 && r2 == r1 && b2 == b1 && p2 == p1 && nm@.len() == om@.len() + 1
                        && (forall|j: int| 0 <= j < om@.len() ==> nm@[j] == #[trigger] om@[j]) && {
                        let added = nm@[nm@.len() - 1];
                        let entry = old(self).info.modules@[k];
                        added.name@ == entry.name@ && added.type_ == entry.type_
                            && added.energy_delta_percent == entry.energy_delta_percent
                            && added.speed_delta_percent == entry.speed_delta_percent
                            && added.productivity_delta_percent == entry.productivity_delta_percent
                    },
                    _ => false,
                }),
            r is Ok ==> final(self).machines@.len() == old(self).machines@.len() && (forall|i: int|
                0 <= i < old(self).machines@.len() && i != machine_index ==> (#[trigger] final(self).machines@[i]).kind == old(self).machines@[i].kind),
            r is Ok ==> final(self).item_speed_constraints == old(self).item_speed_constraints,
            final(self).solved ==> final(self).solution_ok(),
    {
        if machine_index >= self.machines.len() {
            return Err(Error::InvalidMachineIndex);
        }
        let mref = match self.info.module(module) {
            Err(e) => {
                return Err(e);
            },
            Ok(m) => m,
        };
        let ghost orig_entry = *mref;
        let found = mref.clone();
        let cap: u64;
        let cur: usize;
        let allows: bool;
        match &self.machines[machine_index].kind {
            MachineKind::Crafter { crafter, recipe, modules, .. } => {
                cap = crafter.module_inventory_size;
                cur = modules.len();
                allows = recipe.allowed_effects.productivity;
            },
            _ => {
                cap = 0;
                cur = 0;
                allows = false;
            },
        }
        let is_prod = match found.type_ {
            ModuleType::Productivity => true,
            ModuleType::Speed => false,
        };
        proof {
            let mach = self.machines@[machine_index as int];
            let k0 = choose|k: int|
                0 <= k < self.info.modules@.len() && #[trigger] self.info.modules@[k]
                    == orig_entry && orig_entry.name@ == module@ && (forall|j: int|
                    0 <= j < k ==> (#[trigger] self.info.modules@[j]).name@ != module@);
            assert(self.info.first_module_at(module@, k0));
            assert(found.type_ == orig_entry.type_);
            assert(machine_allows_prod(mach) == allows);
            // The exec type test decides `module_type_ok` exactly.
            if !is_prod || allows {
                assert(module_type_ok(self.info, module@, mach));
            }
            if is_prod && !allows {
                assert(!module_type_ok(self.info, module@, mach)) by {
                    if module_type_ok(self.info, module@, mach) {
                        let k1 = choose|k: int|
                            #[trigger] self.info.first_module_at(module@, k) && (
                            self.info.modules@[k].type_ == ModuleType::Speed || machine_allows_prod(
                                mach,
                            ));
                        lemma_first_module_unique(self.info, module@, k0, k1);
                    }
                }
            }
            assert(machine_has_room(mach) == ((cur as u64) < cap));
        }
        if is_prod && !allows {
            return Err(Error::ProductivityNotAllowed);
        }
        if cur as u64 >= cap {
            return Err(Error::ModuleCapacityExceeded);
        }
        self.solved = false;
        let m = take_machine(&mut self.machines, machine_index);
        let cc = m.crafter_count;
        let ghost m_old = m;
        let ghost added = found;
        let updated = match m.kind {
            MachineKind::Crafter { crafter, recipe, mut modules, beacons, count_constraint } => {
                modules.push(found);
                Machine {
                    kind: MachineKind::Crafter { crafter, recipe, modules, beacons, count_constraint },
                    crafter_count: cc,
                }
            },
            other => Machine { kind: other, crafter_count: cc },
        };
        put_machine(&mut self.machines, machine_index, updated);
        proof {
            assert forall|k: int| 0 <= k < self.machines@.len() implies machine_wf(
                #[trigger] self.machines@[k],
            ) && machine_caps_ok(self.machines@[k]) && machine_items_known(
                self.info,
                self.machines@[k],
            ) by {
                if k == machine_index {
                    lemma_same_recipe_preds(self.info, m_old, self.machines@[k]);
                } else {
                    assert(self.machines@[k] == old(self).machines@[k]);
                }
            }
        }
        let _ = self.solve();
        Ok(())
    }

    /// Remove one module from a machine's own slots. A rejected mutation
    /// leaves the editor unchanged.
    pub fn remove_module(&mut self, machine_index: usize, module_index: usize) -> (r: Result<
        (),
        Error,
    >)
        requires
            old(self).wf(),
        ensures
            final(self).wf(),
            final(self).info == old(self).info,
            r is Err ==> *final(self) == *old(self),
            (r == Err::<(), Error>(Error::InvalidMachineIndex)) <==> machine_index >= old(self).machines@.len(),
            machine_index < old(self).machines@.len() ==> ((r == Err::<(), Error>(
                Error::NotACrafterMachine,
            )) <==> !(old(self).machines@[machine_index as int].kind is Crafter)),
            machine_index < old(self).machines@.len() && old(self).machines@[
                machine_index as int].kind is Crafter ==> ((r == Err::<(), Error>(
                Error::InvalidModuleIndex,
            )) <==> module_index >= old(self).machines@[
                machine_index as int].kind->Crafter_modules@.len()),
            (r is Ok) <==> (machine_index < old(self).machines@.len() && old(self).machines@[
                machine_index as int].kind is Crafter && module_index < old(self).machines@[
                machine_index as int].kind->Crafter_modules@.len()),
            // Exactly the named slot is vacated; order and everything else
            // keep their shape.
            r is Ok ==> (match (
                final(self).machines@[machine_index as int].kind,
                old(self).machines@[machine_index as int].kind,
            ) {
                (
                    MachineKind::Crafter {
                        crafter: c2,
                        recipe: r2,
                        modules: nm,
                        beacons: b2,
                        count_constraint: p2,
                    },
                    MachineKind::Crafter {
                        crafter: c1,
                        recipe: r1,
                        modules: om,
                        beacons: b1,
                        count_constraint: p1,
                    },
                ) => c2 == c1 && r2 == r1 && b2 == b1 && p2 == p1 && nm@ == om@.remove(
                    module_index as int,
                ),
                _ => false,
            }),
            r is Ok ==> final(self).machines@.len() == old(self).machines@.len() && (forall|i: int|
                0 <= i < old(self).machines@.len() && i != machine_index ==> (#[trigger] final(self).machines@[i]).kind == old(self).machines@[i].kind),
            r is Ok ==> final(self).item_speed_constraints == old(self).item_speed_constraints,
            final(self).solved ==> final(self).solution_ok(),
    {
        if machine_index >= self.machines.len() {
            return Err(Error::InvalidMachineIndex);
        }
        let is_crafter: bool;
        let nmods: usize;
        match &self.machines[machine_index].kind {
            MachineKind::Crafter { modules, .. } => {
                is_crafter = true;
                nmods = modules.len();
            },
            _ => {
                is_crafter = false;
                nmods = 0;
            },
        }
        if !is_crafter {
            return Err(Error::NotACrafterMachine);
        }
        if module_index >= nmods {
            return Err(Error::InvalidModuleIndex);
        }
        self.solved = false;
        let m = take_machine(&mut self.machines, machine_index);
        let cc = m.crafter_count;
        let ghost m_old = m;
        let updated = match m.kind {
            MachineKind::Crafter { crafter, recipe, mut modules, beacons, count_constraint } => {
                modules.remove(module_index);
                Machine {
                    kind: MachineKind::Crafter { crafter, recipe, modules, beacons, count_constraint },
                    crafter_count: cc,
                }
            },
            other => Machine { kind: other, crafter_count: cc },
        };
        put_machine(&mut self.machines, machine_index, updated);
        proof {
            assert forall|k: int| 0 <= k < self.machines@.len() implies machine_wf(
                #[trigger] self.machines@[k],
            ) && machine_caps_ok(self.machines@[k]) && machine_items_known(
                self.info,
                self.machines@[k],
            ) by {
                if k == machine_index {
                    lemma_same_recipe_preds(self.info, m_old, self.machines@[k]);
                    assert(machine_caps_ok(self.machines@[k])) by {
                        match (m_old.kind, self.machines@[k].kind) {
                            (
                                MachineKind::Crafter { modules: om, .. },
                                MachineKind::Crafter { modules: nm, .. },
                            ) => {
                                assert(forall|j: int|
                                    0 <= j < nm@.len() ==> #[trigger] nm@[j] == om@[
                                    if j < module_index {
                                        j
                                    } else {
                                        j + 1
                                    }]);
                            },
                            _ => {},
                        }
                    }
                } else {
                    assert(self.machines@[k] == old(self).machines@[k]);
                }
            }
        }
        let _ = self.solve();
        Ok(())
    }

    /// Replace a machine's beacons. A beacon holds at most two modules and
    /// never a productivity module.
    pub fn set_beacons(&mut self, machine_index: usize, new_beacons: Vec<Beacon>) -> (r: Result<
        (),
        Error,
    >)
        requires
            old(self).wf(),
        ensures
            final(self).wf(),
            final(self).info == old(self).info,
            r is Err ==> *final(self) == *old(self),
            r matches Err(e) ==> (e == Error::InvalidMachineIndex || e
                == Error::TooManyBeaconModules || e == Error::ProductivityInBeacon || e
                == Error::NotACrafterMachine),
            (r == Err::<(), Error>(Error::InvalidMachineIndex)) <==> machine_index >= old(self).machines@.len(),
            r == Err::<(), Error>(Error::TooManyBeaconModules) ==> exists|b: int|
                0 <= b < new_beacons@.len() && (#[trigger] new_beacons@[b]).modules@.len() > 2,
            r == Err::<(), Error>(Error::ProductivityInBeacon) ==> exists|b: int, j: int|
                #![trigger new_beacons@[b].modules@[j]]
                0 <= b < new_beacons@.len() && 0 <= j < new_beacons@[b].modules@.len()
                    && new_beacons@[b].modules@[j].type_ == ModuleType::Productivity,
            // Success is owed exactly on the valid inputs.
            (r is Ok) <==> (machine_index < old(self).machines@.len() && old(self).machines@[
                machine_index as int].kind is Crafter && (forall|b: int|
                0 <= b < new_beacons@.len() ==> (#[trigger] new_beacons@[b]).modules@.len() <= 2)
                && (forall|b: int, j: int|
                0 <= b < new_beacons@.len() && 0 <= j < (#[trigger] new_beacons@[b]).modules@.len()
                    ==> (#[trigger] new_beacons@[b].modules@[j]).type_
                    != ModuleType::Productivity)),
            r is Ok ==> (match (
                final(self).machines@[machine_index as int].kind,
                old(self).machines@[machine_index as int].kind,
            ) {
                (
                    MachineKind::Crafter {
                        crafter: c2,
                        recipe: r2,
                        modules: m2,
                        beacons,
                        count_constraint: p2,
                    },
                    MachineKind::Crafter {
                        crafter: c1,
                        recipe: r1,
                        modules: m1,
                        count_constraint: p1,
                        ..
                    },
                ) => c2 == c1 && r2 == r1 && m2 == m1 && p2 == p1 && beacons == new_beacons,
                _ => false,
            }),
            r is Ok ==> final(self).machines@.len() == old(self).machines@.len() && (forall|i: int|
                0 <= i < old(self).machines@.len() && i != machine_index ==> (#[trigger] final(self).machines@[i]).kind == old(self).machines@[i].kind),
            r is Ok ==> final(self).item_speed_constraints == old(self).item_speed_constraints,
            final(self).solved ==> final(self).solution_ok(),
    {
        if machine_index >= self.machines.len() {
            return Err(Error::InvalidMachineIndex);
        }
        let mut b: usize = 0;
        while b < new_beacons.len()
            invariant
                *self == *old(self),
                old(self).wf(),
                machine_index < self.machines@.len(),
                b <= new_beacons@.len(),
                forall|bb: int|
                    0 <= bb < b ==> (#[trigger] new_beacons@[bb]).modules@.len() <= 2,
                forall|bb: int, j: int|
                    0 <= bb < b && 0 <= j < (#[trigger] new_beacons@[bb]).modules@.len() ==> (
                    #[trigger] new_beacons@[bb].modules@[j]).type_ != ModuleType::Productivity,
            decreases new_beacons@.len() - b,
        {
            if new_beacons[b].modules.len() > 2 {
                return Err(Error::TooManyBeaconModules);
            }
            let mut j: usize = 0;
            while j < new_beacons[b].modules.len()
                invariant
                    *self == *old(self),
                    old(self).wf(),
                    machine_index < self.machines@.len(),
                    b < new_beacons@.len(),
                    j <= new_beacons@[b as int].modules@.len(),
                    forall|bb: int|
                        0 <= bb < b ==> (#[trigger] new_beacons@[bb]).modules@.len() <= 2,
                    forall|bb: int, jj: int|
                        0 <= bb < b && 0 <= jj < (#[trigger] new_beacons@[bb]).modules@.len() ==> (
                        #[trigger] new_beacons@[bb].modules@[jj]).type_
                            != ModuleType::Productivity,
                    forall|jj: int|
                        0 <= jj < j ==> (#[trigger] new_beacons@[b as int].modules@[jj]).type_
                            != ModuleType::Productivity,
                decreases new_beacons@[b as int].modules@.len() - j,
            {
                let is_prod = match new_beacons[b].modules[j].type_ {
                    ModuleType::Productivity => true,
                    ModuleType::Speed => false,
                };
                if is_prod {
                    return Err(Error::ProductivityInBeacon);
                }
                j = j + 1;
            }
            b = b + 1;
        }
        let is_crafter = match &self.machines[machine_index].kind {
            MachineKind::Crafter { .. } => true,
            _ => false,
        };
        if !is_crafter {
            return Err(Error::NotACrafterMachine);
        }
        self.solved = false;
        let m = take_machine(&mut self.machines, machine_index);
        let cc = m.crafter_count;
        let ghost m_old = m;
        let updated = match m.kind {
            MachineKind::Crafter { crafter, recipe, modules, count_constraint, .. } => Machine {
                kind: MachineKind::Crafter {
                    crafter,
                    recipe,
                    modules,
                    beacons: new_beacons,
                    count_constraint,
                },
                crafter_count: cc,
            },
            other => Machine { kind: other, crafter_count: cc },
        };
        put_machine(&mut self.machines, machine_index, updated);
        proof {
            assert forall|k: int| 0 <= k < self.machines@.len() implies machine_wf(
                #[trigger] self.machines@[k],
            ) && machine_caps_ok(self.machines@[k]) && machine_items_known(
                self.info,
                self.machines@[k],
            ) by {
                if k == machine_index {
                    lemma_same_recipe_preds(self.info, m_old, self.machines@[k]);
                } else {
                    assert(self.machines@[k] == old(self).machines@[k]);
                }
            }
        }
        let _ = self.solve();
        Ok(())
    }

    /// Add a crafter machine for a recipe, picking the crafter automatically
    /// when none is given. The very first machine, added with no constraints
    /// present, brings a convenience production constraint of one per second
    /// on the recipe's first product. A rejected mutation leaves the editor
    /// unchanged; success is owed exactly on the inputs `add_crafter_ok`
    /// describes.
    pub fn add_crafter(&mut self, recipe_name: &RecipeName, crafter: Option<&CrafterName>) -> (r:
        Result<(), Error>)
        requires
            old(self).wf(),
        ensures
            final(self).wf(),
            final(self).info == old(self).info,
            r is Err ==> *final(self) == *old(self),
            r matches Err(e) ==> (e == Error::UnknownRecipe || e == Error::UnknownCategory || e
                == Error::CrafterNotEligible || e == Error::AmbiguousCrafter || e
                == Error::UnknownCrafter || e == Error::NumericalFailure),
            (r == Err::<(), Error>(Error::UnknownRecipe)) <==> !old(self).info.game_data.recipe_named(recipe_name@),
            (r is Ok) <==> add_crafter_ok(old(self).info, recipe_name@, crafter),
            r is Ok ==> sources_sinks_synced(final(self).machines@),
            // The new machine: the named recipe on the chosen crafter, with
            // empty module and beacon lists and no count pin.
            r is Ok ==> exists|i: int|
                0 <= i < final(self).machines@.len() && (match (#[trigger] final(self).machines@[i]).kind {
                    MachineKind::Crafter { crafter: c, recipe, modules, beacons, count_constraint } => recipe.name@
                        == recipe_name@ && modules@.len() == 0 && beacons@.len() == 0
                        && count_constraint is None && (crafter matches Some(cw) ==> c.name@
                        == cw@),
                    _ => false,
                }),
            // Prior crafter machines survive.
            r is Ok ==> (forall|j: int|
                0 <= j < old(self).machines@.len() && (#[trigger] old(self).machines@[j]).kind is Crafter ==> exists|i: int|
                    0 <= i < final(self).machines@.len() && (#[trigger] final(self).machines@[i]).kind == old(self).machines@[j].kind),
            // The bootstrap constraint appears exactly when machine list and
            // constraints both started empty.
            r is Ok && !(old(self).machines@.len() == 0 && old(self).item_speed_constraints@.len()
                == 0) ==> final(self).item_speed_constraints == old(self).item_speed_constraints,
            r is Ok && old(self).machines@.len() == 0 && old(self).item_speed_constraints@.len()
                == 0 ==> exists|k: int|
                #[trigger] old(self).info.game_data.first_recipe_at(recipe_name@, k) && (if old(self).info.game_data.recipes@[k]@.products.len() > 0 {
                    final(self).item_speed_constraints@.len() == 1 && final(self).item_speed_constraints@[0].0@ == old(self).info.game_data.recipes@[k]@.products[0].name
                        && final(self).item_speed_constraints@[0].1@ == q_int(1)
                } else {
                    final(self).item_speed_constraints@.len() == 0
                }),
            final(self).solved ==> final(self).solution_ok(),
    {
        let rref = match self.info.game_data.recipe(recipe_name) {
            Err(e) => {
                proof {
                    if add_crafter_ok(self.info, recipe_name@, crafter) {
                        let k = choose|k: int|
                            #[trigger] self.info.game_data.first_recipe_at(recipe_name@, k)
                                && add_crafter_ok_from(
                                self.info,
                                self.info.game_data.recipes@[k]@,
                                crafter,
                            );
                        assert(self.info.game_data.recipe_named(recipe_name@));
                    }
                }
                return Err(e);
            },
            Ok(rec) => rec,
        };
        let ghost k0 = choose|i: int|
            0 <= i < self.info.game_data.recipes@.len() && (
            #[trigger] self.info.game_data.recipes@[i])@ == rref@ && rref@.name == recipe_name@
                && (forall|j: int|
                0 <= j < i ==> (#[trigger] self.info.game_data.recipes@[j]@).name
                    != recipe_name@);
        proof {
            assert(self.info.game_data.first_recipe_at(recipe_name@, k0));
        }
        let recipe = rref.clone();
        let ghost rec_v = recipe@;
        let chosen: CrafterName;
        let ghost ci0: int;
        match self.info.crafters_for_category(&recipe.category) {
            Err(e) => {
                proof {
                    if add_crafter_ok(self.info, recipe_name@, crafter) {
                        let k = choose|k: int|
                            #[trigger] self.info.game_data.first_recipe_at(recipe_name@, k)
                                && add_crafter_ok_from(
                                self.info,
                                self.info.game_data.recipes@[k]@,
                                crafter,
                            );
                        lemma_first_recipe_unique(self.info.game_data, recipe_name@, k0, k);
                        let ci = choose|ci: int|
                            #[trigger] self.info.first_category_at(rec_v.category, ci);
                        assert(self.info.category_known(rec_v.category));
                    }
                }
                return Err(e);
            },
            Ok(crafters) => {
                proof {
                    ci0 = choose|i: int|
                        0 <= i < self.info.category_to_crafter@.len() && (
                        #[trigger] self.info.category_to_crafter@[i]).1 == *crafters
                            && self.info.category_to_crafter@[i].0@ == recipe.category@ && (forall|
                            j: int,
                        |
                            0 <= j < i ==> (#[trigger] self.info.category_to_crafter@[j]).0@
                                != recipe.category@);
                    assert(self.info.first_category_at(rec_v.category, ci0));
                }
                if crafters.len() == 0 {
                    proof {
                        self.lemma_not_ok_at_category(recipe_name@, crafter, k0, rec_v, ci0);
                    }
                    return Err(Error::UnknownCategory);
                }
                match crafter {
                    Some(c) => {
                        if !crate::info::contains_name(crafters, c) {
                            proof {
                                self.lemma_not_ok_at_category(
                                    recipe_name@,
                                    crafter,
                                    k0,
                                    rec_v,
                                    ci0,
                                );
                            }
                            return Err(Error::CrafterNotEligible);
                        }
                        chosen = c.clone();
                    },
                    None => {
                        match self.info.auto_select_crafter(crafters) {
                            Some(c) => {
                                chosen = c;
                            },
                            None => {
                                proof {
                                    self.lemma_not_ok_at_category(
                                        recipe_name@,
                                        crafter,
                                        k0,
                                        rec_v,
                                        ci0,
                                    );
                                }
                                return Err(Error::AmbiguousCrafter);
                            },
                        }
                    },
                }
                proof {
                    assert(chosen_crafter_name(
                        self.info,
                        self.info.category_to_crafter@[ci0].1@,
                        crafter,
                    ) == Some(chosen@));
                }
            },
        }
        let crafter_obj = match self.info.crafter(&chosen) {
            Err(e) => {
                proof {
                    self.lemma_not_ok_at_crafter(recipe_name@, crafter, k0, rec_v, ci0, chosen@);
                }
                return Err(e);
            },
            Ok(c) => c.clone(),
        };
        if recipe.energy.is_zero() {
            proof {
                assert(q_eq(rec_v.energy, q_int(0)));
                self.lemma_not_ok_at_energy(recipe_name@, crafter, k0, rec_v, ci0, chosen@);
            }
            return Err(Error::NumericalFailure);
        }
        proof {
            // Every check passed: this is exactly the success condition.
            assert(add_crafter_ok_from(self.info, rec_v, crafter)) by {
                assert(self.info.first_category_at(rec_v.category, ci0));
                assert(self.info.crafter_named(chosen@));
            }
            assert(add_crafter_ok(self.info, recipe_name@, crafter)) by {
                assert(self.info.game_data.recipes@[k0]@ == rec_v);
            }
        }
        let auto_constraint = self.machines.len() == 0 && self.item_speed_constraints.len() == 0;
        let first_product: Option<ItemName> = if recipe.products.len() > 0 {
            Some(recipe.products[0].name.clone())
        } else {
            None
        };
        proof {
            assert(recipe.products.deep_view().len() == recipe.products@.len());
            assert(recipe.products.deep_view() == rec_v.products);
            if recipe.products@.len() > 0 {
                assert(recipe.products.deep_view()[0] == recipe.products@[0]@);
            }
        }
        self.solved = false;
        let m = Machine {
            kind: MachineKind::Crafter {
                crafter: crafter_obj,
                recipe,
                modules: Vec::new(),
                beacons: Vec::new(),
                count_constraint: None,
            },
            crafter_count: MachineCount::one(),
        };
        proof {
            crate::rational::lemma_q_zero_iff(rec_v.energy);
            self.lemma_new_crafter_known(m, rec_v);
        }
        let ghost m_kind = m.kind;
        self.machines.push(m);
        if auto_constraint {
            match first_product {
                Some(p) => {
                    self.item_speed_constraints.push((p, Speed::one()));
                },
                None => {
                },
            }
        }
        let ghost pre_ms = self.machines@;
        let ghost pre_cs = self.item_speed_constraints@;
        self.after_machines_changed();
        proof {
            let msf = self.machines@;
            let jlast = pre_ms.len() - 1;
            assert(pre_ms[jlast].kind == m_kind);
            assert(pre_ms[jlast].kind is Crafter);
            let iw = choose|i: int|
                0 <= i < msf.len() && (#[trigger] msf[i]).kind == pre_ms[jlast].kind;
            assert(match msf[iw].kind {
                MachineKind::Crafter { crafter: c, recipe, modules, beacons, count_constraint } => recipe.name@
                    == recipe_name@ && modules@.len() == 0 && beacons@.len() == 0
                    && count_constraint is None && (crafter matches Some(cw) ==> c.name@ == cw@),
                _ => false,
            });
            // Prior machines sit below the pushed one.
            assert forall|j: int|
                0 <= j < old(self).machines@.len() && (#[trigger] old(self).machines@[j]).kind is Crafter
                implies exists|i: int|
                0 <= i < msf.len() && (#[trigger] msf[i]).kind == old(self).machines@[j].kind by {
                assert(pre_ms[j] == old(self).machines@[j]);
            }
            // The bootstrap constraint, and only then.
            assert(self.item_speed_constraints@ == pre_cs);
            if auto_constraint && old(self).machines@.len() == 0 && old(self).item_speed_constraints@.len() == 0 {
                assert(old(self).info.game_data.first_recipe_at(recipe_name@, k0));
                if rec_v.products.len() > 0 {
                    assert(pre_cs.len() == 1);
                    assert(pre_cs[0].1@ == q_int(1));
                }
            }
        }
        Ok(())
    }

    /// With eligibility failing at the category stage, the success condition
    /// is false.
    proof fn lemma_not_ok_at_category(
        &self,
        recipe_name: Seq<char>,
        crafter: Option<&CrafterName>,
        k0: int,
        rec_v: crate::game_data::RecipeV,
        ci0: int,
    )
        requires
            self.info.game_data.first_recipe_at(recipe_name, k0),
            self.info.game_data.recipes@[k0]@ == rec_v,
            self.info.first_category_at(rec_v.category, ci0),
            self.info.category_to_crafter@[ci0].1@.len() == 0 || (chosen_crafter_name(
                self.info,
                self.info.category_to_crafter@[ci0].1@,
                crafter,
            ) is None),
        ensures
            !add_crafter_ok(self.info, recipe_name, crafter),
    {
        if add_crafter_ok(self.info, recipe_name, crafter) {
            let k = choose|k: int|
                #[trigger] self.info.game_data.first_recipe_at(recipe_name, k)
                    && add_crafter_ok_from(self.info, self.info.game_data.recipes@[k]@, crafter);
            lemma_first_recipe_unique(self.info.game_data, recipe_name, k0, k);
            let ci = choose|ci: int|
                #[trigger] self.info.first_category_at(rec_v.category, ci) && {
                    let names = self.info.category_to_crafter@[ci].1;
                    names@.len() > 0 && (match chosen_crafter_name(self.info, names@, crafter) {
                        Some(cn) => self.info.crafter_named(cn) && !q_eq(rec_v.energy, q_int(0)),
                        None => false,
                    })
                };
            lemma_first_category_unique(self.info, rec_v.category, ci0, ci);
        }
    }

    /// With the chosen crafter missing from the crafter table, the success
    /// condition is false.
    proof fn lemma_not_ok_at_crafter(
        &self,
        recipe_name: Seq<char>,
        crafter: Option<&CrafterName>,
        k0: int,
        rec_v: crate::game_data::RecipeV,
        ci0: int,
        chosen: Seq<char>,
    )
        requires
            self.info.game_data.first_recipe_at(recipe_name, k0),
            self.info.game_data.recipes@[k0]@ == rec_v,
            self.info.first_category_at(rec_v.category, ci0),
            chosen_crafter_name(self.info, self.info.category_to_crafter@[ci0].1@, crafter)
                == Some(chosen),
            !self.info.crafter_named(chosen),
        ensures
            !add_crafter_ok(self.info, recipe_name, crafter),
    {
        if add_crafter_ok(self.info, recipe_name, crafter) {
            let k = choose|k: int|
                #[trigger] self.info.game_data.first_recipe_at(recipe_name, k)
                    && add_crafter_ok_from(self.info, self.info.game_data.recipes@[k]@, crafter);
            lemma_first_recipe_unique(self.info.game_data, recipe_name, k0, k);
            let ci = choose|ci: int|
                #[trigger] self.info.first_category_at(rec_v.category, ci) && {
                    let names = self.info.category_to_crafter@[ci].1;
                    names@.len() > 0 && (match chosen_crafter_name(self.info, names@, crafter) {
                        Some(cn) => self.info.crafter_named(cn) && !q_eq(rec_v.energy, q_int(0)),
                        None => false,
                    })
                };
            lemma_first_category_unique(self.info, rec_v.category, ci0, ci);
        }
    }

    /// With a zero time per craft, the success condition is false.
    proof fn lemma_not_ok_at_energy(
        &self,
        recipe_name: Seq<char>,
        crafter: Option<&CrafterName>,
        k0: int,
        rec_v: crate::game_data::RecipeV,
        ci0: int,
        chosen: Seq<char>,
    )
        requires
            self.info.game_data.first_recipe_at(recipe_name, k0),
            self.info.game_data.recipes@[k0]@ == rec_v,
            self.info.first_category_at(rec_v.category, ci0),
            chosen_crafter_name(self.info, self.info.category_to_crafter@[ci0].1@, crafter)
                == Some(chosen),
            q_eq(rec_v.energy, q_int(0)),
        ensures
            !add_crafter_ok(self.info, recipe_name, crafter),
    {
        if add_crafter_ok(self.info, recipe_name, crafter) {
            let k = choose|k: int|
                #[trigger] self.info.game_data.first_recipe_at(recipe_name, k)
                    && add_crafter_ok_from(self.info, self.info.game_data.recipes@[k]@, crafter);
            lemma_first_recipe_unique(self.info.game_data, recipe_name, k0, k);
            let ci = choose|ci: int|
                #[trigger] self.info.first_category_at(rec_v.category, ci) && {
                    let names = self.info.category_to_crafter@[ci].1;
                    names@.len() > 0 && (match chosen_crafter_name(self.info, names@, crafter) {
                        Some(cn) => self.info.crafter_named(cn) && !q_eq(rec_v.energy, q_int(0)),
                        None => false,
                    })
                };
            lemma_first_category_unique(self.info, rec_v.category, ci0, ci);
        }
    }

    /// A machine built from a recipe looked up in the game data touches only
    /// known items.
    proof fn lemma_new_crafter_known(&self, m: Machine, rec_v: crate::game_data::RecipeV)
        requires
            self.info.wf(),
            m.kind matches MachineKind::Crafter { recipe, .. } && recipe@ == rec_v,
            exists|i: int|
                0 <= i < self.info.game_data.recipes@.len()
                    && (#[trigger] self.info.game_data.recipes@[i])@ == rec_v,
        ensures
            machine_items_known(self.info, m),
    {
        let i = choose|i: int|
            0 <= i < self.info.game_data.recipes@.len()
                && (#[trigger] self.info.game_data.recipes@[i])@ == rec_v;
        let table_rec = self.info.game_data.recipes@[i];
        assert(self.info.recipe_items_known(table_rec));
        let recipe = m.kind->Crafter_recipe;
        assert(recipe.ingredients.deep_view() == table_rec.ingredients.deep_view());
        assert(recipe.products.deep_view() == table_rec.products.deep_view());
        assert(recipe.ingredients.deep_view().len() == recipe.ingredients@.len());
        assert(table_rec.ingredients.deep_view().len() == table_rec.ingredients@.len());
        assert(recipe.products.deep_view().len() == recipe.products@.len());
        assert(table_rec.products.deep_view().len() == table_rec.products@.len());
        assert(recipe.ingredients@.len() == table_rec.ingredients@.len());
        assert(recipe.products@.len() == table_rec.products@.len());
        assert forall|j: int| 0 <= j < item_speeds_len(m) implies self.info.item_known(
            #[trigger] item_speed_name(m, j),
        ) by {
            let ni = recipe.ingredients@.len() as int;
            if j < ni {
                assert(recipe.ingredients.deep_view()[j] == recipe.ingredients@[j]@);
                assert(table_rec.ingredients.deep_view()[j] == table_rec.ingredients@[j]@);
                assert(recipe.ingredients@[j]@.name == table_rec.ingredients@[j]@.name);
                assert(item_speed_name(m, j) == table_rec.ingredients@[j].name@);
            } else {
                let jp = j - ni;
                assert(recipe.products.deep_view()[jp] == recipe.products@[jp]@);
                assert(table_rec.products.deep_view()[jp] == table_rec.products@[jp]@);
                assert(recipe.products@[jp]@.name == table_rec.products@[jp]@.name);
                assert(item_speed_name(m, j) == table_rec.products@[jp].name@);
            }
        }
    }

    /// Remove a machine by index; sources and sinks are re-derived and the
    /// constraints are dropped when the list becomes empty.
    pub fn remove_machine(&mut self, index: usize) -> (r: Result<(), Error>)
        requires
            old(self).wf(),
        ensures
            final(self).wf(),
            final(self).info == old(self).info,
            r is Err ==> *final(self) == *old(self),
            (r == Err::<(), Error>(Error::InvalidMachineIndex)) <==> index >= old(self).machines@.len(),
            (r is Ok) <==> index < old(self).machines@.len(),
            r is Ok ==> sources_sinks_synced(final(self).machines@),
            // Every other crafter machine survives (sources and sinks are
            // re-derived).
            r is Ok ==> (forall|j: int|
                0 <= j < old(self).machines@.len() && j != index && (#[trigger] old(self).machines@[j]).kind is Crafter ==> exists|i: int|
                    0 <= i < final(self).machines@.len() && (#[trigger] final(self).machines@[i]).kind == old(self).machines@[j].kind),
            // An emptied machine list drops the constraints.
            r is Ok && final(self).machines@.len() == 0 ==> final(self).item_speed_constraints@.len() == 0,
            final(self).solved ==> final(self).solution_ok(),
    {
        if index >= self.machines.len() {
            return Err(Error::InvalidMachineIndex);
        }
        self.solved = false;
        self.machines.remove(index);
        let ghost mid = self.machines@;
        proof {
            assert forall|k: int| 0 <= k < self.machines@.len() implies machine_wf(
                #[trigger] self.machines@[k],
            ) && machine_caps_ok(self.machines@[k]) && machine_items_known(
                self.info,
                self.machines@[k],
            ) by {
                if k < index {
                    assert(self.machines@[k] == old(self).machines@[k]);
                } else {
                    assert(self.machines@[k] == old(self).machines@[k + 1]);
                }
            }
        }
        self.after_machines_changed();
        proof {
            assert forall|j: int|
                0 <= j < old(self).machines@.len() && j != index && (#[trigger] old(self).machines@[j]).kind is Crafter implies exists|i: int|
                0 <= i < self.machines@.len() && (#[trigger] self.machines@[i]).kind == old(self).machines@[j].kind by {
                if j < index {
                    assert(mid[j] == old(self).machines@[j]);
                } else {
                    assert(mid[j - 1] == old(self).machines@[j]);
                }
            }
        }
        if self.machines.len() == 0 {
            self.item_speed_constraints.clear();
        }
        Ok(())
    }

    /// All distinct item names currently touched by any machine: complete,
    /// sound and duplicate-free, in first-touch order.
    pub fn added_items(&self) -> (r: Vec<ItemName>)
        ensures
            forall|i: int, j: int|
                0 <= i < self.machines@.len() && 0 <= j < item_speeds_len(
                    #[trigger] self.machines@[i],
                ) ==> names_contain(r@, #[trigger] item_speed_name(self.machines@[i], j)),
            forall|k: int| 0 <= k < r@.len() ==> any_touches(self.machines@, (#[trigger] r@[k])@),
            forall|k1: int, k2: int| 0 <= k1 < k2 < r@.len() ==> (#[trigger] r@[k1])@ != (
            #[trigger] r@[k2])@,
    {
        added_items_of(&self.machines)
    }

    /// The serializable form of the current session.
    pub fn snippet(&self) -> (r: Snippet)
        ensures
            r.machines@.len() == self.machines@.len(),
            forall|i: int|
                0 <= i < self.machines@.len() ==> snippet_matches(
                    #[trigger] r.machines@[i],
                    self.machines@[i],
                ),
            r.item_speed_constraints@.len() == self.item_speed_constraints@.len(),
            forall|k: int|
                0 <= k < self.item_speed_constraints@.len() ==> (#[trigger] r.item_speed_constraints@[k]).0@
                    == self.item_speed_constraints@[k].0@ && r.item_speed_constraints@[k].1@
                    == self.item_speed_constraints@[k].1@,
    {
        let mut machines: Vec<MachineSnippet> = Vec::new();
        let mut i: usize = 0;
        while i < self.machines.len()
            invariant
                i <= self.machines@.len(),
                machines@.len() == i,
                forall|k: int|
                    0 <= k < i ==> snippet_matches(#[trigger] machines@[k], self.machines@[k]),
            decreases self.machines@.len() - i,
        {
            machines.push(machine_snippet_of(&self.machines[i]));
            i = i + 1;
        }
        let mut cs: Vec<(ItemName, Speed)> = Vec::new();
        let mut k: usize = 0;
        while k < self.item_speed_constraints.len()
            invariant
                k <= self.item_speed_constraints@.len(),
                cs@.len() == k,
                forall|j: int|
                    0 <= j < k ==> (#[trigger] cs@[j]).0@ == self.item_speed_constraints@[j].0@
                        && cs@[j].1@ == self.item_speed_constraints@[j].1@,
            decreases self.item_speed_constraints@.len() - k,
        {
            let entry = (
                self.item_speed_constraints[k].0.clone(),
                self.item_speed_constraints[k].1,
            );
            cs.push(entry);
            k = k + 1;
        }
        Snippet { machines, item_speed_constraints: cs }
    }
}


/// One module name resolves and its first table entry may be installed:
/// it is a speed module, or productivity is allowed here.
pub open spec fn module_ok_one(info: Info, t: Seq<char>, allows: bool) -> bool {
    exists|k: int|
        #[trigger] info.first_module_at(t, k) && (info.modules@[k].type_ == ModuleType::Speed
            || allows)
}

pub open spec fn modules_ok(info: Info, names: Seq<ModuleName>, allows: bool) -> bool {
    forall|j: int| 0 <= j < names.len() ==> module_ok_one(info, (#[trigger] names[j])@, allows)
}

/// A beacon module name resolves to a non-productivity module.
pub open spec fn beacon_module_ok(info: Info, t: Seq<char>) -> bool {
    exists|k: int|
        #[trigger] info.first_module_at(t, k) && info.modules@[k].type_
            != ModuleType::Productivity
}

pub open spec fn beacons_ok(info: Info, bs: Seq<crate::snippet::BeaconSnippet>) -> bool {
    forall|b: int|
        0 <= b < bs.len() ==> (#[trigger] bs[b]).modules@.len() <= 2 && (forall|j: int|
            0 <= j < bs[b].modules@.len() ==> beacon_module_ok(info, (#[trigger] bs[b].modules@[j])@))
}

/// Exactly the machines and names on which `set_crafter` succeeds: the
/// machine is a crafter and the new name is eligible for its recipe's
/// category and present in the crafter table.
pub open spec fn set_crafter_ok(info: Info, m: Machine, new_name: Seq<char>) -> bool {
    match m.kind {
        MachineKind::Crafter { recipe, .. } => (exists|ci: int|
            #[trigger] info.first_category_at(recipe.category@, ci) && crate::info::name_in(
                info.category_to_crafter@[ci].1@,
                new_name,
            )) && info.crafter_named(new_name),
        _ => false,
    }
}

/// Some constraint entry carries this key.
pub open spec fn has_cs_key(cs: Seq<(ItemName, Speed)>, t: Seq<char>) -> bool {
    exists|a: int| 0 <= a < cs.len() && (#[trigger] cs[a]).0@ == t
}

/// The entry's key and value both occur together in the list.
pub open spec fn cs_entry_of(snip_cs: Seq<(ItemName, Speed)>, e: (ItemName, Speed)) -> bool {
    exists|j: int|
        0 <= j < snip_cs.len() && (#[trigger] snip_cs[j]).0@ == e.0@ && snip_cs[j].1@ == e.1@
}

/// One snippet entry resolves against the data tables.
pub open spec fn entry_loadable(info: Info, s: MachineSnippet) -> bool {
    match s {
        MachineSnippet::Source(ss) => info.item_known(ss.item@),
        MachineSnippet::Sink(ss) => info.item_known(ss.item@),
        MachineSnippet::Crafter(cs) => create_crafter_ok(info, cs),
    }
}

/// Every entry of the snippet resolves: exactly the snippets `load_snippet`
/// accepts.
pub open spec fn snippet_loadable(info: Info, snip: Snippet) -> bool {
    forall|k: int|
        0 <= k < snip.machines@.len() ==> entry_loadable(info, #[trigger] snip.machines@[k])
}

/// Whether a snippet names a machine depends only on the machine's kind.
proof fn lemma_snippet_matches_kind(s: MachineSnippet, m1: Machine, m2: Machine)
    requires
        m1.kind == m2.kind,
        snippet_matches(s, m1),
    ensures
        snippet_matches(s, m2),
{
}

/// Exactly the snippets `create_crafter` resolves into a machine.
pub open spec fn create_crafter_ok(info: Info, cs: crate::snippet::CrafterSnippet) -> bool {
    exists|k: int|
        #[trigger] info.game_data.first_recipe_at(cs.recipe@, k) && create_crafter_ok_from(
            info,
            info.game_data.recipes@[k]@,
            cs,
        )
}

pub open spec fn create_crafter_ok_from(
    info: Info,
    rec: crate::game_data::RecipeV,
    cs: crate::snippet::CrafterSnippet,
) -> bool {
    &&& exists|ci: int|
        #[trigger] info.first_category_at(rec.category, ci)
            && info.category_to_crafter@[ci].1@.len() > 0 && crate::info::name_in(
            info.category_to_crafter@[ci].1@,
            cs.crafter@,
        )
    &&& exists|ck: int|
        #[trigger] info.first_crafter_at(cs.crafter@, ck) && cs.modules@.len()
            <= info.crafters@[ck].module_inventory_size
    &&& !q_eq(rec.energy, q_int(0))
    &&& modules_ok(info, cs.modules@, rec.allowed_effects.productivity)
    &&& beacons_ok(info, cs.beacons@)
}

proof fn lemma_first_crafter_unique(info: Info, t: Seq<char>, k1: int, k2: int)
    requires
        info.first_crafter_at(t, k1),
        info.first_crafter_at(t, k2),
    ensures
        k1 == k2,
{
}

impl Editor {
    /// Resolve a crafter snippet into a live machine, validating every
    /// reference and every capacity rule. Success is owed exactly on the
    /// snippets `create_crafter_ok` describes, and the machine then carries
    /// precisely the snippet's content.
    pub fn create_crafter(&self, cs: &crate::snippet::CrafterSnippet) -> (r: Result<Machine, Error>)
        requires
            self.wf(),
        ensures
            (r is Ok) <==> create_crafter_ok(self.info, *cs),
            r matches Err(e) ==> (e == Error::UnknownRecipe || e == Error::UnknownCategory || e
                == Error::CrafterNotEligible || e == Error::UnknownCrafter || e
                == Error::NumericalFailure || e == Error::UnknownModule || e
                == Error::ProductivityNotAllowed || e == Error::ModuleCapacityExceeded || e
                == Error::TooManyBeaconModules || e == Error::ProductivityInBeacon),
            r matches Ok(m) ==> machine_wf(m) && machine_caps_ok(m) && machine_items_known(
                self.info,
                m,
            ) && snippet_matches(MachineSnippet::Crafter(*cs), m) && m.crafter_count@ == q_int(1),
    {
        let rref = match self.info.game_data.recipe(&cs.recipe) {
            Err(e) => {
                proof {
                    if create_crafter_ok(self.info, *cs) {
                        let k = choose|k: int|
                            #[trigger] self.info.game_data.first_recipe_at(cs.recipe@, k)
                                && create_crafter_ok_from(
                                self.info,
                                self.info.game_data.recipes@[k]@,
                                *cs,
                            );
                        assert(self.info.game_data.recipe_named(cs.recipe@));
                    }
                }
                return Err(e);
            },
            Ok(rec) => rec,
        };
        let ghost k0 = choose|i: int|
            0 <= i < self.info.game_data.recipes@.len() && (
            #[trigger] self.info.game_data.recipes@[i])@ == rref@ && rref@.name == cs.recipe@ && (
            forall|j: int|
                0 <= j < i ==> (#[trigger] self.info.game_data.recipes@[j]@).name != cs.recipe@);
        proof {
            assert(self.info.game_data.first_recipe_at(cs.recipe@, k0));
        }
        let recipe = rref.clone();
        let ghost rec_v = recipe@;
        let ghost mut ci0: int = 0;
        match self.info.crafters_for_category(&recipe.category) {
            Err(e) => {
                proof {
                    if create_crafter_ok(self.info, *cs) {
                        let k = choose|k: int|
                            #[trigger] self.info.game_data.first_recipe_at(cs.recipe@, k)
                                && create_crafter_ok_from(
                                self.info,
                                self.info.game_data.recipes@[k]@,
                                *cs,
                            );
                        lemma_first_recipe_unique(self.info.game_data, cs.recipe@, k0, k);
                        let ci = choose|ci: int|
                            #[trigger] self.info.first_category_at(rec_v.category, ci);
                        assert(self.info.category_known(rec_v.category));
                    }
                }
                return Err(e);
            },
            Ok(crafters) => {
                proof {
                    ci0 = choose|i: int|
                        0 <= i < self.info.category_to_crafter@.len() && (
                        #[trigger] self.info.category_to_crafter@[i]).1 == *crafters
                            && self.info.category_to_crafter@[i].0@ == recipe.category@ && (forall|
                            j: int,
                        |
                            0 <= j < i ==> (#[trigger] self.info.category_to_crafter@[j]).0@
                                != recipe.category@);
                    assert(self.info.first_category_at(rec_v.category, ci0));
                }
                if crafters.len() == 0 {
                    proof {
                        self.lemma_create_not_ok_at_category(*cs, k0, rec_v, ci0);
                    }
                    return Err(Error::UnknownCategory);
                }
                if !crate::info::contains_name(crafters, &cs.crafter) {
                    proof {
                        self.lemma_create_not_ok_at_category(*cs, k0, rec_v, ci0);
                    }
                    return Err(Error::CrafterNotEligible);
                }
            },
        }
        proof {
            assert(self.info.first_category_at(rec_v.category, ci0)
                && self.info.category_to_crafter@[ci0].1@.len() > 0 && crate::info::name_in(
                self.info.category_to_crafter@[ci0].1@,
                cs.crafter@,
            ));
        }
        let cref = match self.info.crafter(&cs.crafter) {
            Err(e) => {
                proof {
                    if create_crafter_ok(self.info, *cs) {
                        let k = choose|k: int|
                            #[trigger] self.info.game_data.first_recipe_at(cs.recipe@, k)
                                && create_crafter_ok_from(
                                self.info,
                                self.info.game_data.recipes@[k]@,
                                *cs,
                            );
                        let ck = choose|ck: int|
                            #[trigger] self.info.first_crafter_at(cs.crafter@, ck) && cs.modules@.len()
                                <= self.info.crafters@[ck].module_inventory_size;
                        assert(self.info.crafter_named(cs.crafter@));
                    }
                }
                return Err(e);
            },
            Ok(c) => c,
        };
        let ghost crafter_entry = *cref;
        let crafter_obj = cref.clone();
        let ghost ck0 = choose|i: int|
            0 <= i < self.info.crafters@.len() && #[trigger] self.info.crafters@[i]
                == crafter_entry && crafter_entry.name@ == cs.crafter@ && (forall|j: int|
                0 <= j < i ==> (#[trigger] self.info.crafters@[j]).name@ != cs.crafter@);
        proof {
            assert(self.info.first_crafter_at(cs.crafter@, ck0));
            assert(crafter_obj.module_inventory_size == crafter_entry.module_inventory_size);
            assert(crafter_obj.name@ == cs.crafter@);
        }
        if recipe.energy.is_zero() {
            proof {
                assert(q_eq(rec_v.energy, q_int(0)));
                if create_crafter_ok(self.info, *cs) {
                    let k = choose|k: int|
                        #[trigger] self.info.game_data.first_recipe_at(cs.recipe@, k)
                            && create_crafter_ok_from(
                            self.info,
                            self.info.game_data.recipes@[k]@,
                            *cs,
                        );
                    lemma_first_recipe_unique(self.info.game_data, cs.recipe@, k0, k);
                }
            }
            return Err(Error::NumericalFailure);
        }
        let allows = recipe.allowed_effects.productivity;
        let mut modules: Vec<Module> = Vec::new();
        let mut i: usize = 0;
        while i < cs.modules.len()
            invariant
                self.wf(),
                i <= cs.modules@.len(),
                modules@.len() == i,
                rec_v == recipe@,
                self.info.game_data.first_recipe_at(cs.recipe@, k0),
                self.info.game_data.recipes@[k0]@ == rec_v,
                allows == rec_v.allowed_effects.productivity,
                forall|j: int|
                    0 <= j < i ==> module_ok_one(self.info, (#[trigger] cs.modules@[j])@, allows),
                forall|j: int|
                    0 <= j < i ==> (#[trigger] modules@[j]).name@ == cs.modules@[j]@,
                forall|j: int|
                    0 <= j < i && (#[trigger] modules@[j]).type_ == ModuleType::Productivity
                        ==> allows,
            decreases cs.modules@.len() - i,
        {
            let mref = match self.info.module(&cs.modules[i]) {
                Err(e) => {
                    proof {
                        assert(!module_ok_one(self.info, cs.modules@[i as int]@, allows)) by {
                            if module_ok_one(self.info, cs.modules@[i as int]@, allows) {
                                let k1 = choose|k: int|
                                    #[trigger] self.info.first_module_at(
                                        cs.modules@[i as int]@,
                                        k,
                                    ) && (self.info.modules@[k].type_ == ModuleType::Speed
                                        || allows);
                                assert(self.info.module_named(cs.modules@[i as int]@));
                            }
                        }
                        self.lemma_create_not_ok_at_modules(*cs, k0, rec_v, i as int, allows);
                    }
                    return Err(e);
                },
                Ok(m) => m,
            };
            let ghost entry = *mref;
            let md = mref.clone();
            let is_prod = match md.type_ {
                ModuleType::Productivity => true,
                ModuleType::Speed => false,
            };
            proof {
                let km = choose|k: int|
                    0 <= k < self.info.modules@.len() && #[trigger] self.info.modules@[k] == entry
                        && entry.name@ == cs.modules@[i as int]@ && (forall|j: int|
                        0 <= j < k ==> (#[trigger] self.info.modules@[j]).name@
                            != cs.modules@[i as int]@);
                assert(self.info.first_module_at(cs.modules@[i as int]@, km));
                assert(md.type_ == entry.type_);
                if !is_prod || allows {
                    assert(module_ok_one(self.info, cs.modules@[i as int]@, allows));
                } else {
                    assert(!module_ok_one(self.info, cs.modules@[i as int]@, allows)) by {
                        if module_ok_one(self.info, cs.modules@[i as int]@, allows) {
                            let k1 = choose|k: int|
                                #[trigger] self.info.first_module_at(cs.modules@[i as int]@, k)
                                    && (self.info.modules@[k].type_ == ModuleType::Speed
                                    || allows);
                            lemma_first_module_unique(
                                self.info,
                                cs.modules@[i as int]@,
                                km,
                                k1,
                            );
                        }
                    }
                }
            }
            if is_prod && !allows {
                proof {
                    self.lemma_create_not_ok_at_modules(*cs, k0, rec_v, i as int, allows);
                }
                return Err(Error::ProductivityNotAllowed);
            }
            modules.push(md);
            i = i + 1;
        }
        if modules.len() as u64 > crafter_obj.module_inventory_size {
            proof {
                self.lemma_create_not_ok_at_capacity(*cs, ck0);
            }
            return Err(Error::ModuleCapacityExceeded);
        }
        let mut beacons: Vec<Beacon> = Vec::new();
        let mut b: usize = 0;
        while b < cs.beacons.len()
            invariant
                self.wf(),
                b <= cs.beacons@.len(),
                beacons@.len() == b,
                rec_v == recipe@,
                self.info.game_data.first_recipe_at(cs.recipe@, k0),
                self.info.game_data.recipes@[k0]@ == rec_v,
                forall|bb: int|
                    0 <= bb < b ==> (#[trigger] cs.beacons@[bb]).modules@.len() <= 2 && (forall|
                        j: int,
                    |
                        0 <= j < cs.beacons@[bb].modules@.len() ==> beacon_module_ok(
                            self.info,
                            (#[trigger] cs.beacons@[bb].modules@[j])@,
                        )),
                forall|bb: int| 0 <= bb < b ==> (#[trigger] beacons@[bb]).modules@.len() <= 2,
                forall|bb: int|
                    0 <= bb < b ==> (#[trigger] beacons@[bb]).modules@.len()
                        == cs.beacons@[bb].modules@.len(),
                forall|bb: int, j: int|
                    0 <= bb < b && 0 <= j < (#[trigger] beacons@[bb]).modules@.len() ==> (
                    #[trigger] beacons@[bb].modules@[j]).name@ == cs.beacons@[bb].modules@[j]@,
                forall|bb: int, j: int|
                    0 <= bb < b && 0 <= j < (#[trigger] beacons@[bb]).modules@.len() ==> (
                    #[trigger] beacons@[bb].modules@[j]).type_ != ModuleType::Productivity,
            decreases cs.beacons@.len() - b,
        {
            if cs.beacons[b].modules.len() > 2 {
                proof {
                    self.lemma_create_not_ok_at_beacons(*cs, k0, rec_v, b as int);
                }
                return Err(Error::TooManyBeaconModules);
            }
            let mut bmods: Vec<Module> = Vec::new();
            let mut j: usize = 0;
            while j < cs.beacons[b].modules.len()
                invariant
                    self.wf(),
                    b < cs.beacons@.len(),
                    j <= cs.beacons@[b as int].modules@.len(),
                    cs.beacons@[b as int].modules@.len() <= 2,
                    rec_v == recipe@,
                    self.info.game_data.first_recipe_at(cs.recipe@, k0),
                    self.info.game_data.recipes@[k0]@ == rec_v,
                    bmods@.len() == j,
                    forall|jj: int|
                        0 <= jj < j ==> beacon_module_ok(
                            self.info,
                            (#[trigger] cs.beacons@[b as int].modules@[jj])@,
                        ),
                    forall|jj: int|
                        0 <= jj < j ==> (#[trigger] bmods@[jj]).name@ == cs.beacons@[b as int].modules@[jj]@,
                    forall|jj: int|
                        0 <= jj < j ==> (#[trigger] bmods@[jj]).type_ != ModuleType::Productivity,
                decreases cs.beacons@[b as int].modules@.len() - j,
            {
                let mref = match self.info.module(&cs.beacons[b].modules[j]) {
                    Err(e) => {
                        proof {
                            assert(!beacon_module_ok(
                                self.info,
                                cs.beacons@[b as int].modules@[j as int]@,
                            )) by {
                                if beacon_module_ok(
                                    self.info,
                                    cs.beacons@[b as int].modules@[j as int]@,
                                ) {
                                    let k1 = choose|k: int|
                                        #[trigger] self.info.first_module_at(
                                            cs.beacons@[b as int].modules@[j as int]@,
                                            k,
                                        ) && self.info.modules@[k].type_
                                            != ModuleType::Productivity;
                                    assert(self.info.module_named(
                                        cs.beacons@[b as int].modules@[j as int]@,
                                    ));
                                }
                            }
                            self.lemma_create_not_ok_at_beacon_module(
                                *cs,
                                k0,
                                rec_v,
                                b as int,
                                j as int,
                            );
                        }
                        return Err(e);
                    },
                    Ok(m) => m,
                };
                let ghost entry = *mref;
                let md = mref.clone();
                let is_prod = match md.type_ {
                    ModuleType::Productivity => true,
                    ModuleType::Speed => false,
                };
                proof {
                    let km = choose|k: int|
                        0 <= k < self.info.modules@.len() && #[trigger] self.info.modules@[k]
                            == entry && entry.name@ == cs.beacons@[b as int].modules@[j as int]@
                            && (forall|jj: int|
                            0 <= jj < k ==> (#[trigger] self.info.modules@[jj]).name@
                                != cs.beacons@[b as int].modules@[j as int]@);
                    assert(self.info.first_module_at(
                        cs.beacons@[b as int].modules@[j as int]@,
                        km,
                    ));
                    assert(md.type_ == entry.type_);
                    if !is_prod {
                        assert(beacon_module_ok(
                            self.info,
                            cs.beacons@[b as int].modules@[j as int]@,
                        ));
                    } else {
                        assert(!beacon_module_ok(
                            self.info,
                            cs.beacons@[b as int].modules@[j as int]@,
                        )) by {
                            if beacon_module_ok(
                                self.info,
                                cs.beacons@[b as int].modules@[j as int]@,
                            ) {
                                let k1 = choose|k: int|
                                    #[trigger] self.info.first_module_at(
                                        cs.beacons@[b as int].modules@[j as int]@,
                                        k,
                                    ) && self.info.modules@[k].type_ != ModuleType::Productivity;
                                lemma_first_module_unique(
                                    self.info,
                                    cs.beacons@[b as int].modules@[j as int]@,
                                    km,
                                    k1,
                                );
                            }
                        }
                    }
                }
                if is_prod {
                    proof {
                        self.lemma_create_not_ok_at_beacon_module(
                            *cs,
                            k0,
                            rec_v,
                            b as int,
                            j as int,
                        );
                    }
                    return Err(Error::ProductivityInBeacon);
                }
                bmods.push(md);
                j = j + 1;
            }
            beacons.push(Beacon { modules: bmods });
            b = b + 1;
        }
        let m = Machine {
            kind: MachineKind::Crafter {
                crafter: crafter_obj,
                recipe,
                modules,
                beacons,
                count_constraint: cs.count_constraint,
            },
            crafter_count: MachineCount::one(),
        };
        proof {
            crate::rational::lemma_q_zero_iff(rec_v.energy);
            self.lemma_new_crafter_known(m, rec_v);
            assert(self.info.first_crafter_at(cs.crafter@, ck0) && cs.modules@.len()
                <= self.info.crafters@[ck0].module_inventory_size);
            assert(create_crafter_ok_from(self.info, rec_v, *cs));
            assert(create_crafter_ok(self.info, *cs)) by {
                assert(self.info.game_data.recipes@[k0]@ == rec_v);
            }
            assert(snippet_matches(MachineSnippet::Crafter(*cs), m));
        }
        Ok(m)
    }

    /// Category-stage failures refute the success condition.
    proof fn lemma_create_not_ok_at_category(
        &self,
        cs: crate::snippet::CrafterSnippet,
        k0: int,
        rec_v: crate::game_data::RecipeV,
        ci0: int,
    )
        requires
            self.info.game_data.first_recipe_at(cs.recipe@, k0),
            self.info.game_data.recipes@[k0]@ == rec_v,
            self.info.first_category_at(rec_v.category, ci0),
            self.info.category_to_crafter@[ci0].1@.len() == 0 || !crate::info::name_in(
                self.info.category_to_crafter@[ci0].1@,
                cs.crafter@,
            ),
        ensures
            !create_crafter_ok(self.info, cs),
    {
        if create_crafter_ok(self.info, cs) {
            let k = choose|k: int|
                #[trigger] self.info.game_data.first_recipe_at(cs.recipe@, k)
                    && create_crafter_ok_from(self.info, self.info.game_data.recipes@[k]@, cs);
            lemma_first_recipe_unique(self.info.game_data, cs.recipe@, k0, k);
            let ci = choose|ci: int|
                #[trigger] self.info.first_category_at(rec_v.category, ci)
                    && self.info.category_to_crafter@[ci].1@.len() > 0 && crate::info::name_in(
                    self.info.category_to_crafter@[ci].1@,
                    cs.crafter@,
                );
            lemma_first_category_unique(self.info, rec_v.category, ci0, ci);
        }
    }

    /// A module that cannot be installed refutes the success condition.
    proof fn lemma_create_not_ok_at_modules(
        &self,
        cs: crate::snippet::CrafterSnippet,
        k0: int,
        rec_v: crate::game_data::RecipeV,
        i: int,
        allows: bool,
    )
        requires
            self.info.game_data.first_recipe_at(cs.recipe@, k0),
            self.info.game_data.recipes@[k0]@ == rec_v,
            allows == rec_v.allowed_effects.productivity,
            0 <= i < cs.modules@.len(),
            !module_ok_one(self.info, cs.modules@[i]@, allows),
        ensures
            !create_crafter_ok(self.info, cs),
    {
        if create_crafter_ok(self.info, cs) {
            let k = choose|k: int|
                #[trigger] self.info.game_data.first_recipe_at(cs.recipe@, k)
                    && create_crafter_ok_from(self.info, self.info.game_data.recipes@[k]@, cs);
            lemma_first_recipe_unique(self.info.game_data, cs.recipe@, k0, k);
            assert(module_ok_one(self.info, (cs.modules@[i])@, allows));
        }
    }

    /// An over-full module inventory refutes the success condition.
    proof fn lemma_create_not_ok_at_capacity(&self, cs: crate::snippet::CrafterSnippet, ck0: int)
        requires
            self.info.first_crafter_at(cs.crafter@, ck0),
            cs.modules@.len() > self.info.crafters@[ck0].module_inventory_size,
        ensures
            !create_crafter_ok(self.info, cs),
    {
        if create_crafter_ok(self.info, cs) {
            let k = choose|k: int|
                #[trigger] self.info.game_data.first_recipe_at(cs.recipe@, k)
                    && create_crafter_ok_from(self.info, self.info.game_data.recipes@[k]@, cs);
            let ck = choose|ck: int|
                #[trigger] self.info.first_crafter_at(cs.crafter@, ck) && cs.modules@.len()
                    <= self.info.crafters@[ck].module_inventory_size;
            lemma_first_crafter_unique(self.info, cs.crafter@, ck0, ck);
        }
    }

    /// An over-full beacon refutes the success condition.
    proof fn lemma_create_not_ok_at_beacons(
        &self,
        cs: crate::snippet::CrafterSnippet,
        k0: int,
        rec_v: crate::game_data::RecipeV,
        b: int,
    )
        requires
            0 <= b < cs.beacons@.len(),
            cs.beacons@[b].modules@.len() > 2,
        ensures
            !create_crafter_ok(self.info, cs),
    {
        if create_crafter_ok(self.info, cs) {
            let k = choose|k: int|
                #[trigger] self.info.game_data.first_recipe_at(cs.recipe@, k)
                    && create_crafter_ok_from(self.info, self.info.game_data.recipes@[k]@, cs);
            assert((cs.beacons@[b]).modules@.len() <= 2);
        }
    }

    /// A beacon module that cannot be installed refutes the success
    /// condition.
    proof fn lemma_create_not_ok_at_beacon_module(
        &self,
        cs: crate::snippet::CrafterSnippet,
        k0: int,
        rec_v: crate::game_data::RecipeV,
        b: int,
        j: int,
    )
        requires
            0 <= b < cs.beacons@.len(),
            0 <= j < cs.beacons@[b].modules@.len(),
            !beacon_module_ok(self.info, cs.beacons@[b].modules@[j]@),
        ensures
            !create_crafter_ok(self.info, cs),
    {
        if create_crafter_ok(self.info, cs) {
            let k = choose|k: int|
                #[trigger] self.info.game_data.first_recipe_at(cs.recipe@, k)
                    && create_crafter_ok_from(self.info, self.info.game_data.recipes@[k]@, cs);
            assert(beacon_module_ok(self.info, ((cs.beacons@[b]).modules@[j])@));
        }
    }

    /// Resolve a snippet into live machines and constraints, then re-derive
    /// sources and sinks and re-solve. A failed resolution leaves the editor
    /// unchanged; success is owed exactly when every entry resolves
    /// (`snippet_loadable`), and every crafter entry then has a live machine
    /// carrying its content.
    pub fn load_snippet(&mut self, snip: &Snippet) -> (r: Result<(), Error>)
        requires
            old(self).wf(),
        ensures
            final(self).wf(),
            final(self).info == old(self).info,
            r is Err ==> *final(self) == *old(self),
            r matches Err(e) ==> (e == Error::UnknownItem || e == Error::UnknownRecipe || e
                == Error::UnknownCategory || e == Error::CrafterNotEligible || e
                == Error::UnknownCrafter || e == Error::NumericalFailure || e
                == Error::UnknownModule || e == Error::ProductivityNotAllowed || e
                == Error::ModuleCapacityExceeded || e == Error::TooManyBeaconModules || e
                == Error::ProductivityInBeacon),
            (r is Ok) <==> snippet_loadable(old(self).info, *snip),
            r is Ok ==> sources_sinks_synced(final(self).machines@),
            // Every crafter entry of the snippet has a live machine carrying
            // exactly its content. (Explicit source and sink entries are
            // re-derived from the crafters' item usage, as on every edit.)
            r is Ok ==> (forall|k: int|
                0 <= k < snip.machines@.len() && ((#[trigger] snip.machines@[k]) is Crafter)
                    ==> exists|i: int|
                    0 <= i < final(self).machines@.len() && snippet_matches(
                        snip.machines@[k],
                        #[trigger] final(self).machines@[i],
                    )),
            // The loaded constraints are the snippet's, later entries
            // replacing earlier ones with the same key.
            r is Ok ==> (forall|k: int|
                0 <= k < final(self).item_speed_constraints@.len() ==> cs_entry_of(
                    snip.item_speed_constraints@,
                    #[trigger] final(self).item_speed_constraints@[k],
                )),
            r is Ok ==> (forall|j: int|
                0 <= j < snip.item_speed_constraints@.len() ==> has_cs_key(
                    final(self).item_speed_constraints@,
                    (#[trigger] snip.item_speed_constraints@[j]).0@,
                )),
            final(self).solved ==> final(self).solution_ok(),
    {
        let mut machines: Vec<Machine> = Vec::new();
        let mut i: usize = 0;
        while i < snip.machines.len()
            invariant
                *self == *old(self),
                old(self).wf(),
                i <= snip.machines@.len(),
                machines@.len() == i,
                forall|k: int|
                    0 <= k < i ==> machine_wf(#[trigger] machines@[k]) && machine_caps_ok(
                        machines@[k],
                    ) && machine_items_known(self.info, machines@[k]),
                forall|k: int|
                    0 <= k < i ==> snippet_matches(snip.machines@[k], #[trigger] machines@[k]),
                forall|k: int| 0 <= k < i ==> entry_loadable(self.info, #[trigger] snip.machines@[k]),
            decreases snip.machines@.len() - i,
        {
            match &snip.machines[i] {
                MachineSnippet::Source(ss) => {
                    if !self.info.has_item(&ss.item) {
                        return Err(Error::UnknownItem);
                    }
                    let m = Machine::new_source(ss.item.clone());
                    proof {
                        assert forall|j: int| 0 <= j < item_speeds_len(m) implies self.info.item_known(
                            #[trigger] item_speed_name(m, j),
                        ) by {
                            assert(item_speed_name(m, j) == ss.item@);
                        }
                    }
                    machines.push(m);
                },
                MachineSnippet::Sink(ss) => {
                    if !self.info.has_item(&ss.item) {
                        return Err(Error::UnknownItem);
                    }
                    let m = Machine::new_sink(ss.item.clone());
                    proof {
                        assert forall|j: int| 0 <= j < item_speeds_len(m) implies self.info.item_known(
                            #[trigger] item_speed_name(m, j),
                        ) by {
                            assert(item_speed_name(m, j) == ss.item@);
                        }
                    }
                    machines.push(m);
                },
                MachineSnippet::Crafter(cs) => {
                    let m = match self.create_crafter(cs) {
                        Err(e) => {
                            return Err(e);
                        },
                        Ok(m) => m,
                    };
                    machines.push(m);
                },
            }
            i = i + 1;
        }
        // Constraints, later entries replacing earlier ones with the same key.
        let mut cs2: Vec<(ItemName, Speed)> = Vec::new();
        let mut k: usize = 0;
        while k < snip.item_speed_constraints.len()
            invariant
                *self == *old(self),
                old(self).wf(),
                k <= snip.item_speed_constraints@.len(),
                forall|a: int, b2: int|
                    0 <= a < b2 < cs2@.len() ==> (#[trigger] cs2@[a]).0@ != (#[trigger] cs2@[b2]).0@,
                forall|a: int|
                    0 <= a < cs2@.len() ==> cs_entry_of(
                        snip.item_speed_constraints@,
                        #[trigger] cs2@[a],
                    ),
                forall|j: int|
                    0 <= j < k ==> has_cs_key(
                        cs2@,
                        (#[trigger] snip.item_speed_constraints@[j]).0@,
                    ),
            decreases snip.item_speed_constraints@.len() - k,
        {
            let key = snip.item_speed_constraints[k].0.clone();
            let val = snip.item_speed_constraints[k].1;
            let mut j: usize = 0;
            let mut replaced = false;
            while j < cs2.len() && !replaced
                invariant
                    j <= cs2@.len(),
                    k < snip.item_speed_constraints@.len(),
                    key@ == snip.item_speed_constraints@[k as int].0@,
                    val == snip.item_speed_constraints@[k as int].1,
                    forall|a: int, b2: int|
                        0 <= a < b2 < cs2@.len() ==> (#[trigger] cs2@[a]).0@ != (
                        #[trigger] cs2@[b2]).0@,
                    forall|a: int|
                        0 <= a < cs2@.len() ==> cs_entry_of(
                            snip.item_speed_constraints@,
                            #[trigger] cs2@[a],
                        ),
                    forall|jj: int|
                        0 <= jj < k ==> has_cs_key(
                            cs2@,
                            (#[trigger] snip.item_speed_constraints@[jj]).0@,
                        ),
                    replaced ==> has_cs_key(cs2@, key@),
                    !replaced ==> (forall|a: int| 0 <= a < j ==> (#[trigger] cs2@[a]).0@ != key@),
                decreases cs2@.len() - j,
            {
                if cs2[j].0 == key {
                    let ghost old_cs2 = cs2@;
                    cs2[j] = (key.clone(), val);
                    proof {
                        assert(cs2@[j as int].0@ == key@);
                        assert forall|a: int| 0 <= a < cs2@.len() implies cs_entry_of(
                            snip.item_speed_constraints@,
                            #[trigger] cs2@[a],
                        ) by {
                            if a == j {
                                assert((snip.item_speed_constraints@[k as int]).0@ == cs2@[a].0@
                                    && snip.item_speed_constraints@[k as int].1@ == cs2@[a].1@);
                            } else {
                                assert(cs2@[a] == old_cs2[a]);
                            }
                        }
                        assert forall|jj: int| 0 <= jj < k implies has_cs_key(
                            cs2@,
                            (#[trigger] snip.item_speed_constraints@[jj]).0@,
                        ) by {
                            let a0 = choose|a: int|
                                0 <= a < old_cs2.len() && (#[trigger] old_cs2[a]).0@
                                    == snip.item_speed_constraints@[jj].0@;
                            assert(cs2@[a0].0@ == old_cs2[a0].0@);
                        }
                    }
                    replaced = true;
                }
                j = j + 1;
            }
            if !replaced {
                let ghost old_cs2 = cs2@;
                cs2.push((key, val));
                proof {
                    let last = cs2@.len() - 1;
                    assert((snip.item_speed_constraints@[k as int]).0@ == cs2@[last].0@
                        && snip.item_speed_constraints@[k as int].1@ == cs2@[last].1@);
                    assert forall|a: int| 0 <= a < cs2@.len() implies cs_entry_of(
                        snip.item_speed_constraints@,
                        #[trigger] cs2@[a],
                    ) by {
                        if a < old_cs2.len() {
                            assert(cs2@[a] == old_cs2[a]);
                        }
                    }
                    assert forall|jj: int| 0 <= jj <= k implies has_cs_key(
                        cs2@,
                        (#[trigger] snip.item_speed_constraints@[jj]).0@,
                    ) by {
                        if jj < k {
                            let a0 = choose|a: int|
                                0 <= a < old_cs2.len() && (#[trigger] old_cs2[a]).0@
                                    == snip.item_speed_constraints@[jj].0@;
                            assert(cs2@[a0].0@ == old_cs2[a0].0@);
                        } else {
                            assert(cs2@[last].0@ == snip.item_speed_constraints@[jj].0@);
                        }
                    }
                }
            } else {
                proof {
                    assert forall|jj: int| 0 <= jj <= k implies has_cs_key(
                        cs2@,
                        (#[trigger] snip.item_speed_constraints@[jj]).0@,
                    ) by {}
                }
            }
            k = k + 1;
        }
        self.solved = false;
        self.machines = machines;
        self.item_speed_constraints = cs2;
        let ghost pre_ms = self.machines@;
        self.after_machines_changed();
        proof {
            assert forall|kk: int|
                0 <= kk < snip.machines@.len() && ((#[trigger] snip.machines@[kk])
                    is Crafter) implies exists|ii: int|
                0 <= ii < self.machines@.len() && snippet_matches(
                    snip.machines@[kk],
                    #[trigger] self.machines@[ii],
                ) by {
                assert(snippet_matches(snip.machines@[kk], pre_ms[kk]));
                assert(pre_ms[kk].kind is Crafter);
                let iw = choose|ii: int|
                    0 <= ii < self.machines@.len() && (#[trigger] self.machines@[ii]).kind
                        == pre_ms[kk].kind;
                lemma_snippet_matches_kind(snip.machines@[kk], pre_ms[kk], self.machines@[iw]);
            }
        }
        Ok(())
    }

    /// Change which crafter runs a machine's recipe; modules that no longer
    /// fit the new crafter's inventory are dropped from the end.
    pub fn set_crafter(&mut self, index: usize, new_crafter_name: &CrafterName) -> (r: Result<
        (),
        Error,
    >)
        requires
            old(self).wf(),
        ensures
            final(self).wf(),
            final(self).info == old(self).info,
            r matches Err(e) ==> (e == Error::InvalidMachineIndex || e == Error::NotACrafterMachine
                || e == Error::UnknownCategory || e == Error::CrafterNotEligible || e
                == Error::UnknownCrafter),
            r is Err ==> *final(self) == *old(self),
            (r == Err::<(), Error>(Error::InvalidMachineIndex)) <==> index >= old(self).machines@.len(),
            index < old(self).machines@.len() ==> ((r == Err::<(), Error>(
                Error::NotACrafterMachine,
            )) <==> !(old(self).machines@[index as int].kind is Crafter)),
            (r is Ok) <==> (index < old(self).machines@.len() && set_crafter_ok(
                old(self).info,
                old(self).machines@[index as int],
                new_crafter_name@,
            )),
            r is Ok ==> sources_sinks_synced(final(self).machines@),
            // The machine now runs on the new crafter; modules beyond the
            // new inventory were dropped from the end, everything else kept.
            r is Ok ==> exists|i: int|
                0 <= i < final(self).machines@.len() && (match (
                (#[trigger] final(self).machines@[i]).kind,
                old(self).machines@[index as int].kind,
            ) {
                    (
                        MachineKind::Crafter {
                            crafter: c2,
                            recipe: r2,
                            modules: nm,
                            beacons: b2,
                            count_constraint: p2,
                        },
                        MachineKind::Crafter {
                            recipe: r1,
                            modules: om,
                            beacons: b1,
                            count_constraint: p1,
                            ..
                        },
                    ) => c2.name@ == new_crafter_name@ && r2 == r1 && b2 == b1 && p2 == p1
                        && nm@.len() <= om@.len() && (forall|j: int|
                        0 <= j < nm@.len() ==> #[trigger] nm@[j] == om@[j]),
                    _ => false,
                }),
            final(self).solved ==> final(self).solution_ok(),
    {
        if index >= self.machines.len() {
            return Err(Error::InvalidMachineIndex);
        }
        let cat: crate::primitives::RecipeCategory;
        match &self.machines[index].kind {
            MachineKind::Crafter { recipe, .. } => {
                cat = recipe.category.clone();
            },
            _ => {
                return Err(Error::NotACrafterMachine);
            },
        }
        let ghost mach0 = self.machines@[index as int];
        match self.info.crafters_for_category(&cat) {
            Err(e) => {
                proof {
                    if set_crafter_ok(self.info, mach0, new_crafter_name@) {
                        let ci = choose|ci: int|
                            #[trigger] self.info.first_category_at(
                                mach0.kind->Crafter_recipe.category@,
                                ci,
                            ) && crate::info::name_in(
                                self.info.category_to_crafter@[ci].1@,
                                new_crafter_name@,
                            );
                        assert(self.info.category_known(cat@));
                    }
                }
                return Err(e);
            },
            Ok(crafters) => {
                let ghost ci0 = choose|i: int|
                    0 <= i < self.info.category_to_crafter@.len() && (
                    #[trigger] self.info.category_to_crafter@[i]).1 == *crafters
                        && self.info.category_to_crafter@[i].0@ == cat@ && (forall|j: int|
                        0 <= j < i ==> (#[trigger] self.info.category_to_crafter@[j]).0@ != cat@);
                if !crate::info::contains_name(crafters, new_crafter_name) {
                    proof {
                        assert(self.info.first_category_at(cat@, ci0));
                        if set_crafter_ok(self.info, mach0, new_crafter_name@) {
                            let ci = choose|ci: int|
                                #[trigger] self.info.first_category_at(
                                    mach0.kind->Crafter_recipe.category@,
                                    ci,
                                ) && crate::info::name_in(
                                    self.info.category_to_crafter@[ci].1@,
                                    new_crafter_name@,
                                );
                            lemma_first_category_unique(self.info, cat@, ci0, ci);
                        }
                    }
                    return Err(Error::CrafterNotEligible);
                }
                proof {
                    assert(self.info.first_category_at(cat@, ci0) && crate::info::name_in(
                        self.info.category_to_crafter@[ci0].1@,
                        new_crafter_name@,
                    ));
                }
            },
        }
        let new_crafter = match self.info.crafter(new_crafter_name) {
            Err(e) => {
                proof {
                    assert(!self.info.crafter_named(new_crafter_name@));
                }
                return Err(e);
            },
            Ok(c) => c.clone(),
        };
        proof {
            assert(new_crafter.name@ == new_crafter_name@);
            assert(set_crafter_ok(self.info, mach0, new_crafter_name@));
        }
        self.solved = false;
        let ghost new_cap = new_crafter.module_inventory_size;
        let m = take_machine(&mut self.machines, index);
        let cc = m.crafter_count;
        let ghost m_old = m;
        let updated = match m.kind {
            MachineKind::Crafter { recipe, mut modules, beacons, count_constraint, .. } => {
                while modules.len() as u64 > new_crafter.module_inventory_size
                    invariant
                        new_cap == new_crafter.module_inventory_size,
                        modules@.len() <= m_old.kind->Crafter_modules@.len(),
                        forall|j: int|
                            0 <= j < modules@.len() ==> #[trigger] modules@[j] == m_old.kind->Crafter_modules@[j],
                    decreases modules@.len(),
                {
                    modules.pop();
                }
                Machine {
                    kind: MachineKind::Crafter {
                        crafter: new_crafter,
                        recipe,
                        modules,
                        beacons,
                        count_constraint,
                    },
                    crafter_count: cc,
                }
            },
            other => Machine { kind: other, crafter_count: cc },
        };
        let ghost upd_kind = updated.kind;
        put_machine(&mut self.machines, index, updated);
        proof {
            assert forall|k: int| 0 <= k < self.machines@.len() implies machine_wf(
                #[trigger] self.machines@[k],
            ) && machine_caps_ok(self.machines@[k]) && machine_items_known(
                self.info,
                self.machines@[k],
            ) by {
                if k == index {
                    lemma_same_recipe_preds(self.info, m_old, self.machines@[k]);
                    assert(machine_caps_ok(self.machines@[k])) by {
                        match (m_old.kind, self.machines@[k].kind) {
                            (
                                MachineKind::Crafter { modules: om, recipe: orc, .. },
                                MachineKind::Crafter { modules: nm, recipe: nrc, crafter: ncf, .. },
                            ) => {
                                assert(nrc == orc);
                                assert(forall|j: int|
                                    0 <= j < nm@.len() ==> #[trigger] nm@[j] == om@[j]);
                                assert(machine_caps_ok(m_old));
                            },
                            _ => {},
                        }
                    }
                } else {
                    assert(self.machines@[k] == old(self).machines@[k]);
                }
            }
        }
        let ghost pre_ms = self.machines@;
        self.after_machines_changed();
        proof {
            let msf = self.machines@;
            assert(pre_ms[index as int].kind == upd_kind);
            assert(pre_ms[index as int].kind is Crafter);
            let iw = choose|i: int|
                0 <= i < msf.len() && (#[trigger] msf[i]).kind == pre_ms[index as int].kind;
            assert(m_old == old(self).machines@[index as int]);
            assert(match (msf[iw].kind, old(self).machines@[index as int].kind) {
                (
                    MachineKind::Crafter {
                        crafter: c2,
                        recipe: r2,
                        modules: nm,
                        beacons: b2,
                        count_constraint: p2,
                    },
                    MachineKind::Crafter {
                        recipe: r1,
                        modules: om,
                        beacons: b1,
                        count_constraint: p1,
                        ..
                    },
                ) => c2.name@ == new_crafter_name@ && r2 == r1 && b2 == b1 && p2 == p1
                    && nm@.len() <= om@.len() && (forall|j: int|
                    0 <= j < nm@.len() ==> #[trigger] nm@[j] == om@[j]),
                _ => false,
            });
        }
        Ok(())
    }
}

// ---------------------------------------------------------------------------
// The laws a solved state obeys.
// ---------------------------------------------------------------------------

/// Balance invariant: in any solved state, every touched item's net flow at
/// the solved multipliers lies within the residual tolerance of zero.
pub proof fn lemma_solved_balance(ed: Editor, t: Seq<char>)
    requires
        ed.wf(),
        ed.solved,
        any_touches(ed.machines@, t),
    ensures
        within_tol(total_balance_flow(ed.machines@, t)),
{
    let i = choose|i: int| 0 <= i < ed.machines@.len() && machine_touches(ed.machines@[i], t);
}

/// Non-negativity: in any solved state, every machine's multiplier is at
/// least zero.
pub proof fn lemma_solved_nonneg(ed: Editor, i: int)
    requires
        ed.wf(),
        ed.solved,
        0 <= i < ed.machines@.len(),
    ensures
        q_le(q_int(0), ed.machines@[i].crafter_count@),
{
    assert(ed.counts()[i] == ed.machines@[i].crafter_count@);
}

/// Production constraints are met: in any solved state, the gross production
/// of each constrained item is within the tolerance of the requested rate.
pub proof fn lemma_solved_production(ed: Editor, ci: int)
    requires
        ed.wf(),
        ed.solved,
        0 <= ci < ed.item_speed_constraints@.len(),
        ed.machines@.len() > 0,
    ensures
        within_tol_of(
            total_production_flow(ed.machines@, ed.item_speed_constraints@[ci].0@),
            ed.item_speed_constraints@[ci].1@,
        ),
{
}

/// A pinned machine count overrides balance: in any solved state, a pinned
/// machine's multiplier is within the tolerance of its pin.
pub proof fn lemma_solved_pin(ed: Editor, i: int)
    requires
        ed.wf(),
        ed.solved,
        0 <= i < ed.machines@.len(),
        ed.machines@[i].kind matches MachineKind::Crafter { count_constraint: Some(_), .. },
    ensures
        within_tol_of(
            ed.machines@[i].crafter_count@,
            (ed.machines@[i].kind->Crafter_count_constraint)->0@,
        ),
{
    assert(pin_ok(ed.machines@[i]));
}


} // verus!
