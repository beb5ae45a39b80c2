//! Contract configuration: admin, validator weight table, tier thresholds.
//!
//! The `usd_deposits` list is strictly descending: `usd_deposits[i]` is the
//! USD amount that tier `i + 1` requires, tier 1 being the best tier and
//! tier `usd_deposits.len() + 1` the default tier of a fresh user.

use vstd::prelude::*;
use crate::error::Error;

verus! {

/// Lifecycle status of the contract.
#[derive(Clone, Copy, Debug, PartialEq, Eq, Structural)]
pub enum ContractStatus {
    Active,
    Stopped,
}

/// The pair of oraiswap collaborator contracts used for price conversion.
#[derive(Clone, Debug)]
pub struct OraiswapContract {
    pub orai_swap_router_contract: String,
    pub usdt_contract: String,
}

/// One validator and its share of every delegation, in percent.
#[derive(Clone, Debug)]
pub struct ValidatorWithWeight {
    pub address: String,
    pub weight: u128,
}

/// The configuration record of the contract.
#[derive(Clone, Debug)]
pub struct Config {
    pub admin: String,
    pub validators: Vec<ValidatorWithWeight>,
    pub status: ContractStatus,
    pub usd_deposits: Vec<u128>,
    pub oraiswap_contract: OraiswapContract,
    pub stable_denom: Vec<String>,
}

/// Sum of the validator weights.
pub open spec fn spec_sum_weights(vs: Seq<ValidatorWithWeight>) -> int
    decreases vs.len(),
{
    if vs.len() == 0 {
        0
    } else {
        spec_sum_weights(vs.drop_last()) + vs.last().weight
    }
}

/// The tier that a USD deposit earns: one more than the index of the first
/// threshold it reaches, or one past the last tier when it reaches none.
pub open spec fn spec_tier_of(deposits: Seq<u128>, usd: int) -> int
    decreases deposits.len(),
{
    if deposits.len() == 0 {
        1
    } else if deposits[0] <= usd {
        1
    } else {
        1 + spec_tier_of(deposits.drop_first(), usd)
    }
}

impl Config {
    /// The tier thresholds are non-empty, strictly descending, positive,
    /// and few enough that every tier number fits in a `u8`.
    pub open spec fn deposits_wf(&self) -> bool {
        &&& self.usd_deposits@.len() >= 1
        &&& self.usd_deposits@.len() + 1 <= u8::MAX
        &&& forall|i: int, j: int|
            0 <= i < j < self.usd_deposits@.len() ==> self.usd_deposits@[i] > self.usd_deposits@[j]
        &&& self.usd_deposits@[self.usd_deposits@.len() - 1] > 0
    }

    /// The validator table is an ordered set: addresses are distinct and
    /// the weights sum to exactly one hundred.
    pub open spec fn validators_wf(&self) -> bool {
        &&& spec_sum_weights(self.validators@) == 100
        &&& forall|i: int, j: int|
            0 <= i < j < self.validators@.len()
                ==> self.validators@[i].address@ != self.validators@[j].address@
    }

    pub open spec fn wf(&self) -> bool {
        &&& self.deposits_wf()
        &&& self.validators_wf()
    }

    /// The default (worst) tier: one past the index of the last threshold.
    pub open spec fn spec_min_tier(&self) -> int {
        self.usd_deposits@.len() + 1int
    }

    pub fn min_tier(&self) -> (t: u8)
        requires
            self.deposits_wf(),
        ensures
            t == self.spec_min_tier(),
    {
        (self.usd_deposits.len() + 1) as u8
    }

    /// The best tier.
    pub fn max_tier(&self) -> (t: u8)
        ensures
            t == 1,
    {
        1
    }

    /// The USD threshold of a real (non-default) tier.
    pub fn deposit_by_tier(&self, tier: u8) -> (d: u128)
        requires
            1 <= tier <= self.usd_deposits@.len(),
        ensures
            d == self.usd_deposits@[tier - 1],
    {
        self.usd_deposits[(tier - 1) as usize]
    }

    /// The tier that `usd_deposit` earns.
    pub fn tier_by_deposit(&self, usd_deposit: u128) -> (t: u8)
        requires
            self.deposits_wf(),
        ensures
            t == spec_tier_of(self.usd_deposits@, usd_deposit as int),
    {
        let n: usize = self.usd_deposits.len();
        let mut i: usize = 0;
        while i < n
            invariant
                0 <= i <= n,
                n == self.usd_deposits@.len(),
                n + 1 <= u8::MAX,
                forall|j: int| 0 <= j < i ==> self.usd_deposits@[j] > usd_deposit,
            decreases n - i,
        {
            if self.usd_deposits[i] <= usd_deposit {
                proof {
                    lemma_tier_of_unique(self.usd_deposits@, usd_deposit as int, i + 1);
                }
                return (i + 1) as u8;
            }
            i = i + 1;
        }
        proof {
            lemma_tier_of_unique(self.usd_deposits@, usd_deposit as int, n + 1);
        }
        (n + 1) as u8
    }

    /// Refuses every state-mutating operation while the contract is stopped.
    pub fn assert_contract_active(&self) -> (r: Result<(), Error>)
        ensures
            r is Ok <==> self.status is Active,
            r is Err ==> r == Err::<(), Error>(Error::NotActive),
    {
        if self.status == ContractStatus::Active {
            Ok(())
        } else {
            Err(Error::NotActive)
        }
    }
}

pub open spec fn has_validator(vs: Seq<ValidatorWithWeight>, a: Seq<char>) -> bool {
    exists|i: int| 0 <= i < vs.len() && vs[i].address@ == a
}

pub open spec fn validator_index(vs: Seq<ValidatorWithWeight>, a: Seq<char>) -> int {
    choose|i: int| 0 <= i < vs.len() && vs[i].address@ == a
}

/// Index of the validator with address `addr` in the weight table, if any.
pub fn find_validator(vs: &Vec<ValidatorWithWeight>, addr: &String) -> (r: Option<usize>)
    requires
        forall|i: int, j: int| 0 <= i < j < vs@.len() ==> vs@[i].address@ != vs@[j].address@,
    ensures
        match r {
            Some(i) => has_validator(vs@, addr@) && i == validator_index(vs@, addr@) && i
                < vs@.len(),
            None => !has_validator(vs@, addr@),
        },
{
    let n: usize = vs.len();
    let mut i: usize = 0;
    while i < n
        invariant
            0 <= i <= n,
            n == vs@.len(),
            forall|k: int, j: int| 0 <= k < j < vs@.len() ==> vs@[k].address@ != vs@[j].address@,
            forall|j: int| 0 <= j < i ==> vs@[j].address@ != addr@,
        decreases n - i,
    {
        if vs[i].address.eq(addr) {
            proof {
                assert(has_validator(vs@, addr@));
                let k = validator_index(vs@, addr@);
                if k != i {
                    assert(vs@[k].address@ != vs@[i as int].address@);
                }
            }
            return Some(i);
        }
        i = i + 1;
    }
    None
}

/// Weights are non-negative, so their sum is.
pub proof fn lemma_sum_weights_nonneg(vs: Seq<ValidatorWithWeight>)
    ensures
        0 <= spec_sum_weights(vs),
    decreases vs.len(),
{
    if vs.len() > 0 {
        lemma_sum_weights_nonneg(vs.drop_last());
    }
}

/// No single weight exceeds the sum of all of them.
pub proof fn lemma_weight_le_sum(vs: Seq<ValidatorWithWeight>, i: int)
    requires
        0 <= i < vs.len(),
    ensures
        vs[i].weight <= spec_sum_weights(vs),
    decreases vs.len(),
{
    if i == vs.len() - 1 {
        lemma_sum_weights_nonneg(vs.drop_last());
    } else {
        lemma_weight_le_sum(vs.drop_last(), i);
    }
}

/// Replacing one entry changes the sum by the difference of the weights.
pub proof fn lemma_sum_weights_update(vs: Seq<ValidatorWithWeight>, i: int, v: ValidatorWithWeight)
    requires
        0 <= i < vs.len(),
    ensures
        spec_sum_weights(vs.update(i, v)) == spec_sum_weights(vs) - vs[i].weight + v.weight,
    decreases vs.len(),
{
    if i == vs.len() - 1 {
        assert(vs.update(i, v).drop_last() =~= vs.drop_last());
    } else {
        assert(vs.update(i, v).drop_last() =~= vs.drop_last().update(i, v));
        lemma_sum_weights_update(vs.drop_last(), i, v);
    }
}

/// Appending an entry adds its weight to the sum.
pub proof fn lemma_sum_weights_push(vs: Seq<ValidatorWithWeight>, v: ValidatorWithWeight)
    ensures
        spec_sum_weights(vs.push(v)) == spec_sum_weights(vs) + v.weight,
{
    assert(vs.push(v).drop_last() =~= vs);
}

/// Removing an entry subtracts its weight from the sum.
pub proof fn lemma_sum_weights_remove(vs: Seq<ValidatorWithWeight>, i: int)
    requires
        0 <= i < vs.len(),
    ensures
        spec_sum_weights(vs.remove(i)) == spec_sum_weights(vs) - vs[i].weight,
    decreases vs.len(),
{
    if i == vs.len() - 1 {
        assert(vs.remove(i) =~= vs.drop_last());
    } else {
        assert(vs.remove(i).drop_last() =~= vs.drop_last().remove(i));
        assert(vs.remove(i).last() == vs.last());
        lemma_sum_weights_remove(vs.drop_last(), i);
    }
}

/// The tier of a deposit is between 1 and one past the last real tier; every
/// threshold before the chosen one is still out of reach, and the chosen one
/// (when real) is reached.
pub proof fn lemma_tier_of_bounds(deposits: Seq<u128>, usd: int)
    ensures
        1 <= spec_tier_of(deposits, usd) <= deposits.len() + 1,
        forall|j: int| 0 <= j < spec_tier_of(deposits, usd) - 1 ==> deposits[j] > usd,
        spec_tier_of(deposits, usd) <= deposits.len()
            ==> deposits[spec_tier_of(deposits, usd) - 1] <= usd,
    decreases deposits.len(),
{
    if deposits.len() == 0 {
    } else if deposits[0] <= usd {
    } else {
        let rest = deposits.drop_first();
        lemma_tier_of_bounds(rest, usd);
        assert forall|j: int| 0 <= j < spec_tier_of(deposits, usd) - 1 implies deposits[j]
            > usd by {
            if j > 0 {
                assert(rest[j - 1] == deposits[j]);
            }
        }
        if spec_tier_of(deposits, usd) <= deposits.len() {
            assert(rest[spec_tier_of(rest, usd) - 1] == deposits[spec_tier_of(deposits, usd) - 1]);
        }
    }
}

/// Any tier that satisfies the characterisation of `spec_tier_of` is it.
pub proof fn lemma_tier_of_unique(deposits: Seq<u128>, usd: int, t: int)
    requires
        1 <= t <= deposits.len() + 1,
        forall|j: int| 0 <= j < t - 1 ==> deposits[j] > usd,
        t <= deposits.len() ==> deposits[t - 1] <= usd,
    ensures
        t == spec_tier_of(deposits, usd),
{
    let t0 = spec_tier_of(deposits, usd);
    lemma_tier_of_bounds(deposits, usd);
    if t < t0 {
        assert(deposits[t - 1] > usd);
    } else if t0 < t {
        assert(deposits[t0 - 1] > usd);
    }
}

/// A larger deposit never earns a worse (larger-numbered) tier.
pub proof fn lemma_tier_of_monotone(deposits: Seq<u128>, usd1: int, usd2: int)
    requires
        usd1 <= usd2,
    ensures
        spec_tier_of(deposits, usd2) <= spec_tier_of(deposits, usd1),
{
    let t1 = spec_tier_of(deposits, usd1);
    let t2 = spec_tier_of(deposits, usd2);
    lemma_tier_of_bounds(deposits, usd1);
    lemma_tier_of_bounds(deposits, usd2);
    if t1 < t2 {
        assert(deposits[t1 - 1] > usd2);
    }
}

/// On a strictly descending threshold list, the tier of a tier's own
/// threshold is exactly that tier.
pub proof fn lemma_tier_of_inverse(deposits: Seq<u128>, t: int)
    requires
        forall|i: int, j: int| 0 <= i < j < deposits.len() ==> deposits[i] > deposits[j],
        1 <= t <= deposits.len(),
    ensures
        spec_tier_of(deposits, deposits[t - 1] as int) == t,
{
    lemma_tier_of_unique(deposits, deposits[t - 1] as int, t);
}

} // verus!
