//! The engine: per-pool state keyed by 32-byte identifiers, and the two fee entry points.
use vstd::prelude::*;
use crate::word::{Uint256, u256_max};
use crate::math::{Error, outcome};
use crate::volatility::{PoolState, UPDATE_INTERVAL, volatility_spec, fresh_model, recorded};
use crate::fees::{insurance_fee_spec, flash_loan_fee_spec, insurance_fee, flash_loan_fee};

verus! {

/// A 32-byte pool identifier.
#[derive(Clone, Copy, Debug, PartialEq, Eq)]
pub struct PoolId {
    pub bytes: [u8; 32],
}

/// Index of the last entry of `ids` equal to `id`, or -1.
pub open spec fn position(ids: Seq<Seq<u8>>, id: Seq<u8>) -> int
    decreases ids.len(),
{
    if ids.len() == 0 {
        -1
    } else if ids.last() == id {
        ids.len() - 1
    } else {
        position(ids.drop_last(), id)
    }
}

proof fn lemma_position_range(ids: Seq<Seq<u8>>, id: Seq<u8>)
    ensures
        -1 <= position(ids, id) < ids.len(),
        position(ids, id) >= 0 ==> ids[position(ids, id)] == id,
    decreases ids.len(),
{
    if ids.len() > 0 && ids.last() != id {
        lemma_position_range(ids.drop_last(), id);
    }
}

/// The insurance fee once the pool's history is `history`: its volatility seen from
/// `current_price`, then the fee model.
pub open spec fn insurance_fee_after(
    history: Seq<nat>,
    current_price: nat,
    amount: nat,
    total_liquidity: nat,
    total_volume: nat,
    historical_il: nat,
) -> Option<nat> {
    match volatility_spec(history, current_price) {
        None => None,
        Some(v) => insurance_fee_spec(amount, total_liquidity, total_volume, v, historical_il),
    }
}

fn same_id(a: &PoolId, b: &PoolId) -> (r: bool)
    ensures
        r == (a.bytes@ == b.bytes@),
{
    let mut i: usize = 0;
    while i < 32
        invariant
            i <= 32,
            forall|j: int| 0 <= j < i ==> a.bytes@[j] == b.bytes@[j],
        decreases 32 - i,
    {
        if a.bytes[i] != b.bytes[i] {
            return false;
        }
        i = i + 1;
    }
    assert(a.bytes@ =~= b.bytes@);
    true
}

/// Pool records and the fee computations over them.
pub struct InsuranceCalculator {
    ids: Vec<PoolId>,
    pools: Vec<PoolState>,
}

impl InsuranceCalculator {
    pub closed spec fn id_views(&self) -> Seq<Seq<u8>> {
        self.ids@.map_values(|p: PoolId| p.bytes@)
    }

    pub closed spec fn wf(&self) -> bool {
        &&& self.ids@.len() == self.pools@.len()
        &&& forall|i: int| 0 <= i < self.pools@.len() ==> (#[trigger] self.pools@[i]).wf()
    }

    /// `(history, update index, timestamp)` of the pool `id`; all zero for an unseen pool.
    pub closed spec fn pool_model(&self, id: Seq<u8>) -> (Seq<nat>, nat, nat) {
        let k = position(self.id_views(), id);
        if k >= 0 { self.pools@[k].model() } else { fresh_model() }
    }

    /// The stored impermanent-loss estimate of the pool `id`; zero for an unseen pool.
    pub closed spec fn pool_il(&self, id: Seq<u8>) -> nat {
        let k = position(self.id_views(), id);
        if k >= 0 { self.pools@[k].historical_il.value() } else { 0 }
    }

    /// An engine that has seen no pool.
    pub fn new() -> (r: InsuranceCalculator)
        ensures
            r.wf(),
            forall|id: Seq<u8>| r.pool_model(id) == fresh_model() && r.pool_il(id) == 0,
    {
        let r = InsuranceCalculator { ids: Vec::new(), pools: Vec::new() };
        assert(r.id_views().len() == 0);
        r
    }

    /// Index of the record of `id`, created fresh if there was none.
    fn slot_for(&mut self, id: PoolId) -> (k: usize)
        requires
            old(self).wf(),
        ensures
            final(self).wf(),
            k < final(self).pools@.len(),
            position(final(self).id_views(), id.bytes@) == k,
            final(self).pools@[k as int].model() == old(self).pool_model(id.bytes@),
            final(self).pools@[k as int].historical_il.value() == old(self).pool_il(id.bytes@),
            forall|o: Seq<u8>| o != id.bytes@ ==> final(self).pool_model(o) == old(self).pool_model(o)
                && final(self).pool_il(o) == old(self).pool_il(o),
    {
        let ghost ids = self.id_views();
        let mut i: usize = self.ids.len();
        assert(ids.take(i as int) =~= ids);
        while i > 0
            invariant
                self.wf(),
                *self == *old(self),
                i <= self.ids@.len(),
                ids == self.id_views(),
                position(ids, id.bytes@) == position(ids.take(i as int), id.bytes@),
            decreases i,
        {
            assert(ids.take(i as int).drop_last() =~= ids.take(i - 1));
            if same_id(&self.ids[i - 1], &id) {
                proof { lemma_position_range(ids, id.bytes@); }
                return i - 1;
            }
            i = i - 1;
        }
        assert(ids.take(0) =~= Seq::<Seq<u8>>::empty());
        let ghost before = *self;
        let fresh = PoolState::new();
        assert(fresh.model() == fresh_model());
        self.ids.push(id);
        self.pools.push(fresh);
        let k = self.ids.len() - 1;
        assert(self.id_views().drop_last() =~= ids);
        assert(self.id_views().last() == id.bytes@);
        assert forall|o: Seq<u8>| o != id.bytes@ implies self.pool_model(o) == before.pool_model(o)
            && self.pool_il(o) == before.pool_il(o) by {
            lemma_position_range(ids, o);
        }
        k
    }

    /// The stored record of `pool_id`, if the pool has been seen.
    pub fn pool(&self, pool_id: &PoolId) -> (r: Option<&PoolState>)
        requires
            self.wf(),
        ensures
            position(self.id_views(), pool_id.bytes@) < 0 ==> r is None,
            position(self.id_views(), pool_id.bytes@) >= 0 ==> r is Some
                && r->0.model() == self.pool_model(pool_id.bytes@)
                && r->0.historical_il.value() == self.pool_il(pool_id.bytes@),
    {
        let ghost ids = self.id_views();
        let mut i: usize = self.ids.len();
        assert(ids.take(i as int) =~= ids);
        while i > 0
            invariant
                i <= self.ids@.len(),
                self.ids@.len() == self.pools@.len(),
                ids == self.id_views(),
                position(ids, pool_id.bytes@) == position(ids.take(i as int), pool_id.bytes@),
            decreases i,
        {
            assert(ids.take(i as int).drop_last() =~= ids.take(i - 1));
            if same_id(&self.ids[i - 1], pool_id) {
                return Some(&self.pools[i - 1]);
            }
            i = i - 1;
        }
        assert(ids.take(0) =~= Seq::<Seq<u8>>::empty());
        None
    }

    /// Records the impermanent-loss estimate of `pool_id`, which the engine itself only reads.
    pub fn set_historical_il(&mut self, pool_id: PoolId, historical_il: Uint256)
        requires
            old(self).wf(),
        ensures
            final(self).wf(),
            final(self).pool_il(pool_id.bytes@) == historical_il.value(),
            final(self).pool_model(pool_id.bytes@) == old(self).pool_model(pool_id.bytes@),
            forall|o: Seq<u8>| o != pool_id.bytes@ ==> final(self).pool_model(o) == old(self).pool_model(o)
                && final(self).pool_il(o) == old(self).pool_il(o),
    {
        let k = self.slot_for(pool_id);
        let ghost mid = *self;
        let mut st = self.pools.remove(k);
        st.historical_il = historical_il;
        self.pools.insert(k, st);
        assert(self.pools@ =~= mid.pools@.update(k as int, st));
        assert(self.id_views() == mid.id_views());
        assert forall|o: Seq<u8>| o != pool_id.bytes@ implies self.pool_model(o) == mid.pool_model(o)
            && self.pool_il(o) == mid.pool_il(o) by {
            lemma_position_range(mid.id_views(), o);
            lemma_position_range(mid.id_views(), pool_id.bytes@);
        }
    }

    /// The insurance fee for a trade in `pool_id`; first takes `current_price` into the
    /// pool's history when `timestamp` is at least an hour past its latest sample.
    /// A failure after that step leaves the step in place.
    pub fn calculate_insurance_fee(
        &mut self,
        pool_id: PoolId,
        amount: Uint256,
        total_liquidity: Uint256,
        total_volume: Uint256,
        current_price: Uint256,
        timestamp: Uint256,
    ) -> (r: Result<Uint256, Error>)
        requires
            old(self).wf(),
        ensures
            final(self).wf(),
            final(self).pool_il(pool_id.bytes@) == old(self).pool_il(pool_id.bytes@),
            forall|o: Seq<u8>| o != pool_id.bytes@ ==> final(self).pool_model(o) == old(self).pool_model(o)
                && final(self).pool_il(o) == old(self).pool_il(o),
            old(self).pool_model(pool_id.bytes@).2 + UPDATE_INTERVAL > u256_max() ==> r == Err::<
                Uint256,
                Error,
            >(Error::CalculationError) && final(self).pool_model(pool_id.bytes@) == old(
                self,
            ).pool_model(pool_id.bytes@),
            old(self).pool_model(pool_id.bytes@).2 + UPDATE_INTERVAL <= u256_max() ==> {
                &&& recorded(
                    old(self).pool_model(pool_id.bytes@),
                    final(self).pool_model(pool_id.bytes@),
                    current_price.value(),
                    timestamp.value(),
                )
                &&& outcome(
                    r,
                    insurance_fee_after(
                        final(self).pool_model(pool_id.bytes@).0,
                        current_price.value(),
                        amount.value(),
                        total_liquidity.value(),
                        total_volume.value(),
                        old(self).pool_il(pool_id.bytes@),
                    ),
                )
            },
    {
        let k = self.slot_for(pool_id);
        let ghost mid = *self;
        let mut st = self.pools.remove(k);
        let vol = st.update_and_estimate(current_price, timestamp);
        let il = st.historical_il;
        self.pools.insert(k, st);
        assert(self.pools@ =~= mid.pools@.update(k as int, st));
        assert(self.id_views() == mid.id_views());
        assert forall|o: Seq<u8>| o != pool_id.bytes@ implies self.pool_model(o) == mid.pool_model(o)
            && self.pool_il(o) == mid.pool_il(o) by {
            lemma_position_range(mid.id_views(), o);
            lemma_position_range(mid.id_views(), pool_id.bytes@);
        }
        let v = vol?;
        insurance_fee(amount, total_liquidity, total_volume, v, il)
    }

    /// The flash-loan fee for borrowing `amount`; reads and changes no pool record.
    pub fn calculate_flash_loan_fee(
        &self,
        amount: Uint256,
        total_liquidity: Uint256,
        utilization_rate: Uint256,
        default_history: Uint256,
    ) -> (r: Result<Uint256, Error>)
        ensures
            outcome(
                r,
                flash_loan_fee_spec(
                    amount.value(),
                    total_liquidity.value(),
                    utilization_rate.value(),
                    default_history.value(),
                ),
            ),
    {
        flash_loan_fee(amount, total_liquidity, utilization_rate, default_history)
    }
}

} // verus!
