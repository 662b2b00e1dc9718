//! The speculative state of the rolls.
//!
//! While slots are executed, the rolls that addresses buy and sell, the
//! credits owed for rolls sold, and the blocks that creators produced or
//! missed are gathered as changes on top of the history of what was executed
//! before. What the history knows of an address is handed in by the caller.

use crate::keyed::KeyedList;
use crate::units::{spec_saturating_mul, Address, Amount, Slot};
use vstd::prelude::*;

verus! {

/// How many blocks a creator produced and missed.
#[derive(Clone, Copy, Debug, PartialEq, Eq, Hash)]
pub struct ProductionStats {
    /// Slots in which the creator produced its block.
    pub block_success_count: u64,
    /// Slots in which the creator missed its block.
    pub block_failure_count: u64,
}

/// The changes to the proof-of-stake state.
#[derive(Debug)]
pub struct PoSChanges {
    /// One bit for each block that was produced, in order.
    pub seed_bits: Vec<bool>,
    /// The new number of rolls of each address that bought or sold rolls.
    pub roll_changes: KeyedList<Address, u64>,
    /// The production statistics of each creator.
    pub production_stats: KeyedList<Address, ProductionStats>,
    /// The credits owed at each slot, by address.
    pub deferred_credits: KeyedList<Slot, KeyedList<Address, Amount>>,
}

/// The model of the changes.
pub struct PoSChangesView {
    /// One bit for each block that was produced, in order.
    pub seed_bits: Seq<bool>,
    /// The new number of rolls of each address that bought or sold rolls.
    pub roll_changes: Map<Seq<u8>, u64>,
    /// The production statistics of each creator.
    pub production_stats: Map<Seq<u8>, ProductionStats>,
    /// The credits owed at each slot, by address.
    pub deferred_credits: Map<Slot, Map<Seq<u8>, Amount>>,
}

/// The credits owed at each slot, with each inner list taken as the mapping
/// it stands for.
pub open spec fn credits_view(credits: Map<Slot, KeyedList<Address, Amount>>) -> Map<
    Slot,
    Map<Seq<u8>, Amount>,
> {
    Map::new(|slot: Slot| credits.dom().contains(slot), |slot: Slot| credits[slot]@)
}

impl View for PoSChanges {
    type V = PoSChangesView;

    open spec fn view(&self) -> PoSChangesView {
        PoSChangesView {
            seed_bits: self.seed_bits@,
            roll_changes: self.roll_changes@,
            production_stats: self.production_stats@,
            deferred_credits: credits_view(self.deferred_credits@),
        }
    }
}

/// No changes at all.
pub open spec fn no_changes() -> PoSChangesView {
    PoSChangesView {
        seed_bits: Seq::empty(),
        roll_changes: Map::empty(),
        production_stats: Map::empty(),
        deferred_credits: Map::empty(),
    }
}

impl PoSChanges {
    /// No changes at all.
    pub fn new() -> (r: PoSChanges)
        ensures
            r@ == no_changes(),
    {
        let r = PoSChanges {
            seed_bits: Vec::new(),
            roll_changes: KeyedList::new(),
            production_stats: KeyedList::new(),
            deferred_credits: KeyedList::new(),
        };
        assert(credits_view(r.deferred_credits@) =~= Map::<Slot, Map<Seq<u8>, Amount>>::empty());
        r
    }

    /// The same changes once more.
    pub fn copy(&self) -> (r: PoSChanges)
        ensures
            r@ == self@,
    {
        let mut seed_bits: Vec<bool> = Vec::new();
        let mut i: usize = 0;
        while i < self.seed_bits.len()
            invariant
                i <= self.seed_bits.len(),
                seed_bits@ == self.seed_bits@.take(i as int),
            decreases self.seed_bits.len() - i,
        {
            seed_bits.push(self.seed_bits[i]);
            i = i + 1;
        }
        proof {
            assert(self.seed_bits@.take(i as int) =~= self.seed_bits@);
        }
        let mut deferred_credits: KeyedList<Slot, KeyedList<Address, Amount>> = KeyedList::new();
        let count: usize = self.deferred_credits.len();
        let mut j: usize = 0;
        while j < count
            invariant
                j <= count,
                count == self.deferred_credits.entries().len(),
                forall|slot: Slot| #[trigger]
                    deferred_credits@.dom().contains(slot) ==> self.deferred_credits@.dom().contains(
                        slot,
                    ) && deferred_credits@[slot]@ == self.deferred_credits@[slot]@,
                forall|k: int|
                    0 <= k < j ==> deferred_credits@.dom().contains(
                        (#[trigger] self.deferred_credits.entries()[k]).0,
                    ),
            decreases count - j,
        {
            match self.deferred_credits.entry_at(j) {
                Some((slot, credits)) => {
                    deferred_credits.insert(*slot, credits.copy());
                },
                None => {},
            }
            j = j + 1;
        }
        proof {
            let ours = credits_view(deferred_credits@);
            let theirs = credits_view(self.deferred_credits@);
            assert(ours =~= theirs);
        }
        PoSChanges {
            seed_bits,
            roll_changes: self.roll_changes.copy(),
            production_stats: self.production_stats.copy(),
            deferred_credits,
        }
    }
}

/// The number of rolls that an address has before a change: the number
/// that the changes hold for it, else the number that the history knows,
/// else none.
pub open spec fn rolls_before(
    roll_changes: Map<Seq<u8>, u64>,
    address: Seq<u8>,
    history_roll_count: Option<u64>,
) -> u64 {
    if roll_changes.dom().contains(address) {
        roll_changes[address]
    } else {
        match history_roll_count {
            Some(count) => count,
            None => 0,
        }
    }
}

/// `a` plus `b`, or the largest 64-bit number if the sum is above it.
pub open spec fn spec_saturating_add(a: u64, b: u64) -> u64 {
    if a + b > u64::MAX {
        u64::MAX
    } else {
        (a + b) as u64
    }
}

/// `a` minus `b`, or zero if `b` is the larger.
pub open spec fn spec_saturating_sub(a: u64, b: u64) -> u64 {
    if a < b {
        0
    } else {
        (a - b) as u64
    }
}

/// The credits after `amount` was put down for `seller` at `slot`: a slot
/// that has credits already keeps them as they are.
pub open spec fn credits_after(
    credits: Map<Slot, Map<Seq<u8>, Amount>>,
    slot: Slot,
    seller: Seq<u8>,
    amount: Amount,
) -> Map<Slot, Map<Seq<u8>, Amount>> {
    if credits.dom().contains(slot) {
        credits
    } else {
        credits.insert(slot, Map::<Seq<u8>, Amount>::empty().insert(seller, amount))
    }
}

/// The statistics with one more block produced, or one more missed. The
/// counts stop at the largest 64-bit number.
pub open spec fn stats_after(stats: ProductionStats, contains_block: bool) -> ProductionStats {
    if contains_block {
        ProductionStats {
            block_success_count: spec_saturating_add(stats.block_success_count, 1),
            block_failure_count: stats.block_failure_count,
        }
    } else {
        ProductionStats {
            block_success_count: stats.block_success_count,
            block_failure_count: spec_saturating_add(stats.block_failure_count, 1),
        }
    }
}

/// The speculative state of the rolls: the changes since it was made.
#[derive(Debug)]
pub struct SpeculativeRollState {
    added_changes: PoSChanges,
}

impl View for SpeculativeRollState {
    type V = PoSChangesView;

    closed spec fn view(&self) -> PoSChangesView {
        self.added_changes@
    }
}

impl SpeculativeRollState {
    /// A state without changes.
    pub fn new() -> (r: Self)
        ensures
            r@ == no_changes(),
    {
        SpeculativeRollState { added_changes: PoSChanges::new() }
    }

    /// Hands out the changes since the state was made, and leaves the state
    /// without changes.
    pub fn take(&mut self) -> (r: PoSChanges)
        ensures
            r@ == old(self)@,
            final(self)@ == no_changes(),
    {
        let mut changes = PoSChanges::new();
        core::mem::swap(&mut self.added_changes, &mut changes);
        changes
    }

    /// A copy of the changes since the state was made.
    pub fn get_snapshot(&self) -> (r: PoSChanges)
        ensures
            r@ == self@,
    {
        self.added_changes.copy()
    }

    /// Puts the state back to a snapshot.
    pub fn reset_to_snapshot(&mut self, snapshot: PoSChanges)
        ensures
            final(self)@ == snapshot@,
    {
        self.added_changes = snapshot;
    }

    /// Adds `roll_count` rolls to `buyer_addr`. `history_roll_count` is the
    /// number of rolls that the history knows for the address; it counts
    /// only if the changes hold no number for it yet.
    pub fn add_rolls(
        &mut self,
        buyer_addr: &Address,
        roll_count: u64,
        history_roll_count: Option<u64>,
    )
        ensures
            final(self)@ == (PoSChangesView {
                roll_changes: old(self)@.roll_changes.insert(
                    buyer_addr@,
                    spec_saturating_add(
                        rolls_before(old(self)@.roll_changes, buyer_addr@, history_roll_count),
                        roll_count,
                    ),
                ),
                ..old(self)@
            }),
    {
        let before: u64 = match self.added_changes.roll_changes.get(buyer_addr) {
            Some(count) => *count,
            None => match history_roll_count {
                Some(count) => count,
                None => 0,
            },
        };
        self.added_changes.roll_changes.insert(*buyer_addr, before.saturating_add(roll_count));
    }

    /// Takes `roll_count` rolls from `seller_addr` and puts down the credit
    /// for them at `slot`: `roll_price` for each roll. A slot that has
    /// credits already keeps them as they are. `history_roll_count` is as in
    /// [`Self::add_rolls`].
    pub fn remove_rolls(
        &mut self,
        seller_addr: &Address,
        slot: Slot,
        roll_price: Amount,
        roll_count: u64,
        history_roll_count: Option<u64>,
    )
        ensures
            final(self)@ == (PoSChangesView {
                roll_changes: old(self)@.roll_changes.insert(
                    seller_addr@,
                    spec_saturating_sub(
                        rolls_before(old(self)@.roll_changes, seller_addr@, history_roll_count),
                        roll_count,
                    ),
                ),
                deferred_credits: credits_after(
                    old(self)@.deferred_credits,
                    slot,
                    seller_addr@,
                    Amount { raw: spec_saturating_mul(roll_price.raw, roll_count) },
                ),
                ..old(self)@
            }),
    {
        let before: u64 = match self.added_changes.roll_changes.get(seller_addr) {
            Some(count) => *count,
            None => match history_roll_count {
                Some(count) => count,
                None => 0,
            },
        };
        self.added_changes.roll_changes.insert(*seller_addr, before.saturating_sub(roll_count));
        let ghost credits = self.added_changes.deferred_credits@;
        if self.added_changes.deferred_credits.get(&slot).is_none() {
            let mut credit: KeyedList<Address, Amount> = KeyedList::new();
            credit.insert(*seller_addr, roll_price.saturating_mul_u64(roll_count));
            self.added_changes.deferred_credits.insert(slot, credit);
            proof {
                assert(credits_view(self.added_changes.deferred_credits@) =~= credits_after(
                    credits_view(credits),
                    slot,
                    seller_addr@,
                    Amount { raw: spec_saturating_mul(roll_price.raw, roll_count) },
                ));
            }
        }
    }

    /// Counts one more block for `creator`, produced if `contains_block`,
    /// else missed, if the changes hold statistics for the creator. For a
    /// block that was produced, `first_bit`, the first bit of its slot, is
    /// added to the seed bits.
    pub fn update_production_stats(
        &mut self,
        creator: &Address,
        first_bit: bool,
        contains_block: bool,
    )
        ensures
            final(self)@ == (if old(self)@.production_stats.dom().contains(creator@) {
                PoSChangesView {
                    production_stats: old(self)@.production_stats.insert(
                        creator@,
                        stats_after(old(self)@.production_stats[creator@], contains_block),
                    ),
                    seed_bits: if contains_block {
                        old(self)@.seed_bits.push(first_bit)
                    } else {
                        old(self)@.seed_bits
                    },
                    ..old(self)@
                }
            } else {
                old(self)@
            }),
    {
        let found: Option<ProductionStats> = match self.added_changes.production_stats.get(
            creator,
        ) {
            Some(stats) => Some(*stats),
            None => None,
        };
        match found {
            Some(stats) => {
                if contains_block {
                    let after = ProductionStats {
                        block_success_count: stats.block_success_count.saturating_add(1),
                        block_failure_count: stats.block_failure_count,
                    };
                    self.added_changes.production_stats.insert(*creator, after);
                    self.added_changes.seed_bits.push(first_bit);
                } else {
                    let after = ProductionStats {
                        block_success_count: stats.block_success_count,
                        block_failure_count: stats.block_failure_count.saturating_add(1),
                    };
                    self.added_changes.production_stats.insert(*creator, after);
                }
            },
            None => {},
        }
    }

    /// Settles a slot. Nothing changes.
    pub fn settle_slot(&mut self, slot: Slot)
        ensures
            final(self)@ == old(self)@,
    {
    }
}

} // verus!
