use wire_messages::keyed::KeyedList;
use wire_messages::rolls::{PoSChanges, ProductionStats, SpeculativeRollState};
use wire_messages::units::{Address, Amount, Slot};

fn address(fill: u8) -> Address {
    Address { bytes: [fill; 32] }
}

#[test]
fn new_state_has_no_changes() {
    let state = SpeculativeRollState::new();
    let changes = state.get_snapshot();
    assert!(changes.seed_bits.is_empty());
    assert_eq!(changes.roll_changes.len(), 0);
    assert_eq!(changes.production_stats.len(), 0);
    assert_eq!(changes.deferred_credits.len(), 0);
}

#[test]
fn add_rolls_starts_from_the_history() {
    let mut state = SpeculativeRollState::new();
    state.add_rolls(&address(1), 5, Some(10));
    state.add_rolls(&address(2), 5, None);
    let changes = state.get_snapshot();
    assert_eq!(changes.roll_changes.get(&address(1)), Some(&15));
    assert_eq!(changes.roll_changes.get(&address(2)), Some(&5));
    assert_eq!(changes.roll_changes.get(&address(3)), None);
}

#[test]
fn add_rolls_goes_on_from_the_changes() {
    let mut state = SpeculativeRollState::new();
    state.add_rolls(&address(1), 5, Some(10));
    // the history is not asked again once the changes hold a number
    state.add_rolls(&address(1), 1, Some(1000));
    assert_eq!(state.get_snapshot().roll_changes.get(&address(1)), Some(&16));
}

#[test]
fn add_rolls_saturates() {
    let mut state = SpeculativeRollState::new();
    state.add_rolls(&address(1), 2, Some(u64::MAX - 1));
    assert_eq!(state.get_snapshot().roll_changes.get(&address(1)), Some(&u64::MAX));
}

#[test]
fn remove_rolls_takes_rolls_and_puts_down_the_credit() {
    let mut state = SpeculativeRollState::new();
    let slot = Slot::new(7, 1);
    state.remove_rolls(&address(1), slot, Amount::from_raw(100), 3, Some(10));
    let changes = state.get_snapshot();
    assert_eq!(changes.roll_changes.get(&address(1)), Some(&7));
    let credits = changes.deferred_credits.get(&slot).unwrap();
    assert_eq!(credits.len(), 1);
    assert_eq!(credits.get(&address(1)), Some(&Amount::from_raw(300)));
    assert!(changes.deferred_credits.get(&Slot::new(7, 0)).is_none());
}

#[test]
fn remove_rolls_saturates_at_zero() {
    let mut state = SpeculativeRollState::new();
    state.remove_rolls(&address(1), Slot::new(1, 0), Amount::from_raw(1), 11, Some(10));
    state.remove_rolls(&address(2), Slot::new(2, 0), Amount::from_raw(1), 1, None);
    let changes = state.get_snapshot();
    assert_eq!(changes.roll_changes.get(&address(1)), Some(&0));
    assert_eq!(changes.roll_changes.get(&address(2)), Some(&0));
}

#[test]
fn remove_rolls_credit_saturates() {
    let mut state = SpeculativeRollState::new();
    let slot = Slot::new(1, 0);
    state.remove_rolls(&address(1), slot, Amount::from_raw(u64::MAX / 2 + 1), 2, Some(5));
    let changes = state.get_snapshot();
    let credits = changes.deferred_credits.get(&slot).unwrap();
    assert_eq!(credits.get(&address(1)), Some(&Amount::from_raw(u64::MAX)));
}

#[test]
fn remove_rolls_keeps_the_credits_of_a_slot_that_has_some() {
    let mut state = SpeculativeRollState::new();
    let slot = Slot::new(3, 2);
    state.remove_rolls(&address(1), slot, Amount::from_raw(10), 1, Some(4));
    state.remove_rolls(&address(2), slot, Amount::from_raw(10), 2, Some(4));
    state.remove_rolls(&address(1), slot, Amount::from_raw(10), 1, Some(4));
    let changes = state.get_snapshot();
    assert_eq!(changes.roll_changes.get(&address(1)), Some(&2));
    assert_eq!(changes.roll_changes.get(&address(2)), Some(&2));
    let credits = changes.deferred_credits.get(&slot).unwrap();
    assert_eq!(credits.len(), 1);
    assert_eq!(credits.get(&address(1)), Some(&Amount::from_raw(10)));
    assert_eq!(credits.get(&address(2)), None);
}

fn state_with_stats(creator: &Address, stats: ProductionStats) -> SpeculativeRollState {
    let mut changes = PoSChanges::new();
    changes.production_stats.insert(*creator, stats);
    let mut state = SpeculativeRollState::new();
    state.reset_to_snapshot(changes);
    state
}

#[test]
fn production_stats_count_blocks() {
    let creator = address(9);
    let mut state = state_with_stats(
        &creator,
        ProductionStats { block_success_count: 1, block_failure_count: 2 },
    );
    state.update_production_stats(&creator, true, true);
    state.update_production_stats(&creator, false, true);
    state.update_production_stats(&creator, true, false);
    let changes = state.get_snapshot();
    assert_eq!(
        changes.production_stats.get(&creator),
        Some(&ProductionStats { block_success_count: 3, block_failure_count: 3 })
    );
    assert_eq!(changes.seed_bits, vec![true, false]);
}

#[test]
fn production_stats_of_an_unknown_creator_stay_out() {
    let mut state = SpeculativeRollState::new();
    state.update_production_stats(&address(9), true, true);
    let changes = state.get_snapshot();
    assert_eq!(changes.production_stats.len(), 0);
    assert!(changes.seed_bits.is_empty());
}

#[test]
fn production_stats_saturate() {
    let creator = address(9);
    let mut state = state_with_stats(
        &creator,
        ProductionStats { block_success_count: u64::MAX, block_failure_count: u64::MAX },
    );
    state.update_production_stats(&creator, true, true);
    state.update_production_stats(&creator, true, false);
    assert_eq!(
        state.get_snapshot().production_stats.get(&creator),
        Some(&ProductionStats { block_success_count: u64::MAX, block_failure_count: u64::MAX })
    );
}

#[test]
fn take_hands_out_the_changes_and_leaves_none() {
    let mut state = SpeculativeRollState::new();
    state.add_rolls(&address(1), 5, None);
    state.remove_rolls(&address(2), Slot::new(1, 1), Amount::from_raw(2), 1, Some(3));
    let taken = state.take();
    assert_eq!(taken.roll_changes.len(), 2);
    assert_eq!(taken.roll_changes.get(&address(1)), Some(&5));
    assert_eq!(taken.deferred_credits.len(), 1);
    let left = state.get_snapshot();
    assert_eq!(left.roll_changes.len(), 0);
    assert_eq!(left.deferred_credits.len(), 0);
}

#[test]
fn snapshot_is_a_copy() {
    let mut state = SpeculativeRollState::new();
    state.add_rolls(&address(1), 5, None);
    state.remove_rolls(&address(1), Slot::new(4, 0), Amount::from_raw(7), 2, None);
    let snapshot = state.get_snapshot();
    state.add_rolls(&address(1), 100, None);
    state.remove_rolls(&address(3), Slot::new(5, 0), Amount::from_raw(7), 2, None);
    assert_eq!(snapshot.roll_changes.get(&address(1)), Some(&3));
    assert_eq!(snapshot.deferred_credits.len(), 1);
    state.reset_to_snapshot(snapshot);
    let back = state.get_snapshot();
    assert_eq!(back.roll_changes.get(&address(1)), Some(&3));
    assert_eq!(back.roll_changes.get(&address(3)), None);
    assert_eq!(back.deferred_credits.len(), 1);
    let credits = back.deferred_credits.get(&Slot::new(4, 0)).unwrap();
    assert_eq!(credits.get(&address(1)), Some(&Amount::from_raw(14)));
}

#[test]
fn settle_slot_changes_nothing() {
    let mut state = SpeculativeRollState::new();
    state.add_rolls(&address(1), 5, None);
    state.settle_slot(Slot::new(1, 0));
    let changes = state.get_snapshot();
    assert_eq!(changes.roll_changes.len(), 1);
    assert_eq!(changes.roll_changes.get(&address(1)), Some(&5));
}

#[test]
fn amount_times_a_number() {
    assert_eq!(Amount::from_raw(6).saturating_mul_u64(7), Amount::from_raw(42));
    assert_eq!(Amount::from_raw(0).saturating_mul_u64(u64::MAX), Amount::from_raw(0));
    assert_eq!(Amount::from_raw(u64::MAX).saturating_mul_u64(2), Amount::from_raw(u64::MAX));
}

#[test]
fn keyed_list_replaces_in_place_and_copies() {
    let mut list: KeyedList<Slot, u64> = KeyedList::new();
    list.insert(Slot::new(1, 0), 10);
    list.insert(Slot::new(1, 1), 11);
    list.insert(Slot::new(1, 0), 12);
    assert_eq!(list.len(), 2);
    assert_eq!(list.position(&Slot::new(1, 0)), Some(0));
    assert_eq!(list.position(&Slot::new(1, 1)), Some(1));
    assert_eq!(list.position(&Slot::new(2, 0)), None);
    assert_eq!(list.get(&Slot::new(1, 0)), Some(&12));
    assert_eq!(list.entry_at(1), Some((&Slot::new(1, 1), &11)));
    assert_eq!(list.entry_at(2), None);
    let copy = list.copy();
    list.insert(Slot::new(1, 1), 99);
    assert_eq!(copy.get(&Slot::new(1, 1)), Some(&11));
    assert_eq!(copy.len(), 2);
}
