use consensus::collections::{IdSet, Table};
use consensus::config::exact_rank;
use consensus::engine::Tally;
use consensus::state::Flags;

#[test]
fn a_set_takes_each_member_once() {
    let mut set = IdSet::new();
    assert_eq!(set.len(), 0);
    assert!(!set.contains(3));
    assert!(set.insert(3));
    assert!(set.insert(u64::MAX));
    assert!(!set.insert(3));
    assert_eq!(set.len(), 2);
    assert!(set.contains(3));
    assert!(set.contains(u64::MAX));
    assert!(!set.contains(0));
}

#[test]
fn a_table_keeps_the_last_value_of_a_key() {
    let mut table: Table<(u64, u64), u32> = Table::new();
    assert_eq!(table.get(&(1, 2)), None);
    table.insert((1, 2), 10);
    table.insert((2, 1), 20);
    table.insert((1, 2), 30);
    assert_eq!(table.get(&(1, 2)), Some(&30));
    assert_eq!(table.get(&(2, 1)), Some(&20));
    assert!(table.contains_key(&(2, 1)));
    assert!(!table.contains_key(&(2, 2)));
}

#[test]
fn taking_an_entry_removes_it() {
    let mut table: Table<(u64, u64, u64), u32> = Table::new();
    table.insert((1, 2, 0), 10);
    table.insert((1, 2, 1), 11);
    table.insert((1, 3, 0), 12);
    assert_eq!(table.take(&(1, 2, 1)), Some(11));
    assert_eq!(table.take(&(1, 2, 1)), None);
    assert_eq!(table.get(&(1, 2, 0)), Some(&10));
    assert_eq!(table.get(&(1, 3, 0)), Some(&12));
    assert_eq!(table.take(&(9, 9, 9)), None);
}

#[test]
fn a_purge_drops_every_rank_up_to_the_bound() {
    let mut table: Table<(u64, u64, u8), u64> = Table::new();
    for epoch in 0..4u64 {
        for height in 0..3u64 {
            for tag in 0..2u8 {
                table.insert((epoch, height, tag), epoch * 3 + height);
            }
        }
    }
    table.purge(3, 2, 1);
    for epoch in 0..4u64 {
        for height in 0..3u64 {
            for tag in 0..2u8 {
                let rank = epoch * 3 + height;
                if rank > 7 {
                    assert_eq!(table.get(&(epoch, height, tag)), Some(&rank));
                } else {
                    assert_eq!(table.get(&(epoch, height, tag)), None);
                }
            }
        }
    }
    table.purge(3, 0, 0);
    assert_eq!(table.get(&(2, 2, 0)), Some(&8));
    table.purge(3, u64::MAX, u64::MAX);
    assert_eq!(table.get(&(3, 2, 1)), None);
}

#[test]
fn a_table_keyed_by_epoch_ranks_by_epoch() {
    let mut table: Table<u64, u8> = Table::new();
    table.insert(1, 1);
    table.insert(2, 2);
    table.insert(3, 3);
    table.purge(4, 2, 0);
    assert_eq!(table.get(&1), None);
    assert_eq!(table.get(&2), None);
    assert_eq!(table.get(&3), Some(&3));
}

#[test]
fn exact_rank_is_taken_without_wrapping() {
    assert_eq!(exact_rank(8, 10, 7), 87);
    assert_eq!(exact_rank(0, 10, 7), 7);
    assert_eq!(
        exact_rank(usize::MAX, u64::MAX, u64::MAX),
        (usize::MAX as u128) * (u64::MAX as u128) + u64::MAX as u128
    );
}

#[test]
fn a_tally_keeps_the_values_apart() {
    let mut tally = Tally::new();
    assert!(tally.insert(1, 5));
    assert!(tally.insert(0, 5));
    assert!(!tally.insert(1, 5));
    assert!(tally.insert(1, 6));
    assert_eq!(tally.len(1), 2);
    assert_eq!(tally.len(0), 1);
    assert!(tally.contains(1, 6));
    assert!(!tally.contains(0, 6));
}

#[test]
fn flags_are_set_by_value() {
    let mut flags = Flags::new();
    assert_eq!(flags, Flags { pes: false, opt: false });
    flags.set(1, true);
    assert!(flags.get(1));
    assert!(!flags.get(0));
    flags.set(0, true);
    assert_eq!(flags, Flags { pes: true, opt: true });
    flags.set(1, false);
    assert_eq!(flags, Flags { pes: true, opt: false });
}
