use parking_ledger::store::Store;
use parking_ledger::types::Error;

const OWNER: u64 = 1;
const ALICE: u64 = 11;
const BOB: u64 = 12;
const LOT: u64 = 100;

/// A lot of ten slots priced between 100 and 200, created at time 0.
fn ten_slot_lot() -> Store {
    let mut store = Store::new();
    store
        .new_parking_lot(OWNER, LOT, 10, 20, 10, 100, 200, 0)
        .unwrap();
    store
}

#[test]
fn test_new_parking_lot() {
    let mut store = Store::new();
    assert_eq!(
        store.new_parking_lot(OWNER, LOT, 10, 20, 10, 100, 200, 0),
        Ok(())
    );
    let lot = store.parking_lots(LOT).unwrap();
    assert_eq!(lot.owner, OWNER);
    assert_eq!(lot.capacity, 10);
    assert_eq!(lot.remain, 10);
    assert_eq!(lot.current_price, 100);
    assert_eq!(lot.latitude, 10);
    assert_eq!(lot.longitude, 20);
    assert_eq!(store.parking_lot_last_time(LOT), Some(0));
    assert_eq!(store.all_parking_lots_count(), 1);
    assert_eq!(store.parking_lots_by_index(0), Some(LOT));
    assert_eq!(store.owner_parking_lots_count(OWNER), 1);
    assert_eq!(store.owner_parking_lots_array(OWNER, 0), Some(LOT));
    assert!(store.current_parking_accounts(LOT).is_empty());
}

#[test]
fn test_entering() {
    let mut store = ten_slot_lot();
    assert_eq!(store.entering(ALICE, LOT, 1000, 0), Ok(()));
    let lot = store.parking_lots(LOT).unwrap();
    assert_eq!(lot.remain, 9);
    assert_eq!(lot.current_price, 110);
    let info = store.user_parking_info(ALICE).unwrap();
    assert_eq!(info.user_id, ALICE);
    assert_eq!(info.parking_lot_hash, LOT);
    assert_eq!(info.info_hash, 1000);
    assert_eq!(info.enter_time, 0);
    assert_eq!(info.current_time, 0);
    assert_eq!(info.current_fee, 0);
    assert_eq!(store.current_parking_accounts(LOT), vec![ALICE]);
}

#[test]
fn test_leaving() {
    let mut store = ten_slot_lot();
    store.entering(ALICE, LOT, 1000, 0).unwrap();
    let settlement = store.leaving(ALICE, 60_000).unwrap();
    assert_eq!(settlement.payer, ALICE);
    assert_eq!(settlement.payee, OWNER);
    assert_eq!(settlement.amount, 6_600);
    assert_eq!(settlement.parking_lot_hash, LOT);
    assert_eq!(store.parking_lots(LOT).unwrap().remain, 10);
    assert_eq!(store.user_parking_info(ALICE), None);
    assert!(store.current_parking_accounts(LOT).is_empty());
    assert_eq!(store.parking_lot_last_time(LOT), Some(60_000));
}

#[test]
fn invalid_creation_parameters_are_rejected() {
    let mut store = Store::new();
    assert_eq!(
        store.new_parking_lot(OWNER, LOT, 0, 0, 0, 100, 200, 0),
        Err(Error::InvalidParameters)
    );
    assert_eq!(
        store.new_parking_lot(OWNER, LOT, 0, 0, 10, 200, 100, 0),
        Err(Error::InvalidParameters)
    );
    assert_eq!(store.all_parking_lots_count(), 0);
}

#[test]
fn entering_unknown_lot_fails() {
    let mut store = ten_slot_lot();
    assert_eq!(store.entering(ALICE, 999, 1000, 0), Err(Error::NotFound));
    assert_eq!(store.user_parking_info(ALICE), None);
}

#[test]
fn leaving_without_session_fails() {
    let mut store = ten_slot_lot();
    assert_eq!(store.leaving(ALICE, 10), Err(Error::NotFound));
    assert_eq!(store.prepare_leaving(ALICE, 10), Err(Error::NotFound));
}

#[test]
fn enter_then_leave_restores_remain() {
    let mut store = ten_slot_lot();
    let before = store.parking_lots(LOT).unwrap().remain;
    store.entering(ALICE, LOT, 1000, 5_000).unwrap();
    assert_eq!(store.parking_lots(LOT).unwrap().remain, before - 1);
    store.leaving(ALICE, 9_000).unwrap();
    assert_eq!(store.parking_lots(LOT).unwrap().remain, before);
}

#[test]
fn remain_always_matches_occupant_count() {
    let mut store = ten_slot_lot();
    for (step, user) in [ALICE, BOB].iter().enumerate() {
        store
            .entering(*user, LOT, 1000 + step as u64, step as u64 * 1_000)
            .unwrap();
        let lot = store.parking_lots(LOT).unwrap();
        let present = store.current_parking_accounts(LOT);
        assert_eq!(lot.remain as usize, lot.capacity as usize - present.len());
    }
    store.leaving(ALICE, 10_000).unwrap();
    let lot = store.parking_lots(LOT).unwrap();
    let present = store.current_parking_accounts(LOT);
    assert_eq!(present, vec![BOB]);
    assert_eq!(lot.remain as usize, lot.capacity as usize - present.len());
}

#[test]
fn second_entering_fails_already_parked() {
    let mut store = ten_slot_lot();
    store.entering(ALICE, LOT, 1000, 0).unwrap();
    let lot_before = store.parking_lots(LOT).unwrap();
    let info_before = store.user_parking_info(ALICE).unwrap();
    assert_eq!(
        store.entering(ALICE, LOT, 1001, 5_000),
        Err(Error::AlreadyParked)
    );
    assert_eq!(store.parking_lots(LOT).unwrap(), lot_before);
    assert_eq!(store.user_parking_info(ALICE).unwrap(), info_before);
    assert_eq!(store.current_parking_accounts(LOT), vec![ALICE]);
}

#[test]
fn occupancy_scenario_prices_and_fee() {
    // Ten slots between 100 and 200: one occupant makes the price
    // 100 + (1 * 100) / 10 = 110, and sixty seconds cost 60 * 110 = 6600.
    let mut store = ten_slot_lot();
    store.entering(ALICE, LOT, 1000, 0).unwrap();
    assert_eq!(store.parking_lots(LOT).unwrap().current_price, 110);
    let settlement = store.leaving(ALICE, 60_000).unwrap();
    assert_eq!(settlement.amount, 6_600);
}

#[test]
fn full_lot_rejects_entry() {
    let mut store = Store::new();
    store
        .new_parking_lot(OWNER, LOT, 0, 0, 1, 100, 200, 0)
        .unwrap();
    store.entering(ALICE, LOT, 1000, 0).unwrap();
    assert_eq!(store.parking_lots(LOT).unwrap().remain, 0);
    assert_eq!(store.entering(BOB, LOT, 1001, 1_000), Err(Error::LotFull));
    assert_eq!(store.parking_lots(LOT).unwrap().remain, 0);
    assert_eq!(store.current_parking_accounts(LOT), vec![ALICE]);
}

#[test]
fn failed_transfer_leaves_session_open() {
    // The settlement is computed without touching the ledger; when the
    // external transfer is refused, the leave is simply never committed.
    let mut store = ten_slot_lot();
    store.entering(ALICE, LOT, 1000, 0).unwrap();
    let settlement = store.prepare_leaving(ALICE, 60_000).unwrap();
    assert_eq!(settlement.amount, 6_600);
    // No commit happened: the session is still open, the slot still taken.
    assert_eq!(store.user_parking_info(ALICE).unwrap().user_id, ALICE);
    assert_eq!(store.parking_lots(LOT).unwrap().remain, 9);
    assert_eq!(store.current_parking_accounts(LOT), vec![ALICE]);
}

#[test]
fn indices_enumerate_lots_per_owner_and_globally() {
    let mut store = Store::new();
    let carol = 2u64;
    store.new_parking_lot(OWNER, 100, 0, 0, 5, 10, 20, 0).unwrap();
    store.new_parking_lot(carol, 200, 0, 0, 5, 10, 20, 0).unwrap();
    store.new_parking_lot(OWNER, 300, 0, 0, 5, 10, 20, 0).unwrap();
    assert_eq!(store.all_parking_lots_count(), 3);
    assert_eq!(store.parking_lots_by_index(0), Some(100));
    assert_eq!(store.parking_lots_by_index(1), Some(200));
    assert_eq!(store.parking_lots_by_index(2), Some(300));
    assert_eq!(store.parking_lots_by_index(3), None);
    assert_eq!(store.owner_parking_lots_count(OWNER), 2);
    assert_eq!(store.owner_parking_lots_count(carol), 1);
    assert_eq!(store.owner_parking_lots_count(BOB), 0);
    assert_eq!(store.owner_parking_lots_array(OWNER, 0), Some(100));
    assert_eq!(store.owner_parking_lots_array(OWNER, 1), Some(300));
    assert_eq!(store.owner_parking_lots_array(OWNER, 2), None);
    assert_eq!(store.owner_parking_lots_array(carol, 0), Some(200));
}

#[test]
fn pricing_failure_rejects_entry_unchanged() {
    // The lot's last update lies in the future of the entry time, so the
    // pricing engine refuses and the entry must change nothing.
    let mut store = Store::new();
    store
        .new_parking_lot(OWNER, LOT, 0, 0, 10, 100, 200, 50_000)
        .unwrap();
    assert_eq!(
        store.entering(ALICE, LOT, 1000, 10_000),
        Err(Error::TimeOrderingViolation)
    );
    assert_eq!(store.parking_lots(LOT).unwrap().remain, 10);
    assert_eq!(store.user_parking_info(ALICE), None);
}
