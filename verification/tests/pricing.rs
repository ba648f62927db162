use parking_ledger::lot::{ParkingInfo, ParkingLot};
use parking_ledger::types::Error;

fn lot_with(remain: u32, capacity: u32, min_price: u64, max_price: u64) -> ParkingLot {
    ParkingLot {
        owner: 1,
        remain,
        capacity,
        current_price: min_price,
        min_price,
        max_price,
        latitude: 0,
        longitude: 0,
    }
}

#[test]
fn new_lot_starts_free_at_min_price() {
    let lot = ParkingLot::new(7, -45, 170, 12, 100, 200);
    assert_eq!(lot.owner, 7);
    assert_eq!(lot.latitude, -45);
    assert_eq!(lot.longitude, 170);
    assert_eq!(lot.capacity, 12);
    assert_eq!(lot.remain, 12);
    assert_eq!(lot.current_price, 100);
    assert_eq!(lot.min_price, 100);
    assert_eq!(lot.max_price, 200);
}

#[test]
fn new_info_starts_at_zero_fee() {
    let info = ParkingInfo::new(3, 40, 41, 5_000);
    assert_eq!(info.user_id, 3);
    assert_eq!(info.parking_lot_hash, 40);
    assert_eq!(info.info_hash, 41);
    assert_eq!(info.enter_time, 5_000);
    assert_eq!(info.current_time, 5_000);
    assert_eq!(info.current_fee, 0);
}

#[test]
fn price_stays_within_bounds() {
    for remain in 0..=10u32 {
        let lot = lot_with(remain, 10, 100, 200);
        let (_, price) = lot.compute_new_fee(1_000, 0).unwrap();
        assert!(price >= 100 && price <= 200);
    }
    let empty = lot_with(10, 10, 100, 200);
    assert_eq!(empty.compute_new_fee(0, 0).unwrap().1, 100);
    let full = lot_with(0, 10, 100, 200);
    assert_eq!(full.compute_new_fee(0, 0).unwrap().1, 200);
}

#[test]
fn price_grows_with_occupancy() {
    let mut last = 0u64;
    for occupied in 0..=10u32 {
        let lot = lot_with(10 - occupied, 10, 100, 200);
        let (_, price) = lot.compute_new_fee(0, 0).unwrap();
        assert!(price >= last);
        last = price;
    }
}

#[test]
fn equal_timestamps_give_zero_fee() {
    let lot = lot_with(4, 10, 100, 200);
    let (fee, price) = lot.compute_new_fee(123_456, 123_456).unwrap();
    assert_eq!(fee, 0);
    assert_eq!(price, 160);
}

#[test]
fn reversed_timestamps_are_rejected() {
    let lot = lot_with(4, 10, 100, 200);
    assert_eq!(lot.compute_new_fee(5, 10), Err(Error::TimeOrderingViolation));
}

#[test]
fn elapsed_time_is_truncated_to_seconds() {
    let lot = lot_with(9, 10, 100, 200);
    // 1999 ms is one whole second at unit price 110.
    assert_eq!(lot.compute_new_fee(1_999, 0).unwrap().0, 110);
    // 2000 ms is two.
    assert_eq!(lot.compute_new_fee(2_000, 0).unwrap().0, 220);
}

#[test]
fn corrupt_slot_count_is_rejected() {
    let lot = lot_with(11, 10, 100, 200);
    assert_eq!(lot.compute_new_fee(10, 0), Err(Error::ArithmeticUnderflow));
}

#[test]
fn crossed_bounds_are_rejected() {
    let lot = lot_with(4, 10, 200, 100);
    assert_eq!(lot.compute_new_fee(10, 0), Err(Error::InvalidPriceRange));
}

#[test]
fn price_interpolation_overflow_is_rejected() {
    let lot = lot_with(0, 2, 0, u64::MAX);
    assert_eq!(lot.compute_new_fee(10, 0), Err(Error::ArithmeticOverflow));
}

#[test]
fn zero_capacity_is_rejected() {
    let lot = lot_with(0, 0, 100, 200);
    assert_eq!(lot.compute_new_fee(10, 0), Err(Error::ArithmeticOverflow));
}

#[test]
fn fee_overflow_is_rejected() {
    let lot = lot_with(0, 1, u64::MAX, u64::MAX);
    assert_eq!(lot.compute_new_fee(2_000_000, 0), Err(Error::FeeOverflow));
}
