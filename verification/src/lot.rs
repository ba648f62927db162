use vstd::arithmetic::div_mod::{
    lemma_div_is_ordered, lemma_div_multiples_vanish, lemma_div_pos_is_pos,
};
use vstd::arithmetic::mul::lemma_mul_inequality;
use vstd::prelude::*;

use crate::types::{AccountId, Balance, Error, HashId, Moment};

verus! {

/// A parking facility: fixed capacity and position, dynamic unit price.
#[derive(Clone, Copy, Debug, PartialEq, Eq, Structural)]
pub struct ParkingLot {
    /// Identity of the creator; never changes after creation.
    pub owner: AccountId,
    /// Free slots, always between 0 and `capacity`.
    pub remain: u32,
    /// Total slots, fixed at creation and greater than 0.
    pub capacity: u32,
    /// The unit price last derived from occupancy; starts at `min_price`.
    pub current_price: Balance,
    /// Lower price bound.
    pub min_price: Balance,
    /// Upper price bound, at least `min_price`.
    pub max_price: Balance,
    /// Geocoordinate, informational only.
    pub latitude: i32,
    /// Geocoordinate, informational only.
    pub longitude: i32,
}

/// An active session: one user occupying one slot of one lot.
#[derive(Clone, Copy, Debug, PartialEq, Eq, Structural)]
pub struct ParkingInfo {
    /// The session's owner; at most one live session exists per user.
    pub user_id: AccountId,
    /// The lot being occupied.
    pub parking_lot_hash: HashId,
    /// Opaque identifier of this session, assigned at entry.
    pub info_hash: HashId,
    /// Timestamp at entry; never changes.
    pub enter_time: Moment,
    /// Timestamp of the last fee recomputation.
    pub current_time: Moment,
    /// Fee accrued up to `current_time`; starts at zero.
    pub current_fee: Balance,
}

/// Number of occupied slots of a lot.
pub open spec fn occupied_count(lot: ParkingLot) -> int {
    lot.capacity - lot.remain
}

/// The unit price linearly interpolated by the occupancy ratio:
/// `min_price + (occupied * (max_price - min_price)) / capacity`.
pub open spec fn interpolated_price(
    capacity: int,
    occupied: int,
    min_price: int,
    max_price: int,
) -> int {
    min_price + (occupied * (max_price - min_price)) / capacity
}

/// Whole seconds elapsed between two millisecond timestamps.
pub open spec fn elapsed_seconds(old_time: int, new_time: int) -> int {
    (new_time - old_time) / 1000
}

impl ParkingLot {
    /// Well-formedness: positive capacity, free slots within capacity,
    /// ordered price bounds, and a current price between the bounds.
    pub open spec fn wf(self) -> bool {
        &&& self.capacity > 0
        &&& self.remain <= self.capacity
        &&& self.min_price <= self.max_price
        &&& self.min_price <= self.current_price <= self.max_price
    }

    /// The unit price the pricing engine derives for this lot's occupancy.
    pub open spec fn spec_price(self) -> int {
        interpolated_price(
            self.capacity as int,
            occupied_count(self),
            self.min_price as int,
            self.max_price as int,
        )
    }

    /// Every checked step of the price interpolation stays within `u64`.
    pub open spec fn price_computable(self) -> bool {
        &&& self.capacity > 0
        &&& occupied_count(self) * (self.max_price - self.min_price) <= u64::MAX
        &&& self.spec_price() <= u64::MAX
    }

    /// What `compute_new_fee` returns, step for step: each guard is one
    /// checked arithmetic step of the engine, tested in the engine's order.
    pub open spec fn spec_compute_new_fee(self, new_time: Moment, old_time: Moment) -> Result<
        (Balance, Balance),
        Error,
    > {
        if self.remain > self.capacity {
            Err(Error::ArithmeticUnderflow)
        } else if new_time < old_time {
            Err(Error::TimeOrderingViolation)
        } else if self.max_price < self.min_price {
            Err(Error::InvalidPriceRange)
        } else if occupied_count(self) * (self.max_price - self.min_price) > u64::MAX {
            Err(Error::ArithmeticOverflow)
        } else if self.capacity == 0 {
            Err(Error::ArithmeticOverflow)
        } else if self.spec_price() > u64::MAX {
            Err(Error::ArithmeticOverflow)
        } else if elapsed_seconds(old_time as int, new_time as int) * self.spec_price()
            > u64::MAX {
            Err(Error::FeeOverflow)
        } else {
            Ok(
                (
                    (elapsed_seconds(old_time as int, new_time as int) * self.spec_price()) as Balance,
                    self.spec_price() as Balance,
                ),
            )
        }
    }

    /// Builds a lot with all slots free and the price at its lower bound.
    pub fn new(
        owner: AccountId,
        latitude: i32,
        longitude: i32,
        capacity: u32,
        min_price: Balance,
        max_price: Balance,
    ) -> (r: Self)
        ensures
            r == (ParkingLot {
                owner,
                remain: capacity,
                capacity,
                current_price: min_price,
                min_price,
                max_price,
                latitude,
                longitude,
            }),
    {
        Self {
            owner,
            capacity,
            current_price: min_price,
            min_price,
            max_price,
            remain: capacity,
            latitude,
            longitude,
        }
    }

    /// Derives the fee owed for the span `old_time..new_time` and the lot's
    /// current unit price. Every arithmetic step is individually checked, so
    /// an extreme input is rejected with a specific error instead of wrapping.
    pub fn compute_new_fee(&self, new_time: Moment, old_time: Moment) -> (r: Result<
        (Balance, Balance),
        Error,
    >)
        ensures
            r == self.spec_compute_new_fee(new_time, old_time),
    {
        let capacity: u64 = self.capacity as u64;
        let remain: u64 = self.remain as u64;
        let current_num: u64 = match capacity.checked_sub(remain) {
            Some(n) => n,
            None => {
                return Err(Error::ArithmeticUnderflow);
            },
        };
        let diff_millis: u64 = match new_time.checked_sub(old_time) {
            Some(d) => d,
            None => {
                return Err(Error::TimeOrderingViolation);
            },
        };
        let diff_time: u64 = diff_millis / 1000;
        let diff_price: u64 = match self.max_price.checked_sub(self.min_price) {
            Some(d) => d,
            None => {
                return Err(Error::InvalidPriceRange);
            },
        };
        let scaled: u64 = match current_num.checked_mul(diff_price) {
            Some(p) => p,
            None => {
                return Err(Error::ArithmeticOverflow);
            },
        };
        let quotient: u64 = match scaled.checked_div(capacity) {
            Some(q) => q,
            None => {
                return Err(Error::ArithmeticOverflow);
            },
        };
        let current_price: u64 = match quotient.checked_add(self.min_price) {
            Some(p) => p,
            None => {
                return Err(Error::ArithmeticOverflow);
            },
        };
        let fee: u64 = match diff_time.checked_mul(current_price) {
            Some(f) => f,
            None => {
                return Err(Error::FeeOverflow);
            },
        };
        Ok((fee, current_price))
    }
}

impl ParkingInfo {
    /// Opens a session: the fee starts at zero and the last-recomputation
    /// time starts at the entry time.
    pub fn new(
        user_id: AccountId,
        parking_lot_hash: HashId,
        info_hash: HashId,
        enter_time: Moment,
    ) -> (r: Self)
        ensures
            r == (ParkingInfo {
                user_id,
                parking_lot_hash,
                info_hash,
                enter_time,
                current_time: enter_time,
                current_fee: 0u64,
            }),
    {
        Self {
            user_id,
            parking_lot_hash,
            info_hash,
            enter_time,
            current_time: enter_time,
            current_fee: 0,
        }
    }
}

/// Law: for ordered bounds and an occupancy within capacity, the interpolated
/// price lies between the bounds.
pub proof fn lemma_price_within_bounds(
    capacity: int,
    occupied: int,
    min_price: int,
    max_price: int,
)
    requires
        0 < capacity,
        0 <= occupied <= capacity,
        0 <= min_price <= max_price,
    ensures
        min_price <= interpolated_price(capacity, occupied, min_price, max_price) <= max_price,
{
    let range = max_price - min_price;
    lemma_div_pos_is_pos(occupied * range, capacity);
    lemma_mul_inequality(occupied, capacity, range);
    lemma_div_is_ordered(occupied * range, capacity * range, capacity);
    lemma_div_multiples_vanish(range, capacity);
}

/// Law: for fixed capacity and bounds, the interpolated price is monotonically
/// non-decreasing in the number of occupied slots.
pub proof fn lemma_price_monotonic(
    capacity: int,
    occupied1: int,
    occupied2: int,
    min_price: int,
    max_price: int,
)
    requires
        0 < capacity,
        0 <= occupied1 <= occupied2,
        min_price <= max_price,
    ensures
        interpolated_price(capacity, occupied1, min_price, max_price) <= interpolated_price(
            capacity,
            occupied2,
            min_price,
            max_price,
        ),
{
    let range = max_price - min_price;
    lemma_mul_inequality(occupied1, occupied2, range);
    lemma_div_is_ordered(occupied1 * range, occupied2 * range, capacity);
}

/// Law: with equal timestamps the engine succeeds on any lot whose price
/// interpolation fits the numeric range, and the fee is zero.
pub proof fn lemma_zero_elapsed_zero_fee(lot: ParkingLot, time: Moment)
    requires
        lot.remain <= lot.capacity,
        lot.min_price <= lot.max_price,
        lot.price_computable(),
    ensures
        lot.spec_compute_new_fee(time, time) == Ok::<(Balance, Balance), Error>(
            (0u64, lot.spec_price() as Balance),
        ),
{
    assert(elapsed_seconds(time as int, time as int) == 0);
}

/// Law: whenever the new timestamp lies before the old one (and the slot
/// count is not itself corrupt), the engine rejects with
/// `TimeOrderingViolation`.
pub proof fn lemma_time_reversal_rejected(lot: ParkingLot, new_time: Moment, old_time: Moment)
    requires
        lot.remain <= lot.capacity,
        new_time < old_time,
    ensures
        lot.spec_compute_new_fee(new_time, old_time) == Err::<(Balance, Balance), Error>(
            Error::TimeOrderingViolation,
        ),
{
}

} // verus!
