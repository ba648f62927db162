//! A parking-facility ledger.
//!
//! Facilities ("parking lots") have a fixed capacity and a unit price that is
//! linearly interpolated between a lower and an upper bound by occupancy.
//! Users open a session by entering a lot and close it by leaving; the fee
//! owed grows with elapsed time and the unit price, computed with checked
//! integer arithmetic throughout.
//!
//! The crate is organised as:
//! - [`types`]: the plain identifier, time and money types and the error kinds;
//! - [`lot`]: the `ParkingLot` and `ParkingInfo` records and the pricing engine;
//! - [`store`]: the keyed registry of lots, sessions and enumeration indices,
//!   with the enter/leave lifecycle on top of it.
//!
//! External collaborators stay outside the crate: the clock hands every
//! operation its `now`, an identifier generator supplies fresh keys, and the
//! monetary ledger runs between [`store::Store::prepare_leaving`] and
//! [`store::Store::leaving`], so a refused transfer leaves the ledger
//! untouched and a user cannot exit without paying.

pub mod lot;
pub mod store;
pub mod types;
