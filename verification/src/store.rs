use vstd::prelude::*;

use crate::lot::{ParkingInfo, ParkingLot};
use crate::types::{AccountId, Balance, Error, HashId, Moment};

verus! {

broadcast use vstd::std_specs::hash::group_hash_axioms;

/// The ledger state as mathematics: each keyed collection as a `Map`, each
/// ordered index as a `Seq`.
#[verifier::ext_equal]
pub ghost struct StoreView {
    /// Every lot, by its key.
    pub lots: Map<HashId, ParkingLot>,
    /// Per lot, the timestamp of the last price recomputation.
    pub last_time: Map<HashId, Moment>,
    /// Per lot, the users currently occupying a slot, in entry order.
    pub occupants: Map<HashId, Seq<AccountId>>,
    /// Per user, the live session, at most one.
    pub sessions: Map<AccountId, ParkingInfo>,
    /// Per owner, the keys of the lots they created, in creation order.
    pub owner_lots: Map<AccountId, Seq<HashId>>,
    /// All lot keys, in creation order.
    pub lot_index: Seq<HashId>,
}

/// The registry: one encapsulated store owning every keyed collection of the
/// ledger, mutated only through the lifecycle operations.
pub struct Store {
    lots: std::collections::HashMap<HashId, ParkingLot>,
    last_time: std::collections::HashMap<HashId, Moment>,
    occupants: std::collections::HashMap<HashId, Vec<AccountId>>,
    sessions: std::collections::HashMap<AccountId, ParkingInfo>,
    owner_lots: std::collections::HashMap<AccountId, Vec<HashId>>,
    lot_index: Vec<HashId>,
}

/// A sequence without repeated elements.
pub open spec fn unique_seq<T>(s: Seq<T>) -> bool {
    forall|i: int, j: int| 0 <= i < j < s.len() ==> s[i] != s[j]
}

/// The view of a map of vectors: the same keys, each vector as its sequence.
pub open spec fn seq_view_map<T>(m: Map<u64, Vec<T>>) -> Map<u64, Seq<T>> {
    Map::new(|k: u64| m.contains_key(k), |k: u64| m[k]@)
}

impl View for Store {
    type V = StoreView;

    closed spec fn view(&self) -> StoreView {
        StoreView {
            lots: self.lots@,
            last_time: self.last_time@,
            occupants: seq_view_map(self.occupants@),
            sessions: self.sessions@,
            owner_lots: seq_view_map(self.owner_lots@),
            lot_index: self.lot_index@,
        }
    }
}

/// The registry invariant, held before and after every operation:
/// - every lot is well-formed;
/// - the occupant list, the last-update time and the indices exist exactly
///   for the lots that exist;
/// - a lot's free slots are its capacity minus the size of its occupant set;
/// - a user stands in a lot's occupant list if and only if they hold a live
///   session naming that lot;
/// - the global index and each owner's index list each lot exactly once.
pub open spec fn store_wf(v: StoreView) -> bool {
    &&& forall|h: HashId| #[trigger] v.lots.contains_key(h) ==> v.lots[h].wf()
    &&& forall|h: HashId| #[trigger] v.last_time.contains_key(h) <==> v.lots.contains_key(h)
    &&& forall|h: HashId| #[trigger] v.occupants.contains_key(h) <==> v.lots.contains_key(h)
    &&& forall|h: HashId| #[trigger] v.lots.contains_key(h) ==> unique_seq(v.occupants[h])
    &&& forall|h: HashId| #[trigger] v.lots.contains_key(h)
        ==> v.lots[h].remain as int == v.lots[h].capacity as int - v.occupants[h].len()
    &&& forall|h: HashId, u: AccountId|
        v.lots.contains_key(h) && #[trigger] v.occupants[h].contains(u)
            ==> v.sessions.contains_key(u) && v.sessions[u].parking_lot_hash == h
    &&& forall|u: AccountId| #[trigger] v.sessions.contains_key(u) ==> {
        &&& v.sessions[u].user_id == u
        &&& v.lots.contains_key(v.sessions[u].parking_lot_hash)
        &&& v.occupants[v.sessions[u].parking_lot_hash].contains(u)
    }
    &&& unique_seq(v.lot_index)
    &&& forall|i: int| 0 <= i < v.lot_index.len() ==> v.lots.contains_key(#[trigger] v.lot_index[i])
    &&& forall|h: HashId| #[trigger] v.lots.contains_key(h) ==> v.lot_index.contains(h)
    &&& forall|o: AccountId, i: int|
        #![trigger v.owner_lots[o][i]]
        v.owner_lots.contains_key(o) && 0 <= i < v.owner_lots[o].len() ==> {
            &&& v.lots.contains_key(v.owner_lots[o][i])
            &&& v.lots[v.owner_lots[o][i]].owner == o
        }
    &&& forall|o: AccountId| #[trigger] v.owner_lots.contains_key(o) ==> unique_seq(v.owner_lots[o])
    &&& forall|h: HashId| #[trigger] v.lots.contains_key(h) ==> {
        &&& v.owner_lots.contains_key(v.lots[h].owner)
        &&& v.owner_lots[v.lots[h].owner].contains(h)
    }
}

/// The ledger state a successful lot creation leads to, and the error any
/// other creation attempt is rejected with.
pub open spec fn spec_new_parking_lot(
    v: StoreView,
    owner: AccountId,
    hash: HashId,
    latitude: i32,
    longitude: i32,
    capacity: u32,
    min_price: Balance,
    max_price: Balance,
    now: Moment,
) -> Result<StoreView, Error> {
    if capacity == 0 || min_price > max_price {
        Err(Error::InvalidParameters)
    } else {
        let lot = ParkingLot {
            owner,
            remain: capacity,
            capacity,
            current_price: min_price,
            min_price,
            max_price,
            latitude,
            longitude,
        };
        let owned = if v.owner_lots.contains_key(owner) {
            v.owner_lots[owner]
        } else {
            Seq::empty()
        };
        Ok(
            StoreView {
                lots: v.lots.insert(hash, lot),
                last_time: v.last_time.insert(hash, now),
                occupants: v.occupants.insert(hash, Seq::empty()),
                sessions: v.sessions,
                owner_lots: v.owner_lots.insert(owner, owned.push(hash)),
                lot_index: v.lot_index.push(hash),
            },
        )
    }
}

/// Creating a lot under a fresh key preserves the registry invariant.
proof fn lemma_wf_after_create(
    v: StoreView,
    owner: AccountId,
    hash: HashId,
    latitude: i32,
    longitude: i32,
    capacity: u32,
    min_price: Balance,
    max_price: Balance,
    now: Moment,
)
    requires
        store_wf(v),
        !v.lots.contains_key(hash),
        capacity > 0,
        min_price <= max_price,
    ensures
        store_wf(
            spec_new_parking_lot(
                v,
                owner,
                hash,
                latitude,
                longitude,
                capacity,
                min_price,
                max_price,
                now,
            ).unwrap(),
        ),
{
    broadcast use vstd::seq_lib::lemma_seq_contains_after_push;

    let v2 = spec_new_parking_lot(
        v,
        owner,
        hash,
        latitude,
        longitude,
        capacity,
        min_price,
        max_price,
        now,
    ).unwrap();
    // The fresh key stands in no index yet: index entries are keys of lots.
    assert(!v.lot_index.contains(hash)) by {
        if v.lot_index.contains(hash) {
            let i = choose|i: int| 0 <= i < v.lot_index.len() && v.lot_index[i] == hash;
            assert(v.lots.contains_key(v.lot_index[i]));
        }
    }
    assert(unique_seq(v2.lot_index)) by {
        assert(forall|i: int|
            0 <= i < v.lot_index.len() ==> v2.lot_index[i] == #[trigger] v.lot_index[i]);
    }
    assert(forall|i: int|
        0 <= i < v2.lot_index.len() ==> v2.lots.contains_key(#[trigger] v2.lot_index[i]));
    assert forall|h: HashId| #[trigger] v2.lots.contains_key(h) implies v2.lot_index.contains(
        h,
    ) by {
        if h == hash {
            assert(v2.lot_index[v.lot_index.len() as int] == hash);
        } else {
            let i = v.lot_index.lemma_contains_to_index(h);
            assert(v2.lot_index[i] == h);
        }
    }
    // Each owner's index still lists only that owner's lots, each once.
    let owned = if v.owner_lots.contains_key(owner) {
        v.owner_lots[owner]
    } else {
        Seq::empty()
    };
    assert(!owned.contains(hash)) by {
        if owned.contains(hash) {
            let i = owned.lemma_contains_to_index(hash);
            assert(v.lots.contains_key(v.owner_lots[owner][i]));
        }
    }
    assert forall|o: AccountId, i: int|
        v2.owner_lots.contains_key(o) && 0 <= i < v2.owner_lots[o].len() implies {
        &&& v2.lots.contains_key(#[trigger] v2.owner_lots[o][i])
        &&& v2.lots[v2.owner_lots[o][i]].owner == o
    } by {
        if o == owner {
            if i < owned.len() {
                assert(v2.owner_lots[o][i] == owned[i]);
                assert(v.lots.contains_key(owned[i]));
            } else {
                assert(v2.owner_lots[o][i] == hash);
            }
        } else {
            assert(v.owner_lots.contains_key(o) && v.owner_lots[o] == v2.owner_lots[o]);
        }
    }
    assert forall|o: AccountId| #[trigger] v2.owner_lots.contains_key(o) implies unique_seq(
        v2.owner_lots[o],
    ) by {
        if o == owner {
            assert(forall|i: int| 0 <= i < owned.len() ==> v2.owner_lots[o][i] == #[trigger] owned[i]);
        }
    }
    assert forall|h: HashId| #[trigger] v2.lots.contains_key(h) implies {
        &&& v2.owner_lots.contains_key(v2.lots[h].owner)
        &&& v2.owner_lots[v2.lots[h].owner].contains(h)
    } by {
        if h == hash {
            assert(v2.owner_lots[owner][owned.len() as int] == hash);
        } else {
            let o = v.lots[h].owner;
            if o == owner {
                if v.owner_lots.contains_key(owner) {
                    let i = v.owner_lots[owner].lemma_contains_to_index(h);
                    assert(v2.owner_lots[owner][i] == h);
                }
            }
        }
    }
    // Sessions are untouched, and none of them can name the fresh key.
    assert forall|u: AccountId| #[trigger] v2.sessions.contains_key(u) implies {
        &&& v2.sessions[u].user_id == u
        &&& v2.lots.contains_key(v2.sessions[u].parking_lot_hash)
        &&& v2.occupants[v2.sessions[u].parking_lot_hash].contains(u)
    } by {
        assert(v.lots.contains_key(v.sessions[u].parking_lot_hash));
    }
}

/// The ledger state a successful entry leads to, and the error any other
/// entry attempt is rejected with. On success the lot loses one free slot,
/// its price is recomputed for the new occupancy, the user joins the lot's
/// occupant list and receives a fresh session, and the lot's last-update
/// time advances to `now`.
pub open spec fn spec_entering(
    v: StoreView,
    user: AccountId,
    hash: HashId,
    info_hash: HashId,
    now: Moment,
) -> Result<StoreView, Error> {
    if !v.lots.contains_key(hash) {
        Err(Error::NotFound)
    } else if v.lots[hash].remain == 0 {
        Err(Error::LotFull)
    } else if v.sessions.contains_key(user) {
        Err(Error::AlreadyParked)
    } else {
        let lot1 = ParkingLot { remain: (v.lots[hash].remain - 1) as u32, ..v.lots[hash] };
        match lot1.spec_compute_new_fee(now, v.last_time[hash]) {
            Err(e) => Err(e),
            Ok((_fee, price)) => Ok(
                StoreView {
                    lots: v.lots.insert(hash, ParkingLot { current_price: price, ..lot1 }),
                    last_time: v.last_time.insert(hash, now),
                    occupants: v.occupants.insert(hash, v.occupants[hash].push(user)),
                    sessions: v.sessions.insert(
                        user,
                        ParkingInfo {
                            user_id: user,
                            parking_lot_hash: hash,
                            info_hash,
                            enter_time: now,
                            current_time: now,
                            current_fee: 0u64,
                        },
                    ),
                    owner_lots: v.owner_lots,
                    lot_index: v.lot_index,
                },
            ),
        }
    }
}

/// A successful entry preserves the registry invariant.
proof fn lemma_wf_after_entering(
    v: StoreView,
    user: AccountId,
    hash: HashId,
    info_hash: HashId,
    now: Moment,
)
    requires
        store_wf(v),
        spec_entering(v, user, hash, info_hash, now) is Ok,
    ensures
        store_wf(spec_entering(v, user, hash, info_hash, now).unwrap()),
{
    broadcast use vstd::seq_lib::lemma_seq_contains_after_push;

    let v2 = spec_entering(v, user, hash, info_hash, now).unwrap();
    let lot = v.lots[hash];
    let lot1 = ParkingLot { remain: (lot.remain - 1) as u32, ..lot };
    let price = lot1.spec_compute_new_fee(now, v.last_time[hash]).unwrap().1;
    // The recomputed price respects the lot's bounds.
    assert(lot1.spec_price() == price) by {
        assert(lot1.spec_compute_new_fee(now, v.last_time[hash]) is Ok);
    }
    crate::lot::lemma_price_within_bounds(
        lot.capacity as int,
        crate::lot::occupied_count(lot1),
        lot.min_price as int,
        lot.max_price as int,
    );
    assert(v2.lots[hash].wf());
    // The entering user was in no occupant list: they held no session.
    assert(!v.occupants[hash].contains(user));
    assert(unique_seq(v2.occupants[hash])) by {
        let s = v.occupants[hash];
        assert forall|i: int, j: int| 0 <= i < j < s.push(user).len() implies s.push(user)[i]
            != s.push(user)[j] by {
            if j == s.len() {
                assert(s.contains(s[i]));
            }
        }
    }
    // Occupant lists and sessions stay matched in both directions.
    assert forall|h: HashId, u: AccountId|
        v2.lots.contains_key(h) && #[trigger] v2.occupants[h].contains(u) implies v2.sessions.contains_key(u)
        && v2.sessions[u].parking_lot_hash == h by {
        if h == hash {
            if u != user {
                assert(v.occupants[h].contains(u));
            }
        } else {
            assert(v.occupants[h].contains(u));
            assert(u != user);
        }
    }
    assert forall|u: AccountId| #[trigger] v2.sessions.contains_key(u) implies {
        &&& v2.sessions[u].user_id == u
        &&& v2.lots.contains_key(v2.sessions[u].parking_lot_hash)
        &&& v2.occupants[v2.sessions[u].parking_lot_hash].contains(u)
    } by {
        if u == user {
            assert(v2.occupants[hash][v.occupants[hash].len() as int] == user);
        } else {
            assert(v.sessions.contains_key(u));
            let h = v.sessions[u].parking_lot_hash;
            if h == hash {
                assert(v.occupants[h].contains(u));
            }
        }
    }
    // The unchanged indices still describe the unchanged keys and owners.
    assert forall|h: HashId| #[trigger] v2.lots.contains_key(h) implies {
        &&& v2.owner_lots.contains_key(v2.lots[h].owner)
        &&& v2.owner_lots[v2.lots[h].owner].contains(h)
    } by {
        assert(v.lots.contains_key(h));
        assert(v2.lots[h].owner == v.lots[h].owner);
    }
}

/// What a closing session owes: the debit the external monetary ledger is
/// asked to make before the session may be cleared.
#[derive(Clone, Copy, Debug, PartialEq, Eq, Structural)]
pub struct Settlement {
    /// The leaving user, whose account is debited.
    pub payer: AccountId,
    /// The lot's owner, whose account is credited.
    pub payee: AccountId,
    /// The whole fee owed: the session's accrued fee plus the fee for the
    /// final span.
    pub amount: Balance,
    /// The lot being left.
    pub parking_lot_hash: HashId,
}

/// The settlement a leave of `user` at `now` asks for, and the error the
/// attempt is rejected with otherwise. Reading only; no state changes.
pub open spec fn spec_prepare_leaving(v: StoreView, user: AccountId, now: Moment) -> Result<
    Settlement,
    Error,
> {
    if !v.sessions.contains_key(user) {
        Err(Error::NotFound)
    } else {
        let info = v.sessions[user];
        let h = info.parking_lot_hash;
        if !v.lots.contains_key(h) {
            Err(Error::NotFound)
        } else {
            match v.lots[h].spec_compute_new_fee(now, info.current_time) {
                Err(e) => Err(e),
                Ok((fee, _price)) => {
                    if info.current_fee + fee > u64::MAX {
                        Err(Error::FeeOverflow)
                    } else {
                        Ok(
                            Settlement {
                                payer: user,
                                payee: v.lots[h].owner,
                                amount: (info.current_fee + fee) as Balance,
                                parking_lot_hash: h,
                            },
                        )
                    }
                },
            }
        }
    }
}

/// The ledger state a successful leave leads to: the lot regains one free
/// slot, takes the price the engine returned and the new last-update time,
/// the user leaves the occupant list and their session closes. The fee is
/// computed with the leaver still counted, so the span they stayed is billed
/// at the occupancy they contributed to.
pub open spec fn spec_leaving(v: StoreView, user: AccountId, now: Moment) -> Result<
    (StoreView, Settlement),
    Error,
> {
    match spec_prepare_leaving(v, user, now) {
        Err(e) => Err(e),
        Ok(s) => {
            let info = v.sessions[user];
            let h = info.parking_lot_hash;
            let price = v.lots[h].spec_compute_new_fee(now, info.current_time).unwrap().1;
            let lot1 = ParkingLot {
                remain: (v.lots[h].remain + 1) as u32,
                current_price: price,
                ..v.lots[h]
            };
            Ok(
                (
                    StoreView {
                        lots: v.lots.insert(h, lot1),
                        last_time: v.last_time.insert(h, now),
                        occupants: v.occupants.insert(h, v.occupants[h].remove_value(user)),
                        sessions: v.sessions.remove(user),
                        owner_lots: v.owner_lots,
                        lot_index: v.lot_index,
                    },
                    s,
                ),
            )
        },
    }
}

/// Removing a value that occurs once from a duplicate-free sequence: the
/// sequence shortens by one, stays duplicate-free, loses exactly that value,
/// and keeps every other value.
proof fn lemma_remove_value_unique(s: Seq<AccountId>, x: AccountId)
    requires
        unique_seq(s),
        s.contains(x),
    ensures
        s.remove_value(x).len() == s.len() - 1,
        unique_seq(s.remove_value(x)),
        !s.remove_value(x).contains(x),
        forall|y: AccountId| y != x ==> (s.remove_value(x).contains(y) <==> s.contains(y)),
{
    s.index_of_first_ensures(x);
    let i = s.index_of_first(x).unwrap();
    s.remove_ensures(i);
    let s2 = s.remove_value(x);
    assert(!s2.contains(x)) by {
        if s2.contains(x) {
            let j = s2.lemma_contains_to_index(x);
            if j < i {
                assert(s[j] == x);
            } else {
                assert(s[j + 1] == x);
            }
        }
    }
    assert forall|y: AccountId| y != x && s.contains(y) implies s2.contains(y) by {
        let j = s.lemma_contains_to_index(y);
        if j < i {
            assert(s2[j] == y);
        } else {
            assert(j > i);
            assert(s2[j - 1] == y);
        }
    }
    assert forall|y: AccountId| y != x && s2.contains(y) implies s.contains(y) by {
        let j = s2.lemma_contains_to_index(y);
        if j < i {
            assert(s[j] == y);
        } else {
            assert(s[j + 1] == y);
        }
    }
}

/// A successful leave preserves the registry invariant.
proof fn lemma_wf_after_leaving(v: StoreView, user: AccountId, now: Moment)
    requires
        store_wf(v),
        spec_leaving(v, user, now) is Ok,
    ensures
        store_wf(spec_leaving(v, user, now).unwrap().0),
{
    let v2 = spec_leaving(v, user, now).unwrap().0;
    let info = v.sessions[user];
    let h = info.parking_lot_hash;
    let lot = v.lots[h];
    let price = lot.spec_compute_new_fee(now, info.current_time).unwrap().1;
    // The leaver stands in the lot's occupant list, so the list is not empty.
    assert(v.occupants[h].contains(user));
    lemma_remove_value_unique(v.occupants[h], user);
    // The recomputed price respects the lot's bounds.
    assert(lot.spec_price() == price) by {
        assert(lot.spec_compute_new_fee(now, info.current_time) is Ok);
    }
    crate::lot::lemma_price_within_bounds(
        lot.capacity as int,
        crate::lot::occupied_count(lot),
        lot.min_price as int,
        lot.max_price as int,
    );
    assert(v2.lots[h].wf());
    // Occupant lists and sessions stay matched in both directions.
    assert forall|h2: HashId, u: AccountId|
        v2.lots.contains_key(h2) && #[trigger] v2.occupants[h2].contains(u) implies v2.sessions.contains_key(u)
        && v2.sessions[u].parking_lot_hash == h2 by {
        if h2 == h {
            assert(v.occupants[h2].contains(u) && u != user);
        } else {
            assert(v.occupants[h2].contains(u));
            assert(u != user);
        }
    }
    assert forall|u: AccountId| #[trigger] v2.sessions.contains_key(u) implies {
        &&& v2.sessions[u].user_id == u
        &&& v2.lots.contains_key(v2.sessions[u].parking_lot_hash)
        &&& v2.occupants[v2.sessions[u].parking_lot_hash].contains(u)
    } by {
        assert(u != user);
        assert(v.sessions.contains_key(u));
        let h2 = v.sessions[u].parking_lot_hash;
        assert(v.occupants[h2].contains(u));
    }
    // The unchanged indices still describe the unchanged keys and owners.
    assert forall|h2: HashId| #[trigger] v2.lots.contains_key(h2) implies {
        &&& v2.owner_lots.contains_key(v2.lots[h2].owner)
        &&& v2.owner_lots[v2.lots[h2].owner].contains(h2)
    } by {
        assert(v.lots.contains_key(h2));
        assert(v2.lots[h2].owner == v.lots[h2].owner);
    }
}

impl Store {
    /// An empty registry: no lots, no sessions, no indices.
    pub fn new() -> (r: Store)
        ensures
            r@.lots == Map::<HashId, ParkingLot>::empty(),
            r@.last_time == Map::<HashId, Moment>::empty(),
            r@.occupants == Map::<HashId, Seq<AccountId>>::empty(),
            r@.sessions == Map::<AccountId, ParkingInfo>::empty(),
            r@.owner_lots == Map::<AccountId, Seq<HashId>>::empty(),
            r@.lot_index == Seq::<HashId>::empty(),
            store_wf(r@),
    {
        let r = Store {
            lots: std::collections::HashMap::new(),
            last_time: std::collections::HashMap::new(),
            occupants: std::collections::HashMap::new(),
            sessions: std::collections::HashMap::new(),
            owner_lots: std::collections::HashMap::new(),
            lot_index: Vec::new(),
        };
        proof {
            assert(seq_view_map(r.occupants@) =~= Map::<u64, Seq<AccountId>>::empty());
            assert(seq_view_map(r.owner_lots@) =~= Map::<u64, Seq<HashId>>::empty());
        }
        r
    }

    /// Creates a lot under a fresh key: validates the parameters, stores the
    /// lot with all slots free and the price at its lower bound, seeds its
    /// last-update time, and appends it to the global and the owner's index.
    pub fn new_parking_lot(
        &mut self,
        owner: AccountId,
        hash: HashId,
        latitude: i32,
        longitude: i32,
        capacity: u32,
        min_price: Balance,
        max_price: Balance,
        now: Moment,
    ) -> (r: Result<(), Error>)
        requires
            store_wf(old(self)@),
            !old(self)@.lots.contains_key(hash),
        ensures
            (match spec_new_parking_lot(
                old(self)@,
                owner,
                hash,
                latitude,
                longitude,
                capacity,
                min_price,
                max_price,
                now,
            ) {
                Ok(v2) => r == Ok::<(), Error>(()) && final(self)@ == v2,
                Err(e) => r == Err::<(), Error>(e) && final(self)@ == old(self)@,
            }),
            store_wf(final(self)@),
    {
        if capacity == 0 || min_price > max_price {
            return Err(Error::InvalidParameters);
        }
        let lot = ParkingLot::new(owner, latitude, longitude, capacity, min_price, max_price);
        self.lots.insert(hash, lot);
        self.last_time.insert(hash, now);
        self.occupants.insert(hash, Vec::new());
        let mut owned: Vec<HashId> = match self.owner_lots.remove(&owner) {
            Some(l) => l,
            None => Vec::new(),
        };
        owned.push(hash);
        self.owner_lots.insert(owner, owned);
        self.lot_index.push(hash);
        proof {
            let v = old(self)@;
            let v2 = spec_new_parking_lot(
                v,
                owner,
                hash,
                latitude,
                longitude,
                capacity,
                min_price,
                max_price,
                now,
            ).unwrap();
            assert(self@.occupants =~= v2.occupants);
            assert(self@.owner_lots =~= v2.owner_lots);
            assert(self@ =~= v2);
            lemma_wf_after_create(
                v,
                owner,
                hash,
                latitude,
                longitude,
                capacity,
                min_price,
                max_price,
                now,
            );
        }
        Ok(())
    }

    /// A user enters a lot: one free slot is taken, the unit price is
    /// recomputed for the new occupancy, and a fresh session opens. Rejected
    /// when the lot is unknown, full, the user is already parked, or a
    /// checked step of the pricing engine fails; a rejected entry leaves the
    /// ledger exactly as it was.
    pub fn entering(
        &mut self,
        user: AccountId,
        parking_lot_hash: HashId,
        info_hash: HashId,
        now: Moment,
    ) -> (r: Result<(), Error>)
        requires
            store_wf(old(self)@),
        ensures
            (match spec_entering(old(self)@, user, parking_lot_hash, info_hash, now) {
                Ok(v2) => r == Ok::<(), Error>(()) && final(self)@ == v2,
                Err(e) => r == Err::<(), Error>(e) && final(self)@ == old(self)@,
            }),
            store_wf(final(self)@),
    {
        let lot = match self.lots.get(&parking_lot_hash) {
            Some(l) => *l,
            None => {
                return Err(Error::NotFound);
            },
        };
        if lot.remain == 0 {
            return Err(Error::LotFull);
        }
        if self.sessions.contains_key(&user) {
            return Err(Error::AlreadyParked);
        }
        let last: Moment = match self.last_time.get(&parking_lot_hash) {
            Some(t) => *t,
            None => {
                proof {
                    assert(old(self)@.last_time.contains_key(parking_lot_hash));
                }
                return Err(Error::NotFound);
            },
        };
        let mut lot1 = lot;
        lot1.remain = lot.remain - 1;
        let price: Balance = match lot1.compute_new_fee(now, last) {
            Ok(pair) => pair.1,
            Err(e) => {
                return Err(e);
            },
        };
        lot1.current_price = price;
        self.lots.insert(parking_lot_hash, lot1);
        self.last_time.insert(parking_lot_hash, now);
        let mut present: Vec<AccountId> = match self.occupants.remove(&parking_lot_hash) {
            Some(l) => l,
            None => {
                proof {
                    assert(old(self)@.lots.contains_key(parking_lot_hash));
                    assert(old(self)@.occupants.contains_key(parking_lot_hash));
                    assert(old(self).occupants@.contains_key(parking_lot_hash));
                    assert(false);
                }
                Vec::new()
            },
        };
        present.push(user);
        self.occupants.insert(parking_lot_hash, present);
        let info = ParkingInfo::new(user, parking_lot_hash, info_hash, now);
        self.sessions.insert(user, info);
        proof {
            let v = old(self)@;
            let v2 = spec_entering(v, user, parking_lot_hash, info_hash, now).unwrap();
            assert(self@.occupants =~= v2.occupants);
            assert(self@.owner_lots =~= v2.owner_lots);
            assert(self@ =~= v2);
            lemma_wf_after_entering(v, user, parking_lot_hash, info_hash, now);
        }
        Ok(())
    }

    /// Computes what a leave of `user` at `now` would owe, and to whom,
    /// without changing anything. The caller hands the settlement to the
    /// external monetary ledger and, only once the transfer went through,
    /// commits the leave with `leaving`; a refused transfer leaves the
    /// ledger untouched because nothing was changed here.
    pub fn prepare_leaving(&self, user: AccountId, now: Moment) -> (r: Result<Settlement, Error>)
        ensures
            r == spec_prepare_leaving(self@, user, now),
    {
        let info = match self.sessions.get(&user) {
            Some(i) => *i,
            None => {
                return Err(Error::NotFound);
            },
        };
        let lot = match self.lots.get(&info.parking_lot_hash) {
            Some(l) => *l,
            None => {
                return Err(Error::NotFound);
            },
        };
        let fee: Balance = match lot.compute_new_fee(now, info.current_time) {
            Ok(pair) => pair.0,
            Err(e) => {
                return Err(e);
            },
        };
        let amount: Balance = match info.current_fee.checked_add(fee) {
            Some(a) => a,
            None => {
                return Err(Error::FeeOverflow);
            },
        };
        Ok(
            Settlement {
                payer: user,
                payee: lot.owner,
                amount,
                parking_lot_hash: info.parking_lot_hash,
            },
        )
    }

    /// Commits a leave: recomputes the same settlement `prepare_leaving`
    /// reported, returns one slot to the lot, stores the recomputed price and
    /// last-update time, drops the user from the occupant list and closes the
    /// session. Rejected, with the ledger exactly as it was, whenever
    /// `prepare_leaving` would be.
    pub fn leaving(&mut self, user: AccountId, now: Moment) -> (r: Result<Settlement, Error>)
        requires
            store_wf(old(self)@),
        ensures
            (match spec_leaving(old(self)@, user, now) {
                Ok(pair) => r == Ok::<Settlement, Error>(pair.1) && final(self)@ == pair.0,
                Err(e) => r == Err::<Settlement, Error>(e) && final(self)@ == old(self)@,
            }),
            store_wf(final(self)@),
    {
        let info = match self.sessions.get(&user) {
            Some(i) => *i,
            None => {
                return Err(Error::NotFound);
            },
        };
        let h = info.parking_lot_hash;
        let lot = match self.lots.get(&h) {
            Some(l) => *l,
            None => {
                return Err(Error::NotFound);
            },
        };
        let pair = match lot.compute_new_fee(now, info.current_time) {
            Ok(p) => p,
            Err(e) => {
                return Err(e);
            },
        };
        let fee: Balance = pair.0;
        let price: Balance = pair.1;
        let amount: Balance = match info.current_fee.checked_add(fee) {
            Some(a) => a,
            None => {
                return Err(Error::FeeOverflow);
            },
        };
        proof {
            // The leaver stands in the lot's occupant list, so the lot has
            // at least one occupied slot and `remain` can grow by one.
            assert(old(self)@.occupants[h].contains(user));
            old(self)@.occupants[h].lemma_contains_to_index(user);
        }
        let mut lot1 = lot;
        lot1.remain = lot.remain + 1;
        lot1.current_price = price;
        self.lots.insert(h, lot1);
        self.last_time.insert(h, now);
        let mut present: Vec<AccountId> = match self.occupants.remove(&h) {
            Some(l) => l,
            None => {
                proof {
                    assert(old(self)@.occupants.contains_key(h));
                    assert(old(self).occupants@.contains_key(h));
                    assert(false);
                }
                Vec::new()
            },
        };
        let ghost s = present@;
        let mut idx: usize = 0;
        while idx < present.len() && present[idx] != user
            invariant
                present@ == s,
                s.contains(user),
                0 <= idx <= s.len(),
                forall|j: int| 0 <= j < idx ==> s[j] != user,
            decreases s.len() - idx,
        {
            idx += 1;
        }
        proof {
            if idx == s.len() {
                let j = s.lemma_contains_to_index(user);
                assert(false);
            }
            s.index_of_first_ensures(user);
            let first = s.index_of_first(user).unwrap();
            if first < idx {
                assert(s[first] != user);
            }
            assert(first == idx);
        }
        present.remove(idx);
        self.occupants.insert(h, present);
        self.sessions.remove(&user);
        proof {
            let v = old(self)@;
            let v2 = spec_leaving(v, user, now).unwrap().0;
            assert(self@.occupants =~= v2.occupants);
            assert(self@.owner_lots =~= v2.owner_lots);
            assert(self@ =~= v2);
            lemma_wf_after_leaving(v, user, now);
        }
        Ok(Settlement { payer: user, payee: lot.owner, amount, parking_lot_hash: h })
    }

    /// The lot stored under `hash`, if any.
    pub fn parking_lots(&self, hash: HashId) -> (r: Option<ParkingLot>)
        ensures
            r == (if self@.lots.contains_key(hash) {
                Some(self@.lots[hash])
            } else {
                None::<ParkingLot>
            }),
    {
        match self.lots.get(&hash) {
            Some(l) => Some(*l),
            None => None,
        }
    }

    /// The timestamp of the last price recomputation of `hash`, if the lot
    /// exists.
    pub fn parking_lot_last_time(&self, hash: HashId) -> (r: Option<Moment>)
        ensures
            r == (if self@.last_time.contains_key(hash) {
                Some(self@.last_time[hash])
            } else {
                None::<Moment>
            }),
    {
        match self.last_time.get(&hash) {
            Some(t) => Some(*t),
            None => None,
        }
    }

    /// The users currently occupying a slot of `hash`, in entry order; empty
    /// for an unknown lot.
    pub fn current_parking_accounts(&self, hash: HashId) -> (r: Vec<AccountId>)
        ensures
            r@ == (if self@.occupants.contains_key(hash) {
                self@.occupants[hash]
            } else {
                Seq::<AccountId>::empty()
            }),
    {
        let mut out: Vec<AccountId> = Vec::new();
        match self.occupants.get(&hash) {
            Some(l) => {
                let mut i: usize = 0;
                while i < l.len()
                    invariant
                        i <= l.len(),
                        out@ == l@.subrange(0, i as int),
                    decreases l.len() - i,
                {
                    out.push(l[i]);
                    i += 1;
                }
                proof {
                    assert(out@ =~= l@);
                }
                out
            },
            None => out,
        }
    }

    /// The live session of `user`, if any.
    pub fn user_parking_info(&self, user: AccountId) -> (r: Option<ParkingInfo>)
        ensures
            r == (if self@.sessions.contains_key(user) {
                Some(self@.sessions[user])
            } else {
                None::<ParkingInfo>
            }),
    {
        match self.sessions.get(&user) {
            Some(i) => Some(*i),
            None => None,
        }
    }

    /// How many lots `owner` has created.
    pub fn owner_parking_lots_count(&self, owner: AccountId) -> (r: u64)
        ensures
            r == (if self@.owner_lots.contains_key(owner) {
                self@.owner_lots[owner].len() as u64
            } else {
                0u64
            }),
    {
        match self.owner_lots.get(&owner) {
            Some(l) => l.len() as u64,
            None => 0,
        }
    }

    /// The key of the lot `owner` created at ordinal `index`, ordinals being
    /// dense from 0 in creation order.
    pub fn owner_parking_lots_array(&self, owner: AccountId, index: u64) -> (r: Option<HashId>)
        ensures
            r == (if self@.owner_lots.contains_key(owner) && index < self@.owner_lots[owner].len() {
                Some(self@.owner_lots[owner][index as int])
            } else {
                None::<HashId>
            }),
    {
        match self.owner_lots.get(&owner) {
            Some(l) => {
                if index < l.len() as u64 {
                    Some(l[index as usize])
                } else {
                    None
                }
            },
            None => None,
        }
    }

    /// The key of the lot created at global ordinal `index`.
    pub fn parking_lots_by_index(&self, index: u64) -> (r: Option<HashId>)
        ensures
            r == (if index < self@.lot_index.len() {
                Some(self@.lot_index[index as int])
            } else {
                None::<HashId>
            }),
    {
        if index < self.lot_index.len() as u64 {
            Some(self.lot_index[index as usize])
        } else {
            None
        }
    }

    /// How many lots exist in all.
    pub fn all_parking_lots_count(&self) -> (r: u64)
        ensures
            r == self@.lot_index.len() as u64,
    {
        self.lot_index.len() as u64
    }
}

/// Law: under the registry invariant, every lot's free-slot count equals its
/// capacity minus the size of its occupant set.
pub proof fn lemma_remain_matches_occupancy(v: StoreView, hash: HashId)
    requires
        store_wf(v),
        v.lots.contains_key(hash),
    ensures
        v.lots[hash].remain as int == v.lots[hash].capacity as int - v.occupants[hash].len(),
{
}

/// Law: at most one live session exists per user — while a user is parked,
/// any further entry by them is rejected, and when the target lot exists and
/// has a free slot the rejection is exactly `AlreadyParked`.
pub proof fn lemma_second_entering_rejected(
    v: StoreView,
    user: AccountId,
    hash: HashId,
    info_hash: HashId,
    now: Moment,
)
    requires
        v.sessions.contains_key(user),
    ensures
        spec_entering(v, user, hash, info_hash, now) is Err,
        v.lots.contains_key(hash) && v.lots[hash].remain > 0 ==> spec_entering(
            v,
            user,
            hash,
            info_hash,
            now,
        ) == Err::<StoreView, Error>(Error::AlreadyParked),
{
}

/// Law: entering then leaving, with no other entry of the same user in
/// between, restores the lot's free-slot count and occupant list and the
/// session map to what they were before the entry.
pub proof fn lemma_enter_leave_round_trip(
    v0: StoreView,
    user: AccountId,
    hash: HashId,
    info_hash: HashId,
    enter_now: Moment,
    leave_now: Moment,
)
    requires
        store_wf(v0),
        spec_entering(v0, user, hash, info_hash, enter_now) is Ok,
        spec_leaving(spec_entering(v0, user, hash, info_hash, enter_now).unwrap(), user, leave_now)
            is Ok,
    ensures
        ({
            let v2 = spec_leaving(
                spec_entering(v0, user, hash, info_hash, enter_now).unwrap(),
                user,
                leave_now,
            ).unwrap().0;
            &&& v2.lots[hash].remain == v0.lots[hash].remain
            &&& v2.occupants[hash] =~= v0.occupants[hash]
            &&& v2.sessions =~= v0.sessions
        }),
{
    let v1 = spec_entering(v0, user, hash, info_hash, enter_now).unwrap();
    let v2 = spec_leaving(v1, user, leave_now).unwrap().0;
    let s = v0.occupants[hash];
    // The user held no session before entering, so they stood in no
    // occupant list; pushing and then removing them is the identity.
    assert(!s.contains(user));
    let s1 = s.push(user);
    assert(s1[s.len() as int] == user);
    assert(s1.contains(user));
    s1.index_of_first_ensures(user);
    let first = s1.index_of_first(user).unwrap();
    assert(first == s.len()) by {
        if first < s.len() {
            assert(s1[first] == user);
            assert(s1[first] == s[first]);
            assert(s.contains(user));
        }
    }
    s1.remove_ensures(first);
    assert(s1.remove(first) =~= s);
    assert(v2.sessions =~= v0.sessions);
}

} // verus!
