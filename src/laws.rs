use vstd::prelude::*;

use crate::lot::{BidError, LotView};
use crate::store::{first_max_bid, first_max_count};

verus! {

/// A lot just created under `key` is found there with the given description and
/// active flag, no bids, a highest bid of zero, and the creator as both owner and
/// highest bidder.
pub proof fn law_create_then_get(
    lots: Map<u64, LotView>,
    key: u64,
    description: Seq<char>,
    is_active: bool,
    creator: Seq<u8>,
)
    ensures
        ({
            let after = lots.insert(key, LotView::fresh(description, is_active, creator));
            &&& after.contains_key(key)
            &&& after[key].description == description
            &&& after[key].is_active == is_active
            &&& after[key].bid_count == 0
            &&& after[key].highest_bid == 0
            &&& after[key].owner == creator
            &&& after[key].highest_bidder == creator
            &&& after[key].voted.len() == 0
        }),
{
}

/// Creating under a key that is already taken replaces the lot there and leaves
/// every other key as it was.
pub proof fn law_recreate_overwrites(
    lots: Map<u64, LotView>,
    key: u64,
    description: Seq<char>,
    is_active: bool,
    creator: Seq<u8>,
)
    requires
        lots.contains_key(key),
    ensures
        ({
            let after = lots.insert(key, LotView::fresh(description, is_active, creator));
            &&& after.dom() == lots.dom()
            &&& after[key] == LotView::fresh(description, is_active, creator)
            &&& forall|k: u64| k != key && lots.contains_key(k) ==> after[k] == lots[k]
        }),
{
    let after = lots.insert(key, LotView::fresh(description, is_active, creator));
    assert(after.dom() =~= lots.dom());
}

/// A closed lot refuses every bid as not active.
pub proof fn law_closed_lot_refuses_bids(lot: LotView, caller: Seq<u8>)
    requires
        !lot.is_active,
    ensures
        lot.bid_error(caller) == Some(BidError::ItemNotActive),
{
}

/// Once a caller's bid on a lot is accepted, a second bid by the same caller on
/// that lot is refused as already made.
pub proof fn law_second_bid_refused(
    lots: Map<u64, LotView>,
    key: u64,
    caller: Seq<u8>,
    first: u64,
    second: u64,
)
    requires
        lots.contains_key(key),
        lots[key].bid_error(caller) is None,
    ensures
        ({
            let after = lots.insert(key, lots[key].after_bid(caller, first));
            after[key].bid_error(caller) == Some(BidError::AlreadyBid)
        }),
{
    let after = lots.insert(key, lots[key].after_bid(caller, first));
    assert(after[key].voted.last() == caller);
}

/// A bid equal to the current highest bid is counted and its caller recorded, but
/// the highest bid and its bidder stay as they were.
pub proof fn law_tie_does_not_lead(lot: LotView, caller: Seq<u8>)
    requires
        lot.bid_error(caller) is None,
    ensures
        ({
            let after = lot.after_bid(caller, lot.highest_bid);
            &&& after.bid_count == lot.bid_count + 1
            &&& after.voted.contains(caller)
            &&& after.highest_bid == lot.highest_bid
            &&& after.highest_bidder == lot.highest_bidder
        }),
{
    let after = lot.after_bid(caller, lot.highest_bid);
    assert(after.voted[after.voted.len() - 1] == caller);
}

/// An open lot refuses a close by anyone but its owner as unauthorized.
pub proof fn law_only_owner_closes(lot: LotView, caller: Seq<u8>)
    requires
        lot.is_active,
        caller != lot.owner,
    ensures
        lot.close_error(caller) == Some(BidError::Unauthorized),
{
}

/// A close by the owner of an open lot deactivates it and makes the prior highest
/// bidder its owner, leaving the bid record as it was.
pub proof fn law_close_transfers_ownership(lot: LotView, caller: Seq<u8>)
    requires
        lot.close_error(caller) is None,
    ensures
        caller == lot.owner,
        !lot.after_close().is_active,
        lot.after_close().owner == lot.highest_bidder,
        lot.after_close().highest_bidder == lot.highest_bidder,
        lot.after_close().highest_bid == lot.highest_bid,
        lot.after_close().bid_count == lot.bid_count,
        lot.after_close().voted == lot.voted,
        lot.after_close().description == lot.description,
{
}

/// After a lot is closed, every further bid and every further close on it, by
/// anyone, is refused as not active.
pub proof fn law_closed_is_terminal(
    lots: Map<u64, LotView>,
    key: u64,
    closer: Seq<u8>,
    caller: Seq<u8>,
)
    requires
        lots.contains_key(key),
        lots[key].close_error(closer) is None,
    ensures
        ({
            let after = lots.insert(key, lots[key].after_close());
            &&& after[key].bid_error(caller) == Some(BidError::ItemNotActive)
            &&& after[key].close_error(caller) == Some(BidError::ItemNotActive)
        }),
{
}

/// Of lots that tie on the highest bid, only the first in key order is chosen: at
/// most one position is the first maximum.
pub proof fn law_most_valuable_is_unique(s: Seq<LotView>, i: int, j: int)
    requires
        first_max_bid(s, i),
        first_max_bid(s, j),
    ensures
        i == j,
{
    if i < j {
        assert(s[i].highest_bid < s[j].highest_bid);
    } else if j < i {
        assert(s[j].highest_bid < s[i].highest_bid);
    }
}

/// Of lots that tie on the bid count, only the first in key order is chosen: at
/// most one position is the first maximum.
pub proof fn law_most_bid_is_unique(s: Seq<LotView>, i: int, j: int)
    requires
        first_max_count(s, i),
        first_max_count(s, j),
    ensures
        i == j,
{
    if i < j {
        assert(s[i].bid_count < s[j].bid_count);
    } else if j < i {
        assert(s[j].bid_count < s[i].bid_count);
    }
}

} // verus!
