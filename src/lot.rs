use vstd::prelude::*;

use crate::identity::Identity;
use crate::text::{
    closed_message, closed_text, new_high_message, new_high_prefix, too_low_message,
    too_low_text, decimal,
};

verus! {

/// Why a bid or a close was refused.
#[derive(Clone, Copy, Debug, PartialEq, Eq, Structural)]
pub enum BidError {
    AlreadyBid,
    ItemNotActive,
    Unauthorized,
    NoItem,
    UpdateError,
    BidFailed,
}

/// What a creator supplies for a new lot.
pub struct Createitem {
    pub description: String,
    pub is_active: bool,
}

/// A biddable lot.
pub struct Item {
    pub description: String,
    pub is_active: bool,
    pub bid_count: u32,
    pub highest_bid: u64,
    pub highest_bidder: Identity,
    pub voted: Vec<Identity>,
    pub owner: Identity,
}

/// The mathematical value of a lot.
pub ghost struct LotView {
    pub description: Seq<char>,
    pub is_active: bool,
    pub bid_count: u32,
    pub highest_bid: u64,
    pub highest_bidder: Seq<u8>,
    pub voted: Seq<Seq<u8>>,
    pub owner: Seq<u8>,
}

/// The values of a sequence of identities.
pub open spec fn identities(v: Seq<Identity>) -> Seq<Seq<u8>> {
    v.map_values(|id: Identity| id@)
}

impl View for Item {
    type V = LotView;

    open spec fn view(&self) -> LotView {
        LotView {
            description: self.description@,
            is_active: self.is_active,
            bid_count: self.bid_count,
            highest_bid: self.highest_bid,
            highest_bidder: self.highest_bidder@,
            voted: identities(self.voted@),
            owner: self.owner@,
        }
    }
}

impl LotView {
    /// A freshly created lot: no bids, and the creator both owner and highest bidder.
    pub open spec fn fresh(description: Seq<char>, is_active: bool, creator: Seq<u8>) -> LotView {
        LotView {
            description,
            is_active,
            bid_count: 0,
            highest_bid: 0,
            highest_bidder: creator,
            voted: Seq::empty(),
            owner: creator,
        }
    }

    /// The refusal of a bid by `caller`, if it is refused.
    pub open spec fn bid_error(self, caller: Seq<u8>) -> Option<BidError> {
        if !self.is_active {
            Some(BidError::ItemNotActive)
        } else if self.voted.contains(caller) {
            Some(BidError::AlreadyBid)
        } else if self.bid_count == u32::MAX {
            Some(BidError::BidFailed)
        } else {
            None
        }
    }

    /// The lot after an accepted bid: the bid is counted and the caller recorded;
    /// only a strictly higher amount takes the lead.
    pub open spec fn after_bid(self, caller: Seq<u8>, amount: u64) -> LotView {
        LotView {
            bid_count: (self.bid_count + 1) as u32,
            voted: self.voted.push(caller),
            highest_bid: if amount > self.highest_bid { amount } else { self.highest_bid },
            highest_bidder: if amount > self.highest_bid { caller } else { self.highest_bidder },
            ..self
        }
    }

    /// The message of an accepted bid.
    pub open spec fn bid_message(self, amount: u64) -> Seq<char> {
        if amount > self.highest_bid {
            new_high_prefix() + decimal(amount as nat)
        } else {
            too_low_text()
        }
    }

    /// The refusal of a close by `caller`, if it is refused.
    pub open spec fn close_error(self, caller: Seq<u8>) -> Option<BidError> {
        if !self.is_active {
            Some(BidError::ItemNotActive)
        } else if caller != self.owner {
            Some(BidError::Unauthorized)
        } else {
            None
        }
    }

    /// The lot after it is closed: no longer active, and owned by its highest bidder.
    pub open spec fn after_close(self) -> LotView {
        LotView { is_active: false, owner: self.highest_bidder, ..self }
    }
}

impl Item {
    /// A new lot made by `creator` from what it supplied.
    pub fn fresh(item: Createitem, creator: &Identity) -> (r: Item)
        ensures
            r@ == LotView::fresh(item.description@, item.is_active, creator@),
    {
        let r = Item {
            description: item.description,
            is_active: item.is_active,
            bid_count: 0,
            highest_bid: 0,
            highest_bidder: creator.duplicate(),
            voted: Vec::new(),
            owner: creator.duplicate(),
        };
        assert(identities(r.voted@) =~= Seq::empty());
        r
    }

    /// A copy of this lot.
    pub fn duplicate(&self) -> (r: Item)
        ensures
            r@ == self@,
    {
        let mut voted: Vec<Identity> = Vec::new();
        let mut i: usize = 0;
        while i < self.voted.len()
            invariant
                i <= self.voted@.len(),
                voted@.len() == i,
                forall|j: int| 0 <= j < i ==> #[trigger] voted@[j]@ == self.voted@[j]@,
            decreases self.voted@.len() - i,
        {
            let id = self.voted[i].duplicate();
            voted.push(id);
            i = i + 1;
        }
        assert(identities(voted@) =~= identities(self.voted@));
        Item {
            description: self.description.clone(),
            is_active: self.is_active,
            bid_count: self.bid_count,
            highest_bid: self.highest_bid,
            highest_bidder: self.highest_bidder.duplicate(),
            voted,
            owner: self.owner.duplicate(),
        }
    }

    /// Tells whether `caller` has already bid on this lot.
    pub fn has_voted(&self, caller: &Identity) -> (r: bool)
        ensures
            r == self@.voted.contains(caller@),
    {
        let mut i: usize = 0;
        while i < self.voted.len()
            invariant
                i <= self.voted@.len(),
                forall|j: int| 0 <= j < i ==> identities(self.voted@)[j] != caller@,
            decreases self.voted@.len() - i,
        {
            if self.voted[i].same_as(caller) {
                assert(identities(self.voted@)[i as int] == caller@);
                return true;
            }
            i = i + 1;
        }
        false
    }

    /// Applies a bid of `amount` by `caller` to this lot, or says why it is refused;
    /// a refused bid leaves the lot as it was.
    pub fn apply_bid(&mut self, caller: &Identity, amount: u64) -> (r: Result<String, BidError>)
        ensures
            match old(self)@.bid_error(caller@) {
                Some(e) => r == Err::<String, BidError>(e) && final(self)@ == old(self)@,
                None => final(self)@ == old(self)@.after_bid(caller@, amount) && match r {
                    Ok(m) => m@ == old(self)@.bid_message(amount),
                    Err(_) => false,
                },
            },
    {
        if !self.is_active {
            return Err(BidError::ItemNotActive);
        }
        if self.has_voted(caller) {
            return Err(BidError::AlreadyBid);
        }
        if self.bid_count == u32::MAX {
            return Err(BidError::BidFailed);
        }
        let ghost before = self@;
        let message = if amount > self.highest_bid {
            self.highest_bid = amount;
            self.highest_bidder = caller.duplicate();
            new_high_message(amount)
        } else {
            too_low_message()
        };
        self.bid_count = self.bid_count + 1;
        let id = caller.duplicate();
        self.voted.push(id);
        assert(identities(self.voted@) =~= before.voted.push(caller@));
        assert(self@ =~= before.after_bid(caller@, amount));
        Ok(message)
    }

    /// Closes this lot on behalf of `caller`, or says why it is refused; a refused
    /// close leaves the lot as it was.
    pub fn close_by(&mut self, caller: &Identity) -> (r: Result<String, BidError>)
        ensures
            match old(self)@.close_error(caller@) {
                Some(e) => r == Err::<String, BidError>(e) && final(self)@ == old(self)@,
                None => final(self)@ == old(self)@.after_close() && match r {
                    Ok(m) => m@ == closed_text(),
                    Err(_) => false,
                },
            },
    {
        if !self.is_active {
            return Err(BidError::ItemNotActive);
        }
        if !caller.same_as(&self.owner) {
            return Err(BidError::Unauthorized);
        }
        self.is_active = false;
        self.owner = self.highest_bidder.duplicate();
        Ok(closed_message())
    }
}

} // verus!
