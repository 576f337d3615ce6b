use vstd::prelude::*;

use crate::identity::Identity;
use crate::lot::{BidError, Createitem, Item, LotView};
use crate::text::closed_text;

verus! {

/// Keys in strictly ascending order, hence without repeats.
pub open spec fn ascending(s: Seq<u64>) -> bool {
    forall|i: int, j: int| 0 <= i < j < s.len() ==> s[i] < s[j]
}

/// The values of a sequence of lots.
pub open spec fn lot_views(s: Seq<Item>) -> Seq<LotView> {
    s.map_values(|it: Item| it@)
}

/// Position `i` holds the first lot with the largest highest bid.
pub open spec fn first_max_bid(s: Seq<LotView>, i: int) -> bool {
    &&& 0 <= i < s.len()
    &&& forall|j: int| 0 <= j < s.len() ==> s[j].highest_bid <= s[i].highest_bid
    &&& forall|j: int| 0 <= j < i ==> s[j].highest_bid < s[i].highest_bid
}

/// Position `i` holds the first lot with the largest bid count.
pub open spec fn first_max_count(s: Seq<LotView>, i: int) -> bool {
    &&& 0 <= i < s.len()
    &&& forall|j: int| 0 <= j < s.len() ==> s[j].bid_count <= s[i].bid_count
    &&& forall|j: int| 0 <= j < i ==> s[j].bid_count < s[i].bid_count
}

proof fn lemma_index_of(s: Seq<u64>, i: int)
    requires
        ascending(s),
        0 <= i < s.len(),
    ensures
        s.contains(s[i]),
        s.index_of(s[i]) == i,
{
    assert(s[i] == s[i]);
    let j = s.index_of(s[i]);
    assert(0 <= j < s.len() && s[j] == s[i]);
    if j < i {
        assert(s[j] < s[i]);
    } else if i < j {
        assert(s[i] < s[j]);
    }
}

/// The table of lots, keyed by a 64-bit id and kept in ascending key order.
pub struct AuctionHouse {
    keys: Vec<u64>,
    items: Vec<Item>,
}

impl AuctionHouse {
    /// Keys and lots pair up one for one, keys ascending.
    pub closed spec fn wf(self) -> bool {
        &&& self.keys@.len() == self.items@.len()
        &&& ascending(self.keys@)
    }

    /// The keys of the table in ascending order.
    pub closed spec fn key_order(self) -> Seq<u64> {
        self.keys@
    }

    /// The lots of the table in ascending key order.
    pub closed spec fn entries(self) -> Seq<LotView> {
        lot_views(self.items@)
    }

    /// The table as a map from key to lot.
    pub closed spec fn lots(self) -> Map<u64, LotView> {
        Map::new(
            |k: u64| self.keys@.contains(k),
            |k: u64| self.items@[self.keys@.index_of(k)]@,
        )
    }

    /// How the three views of a table relate: the i-th key maps to the i-th lot,
    /// and the map holds exactly the listed keys.
    pub proof fn lemma_model(self)
        requires
            self.wf(),
        ensures
            self.key_order().len() == self.entries().len(),
            ascending(self.key_order()),
            forall|k: u64| #[trigger] self.lots().contains_key(k) <==> self.key_order().contains(k),
            forall|i: int|
                0 <= i < self.key_order().len() ==> #[trigger] self.lots()[self.key_order()[i]]
                    == self.entries()[i],
    {
        assert forall|i: int| 0 <= i < self.key_order().len() implies #[trigger] self.lots()[self.key_order()[i]]
            == self.entries()[i] by {
            self.lemma_lot_at(i);
        }
    }

    proof fn lemma_lot_at(self, i: int)
        requires
            self.wf(),
            0 <= i < self.keys@.len(),
        ensures
            self.lots().contains_key(self.keys@[i]),
            self.lots()[self.keys@[i]] == self.items@[i]@,
    {
        lemma_index_of(self.keys@, i);
    }

    /// An empty table.
    pub fn new() -> (r: AuctionHouse)
        ensures
            r.wf(),
            r.lots() == Map::<u64, LotView>::empty(),
            r.entries() == Seq::<LotView>::empty(),
    {
        let r = AuctionHouse { keys: Vec::new(), items: Vec::new() };
        assert(r.lots() =~= Map::<u64, LotView>::empty());
        assert(r.entries() =~= Seq::<LotView>::empty());
        r
    }

    /// The position of `key`, if the table holds it.
    fn find(&self, key: u64) -> (r: Option<usize>)
        requires
            self.wf(),
        ensures
            match r {
                None => !self.lots().contains_key(key),
                Some(i) => i < self.keys@.len() && self.keys@[i as int] == key,
            },
    {
        let mut i: usize = 0;
        while i < self.keys.len()
            invariant
                self.wf(),
                i <= self.keys@.len(),
                forall|j: int| 0 <= j < i ==> self.keys@[j] != key,
            decreases self.keys@.len() - i,
        {
            if self.keys[i] == key {
                return Some(i);
            }
            i = i + 1;
        }
        None
    }

    /// The lot stored under `key`, or `None` where no lot was ever created there.
    pub fn get_item(&self, key: u64) -> (r: Option<Item>)
        requires
            self.wf(),
        ensures
            match r {
                None => !self.lots().contains_key(key),
                Some(it) => self.lots().contains_key(key) && it@ == self.lots()[key],
            },
    {
        match self.find(key) {
            None => None,
            Some(i) => {
                proof {
                    self.lemma_lot_at(i as int);
                }
                Some(self.items[i].duplicate())
            },
        }
    }

    /// The number of lots in the table.
    pub fn get_item_count(&self) -> (r: u64)
        requires
            self.wf(),
        ensures
            r == self.entries().len(),
    {
        self.keys.len() as u64
    }
    /// The first position whose key is not below `key`.
    fn position_for(&self, key: u64) -> (r: usize)
        requires
            self.wf(),
        ensures
            r <= self.keys@.len(),
            forall|j: int| 0 <= j < r ==> self.keys@[j] < key,
            r < self.keys@.len() ==> self.keys@[r as int] >= key,
    {
        let mut i: usize = 0;
        while i < self.keys.len() && self.keys[i] < key
            invariant
                self.wf(),
                i <= self.keys@.len(),
                forall|j: int| 0 <= j < i ==> self.keys@[j] < key,
            decreases self.keys@.len() - i,
        {
            i = i + 1;
        }
        i
    }

    /// Stores `lot` under `key` and hands back the lot that was there before, if
    /// any; an existing lot is replaced, not kept.
    pub fn put_item(&mut self, key: u64, lot: Item) -> (r: Option<Item>)
        requires
            old(self).wf(),
        ensures
            final(self).wf(),
            final(self).lots() == old(self).lots().insert(key, lot@),
            match r {
                None => !old(self).lots().contains_key(key),
                Some(p) => old(self).lots().contains_key(key) && p@ == old(self).lots()[key],
            },
    {
        let ghost prev = *self;
        let ghost v = lot@;
        let pos = self.position_for(key);
        if pos < self.keys.len() && self.keys[pos] == key {
            proof {
                prev.lemma_lot_at(pos as int);
            }
            let previous = self.replace_at(pos, lot);
            Some(previous)
        } else {
            proof {
                if pos < prev.keys@.len() {
                    assert(prev.keys@[pos as int] > key);
                }
            }
            self.keys.insert(pos, key);
            self.items.insert(pos, lot);
            assert forall|i: int, j: int| 0 <= i < j < self.keys@.len() implies self.keys@[i]
                < self.keys@[j] by {
                if j < pos {
                } else if i < pos && j == pos {
                } else if i < pos {
                    assert(prev.keys@[i] < prev.keys@[j - 1]);
                } else if i == pos {
                    assert(prev.keys@[pos as int] <= prev.keys@[j - 1]);
                } else {
                    assert(prev.keys@[i - 1] < prev.keys@[j - 1]);
                }
            }
            assert forall|k: u64| #[trigger] self.lots().contains_key(k) == prev.lots().insert(
                key,
                v,
            ).contains_key(k) by {
                if self.keys@.contains(k) {
                    let j = self.keys@.index_of(k);
                    if j < pos {
                        assert(prev.keys@[j] == k);
                    } else if j > pos {
                        assert(prev.keys@[j - 1] == k);
                    }
                }
                if prev.keys@.contains(k) {
                    let j = prev.keys@.index_of(k);
                    if j < pos {
                        assert(self.keys@[j] == k);
                    } else {
                        assert(self.keys@[j + 1] == k);
                    }
                }
                if k == key {
                    assert(self.keys@[pos as int] == k);
                }
            }
            assert forall|k: u64| #[trigger] self.lots().contains_key(k) implies self.lots()[k]
                == prev.lots().insert(key, v)[k] by {
                let j = self.keys@.index_of(k);
                self.lemma_lot_at(j);
                if j < pos {
                    prev.lemma_lot_at(j);
                } else if j > pos {
                    prev.lemma_lot_at(j - 1);
                }
            }
            assert(self.lots() =~= prev.lots().insert(key, v));
            None
        }
    }
    /// Stores a new lot made by `caller` under `key` and hands back the lot that
    /// was there before, if any; an existing lot is replaced, not kept.
    pub fn create_item(&mut self, key: u64, item: Createitem, caller: &Identity) -> (r: Option<Item>)
        requires
            old(self).wf(),
        ensures
            final(self).wf(),
            final(self).lots() == old(self).lots().insert(
                key,
                LotView::fresh(item.description@, item.is_active, caller@),
            ),
            match r {
                None => !old(self).lots().contains_key(key),
                Some(p) => old(self).lots().contains_key(key) && p@ == old(self).lots()[key],
            },
    {
        let lot = Item::fresh(item, caller);
        self.put_item(key, lot)
    }

    /// Puts `lot` in place of the lot at position `i`, handing back the one it replaces.
    fn replace_at(&mut self, i: usize, lot: Item) -> (r: Item)
        requires
            old(self).wf(),
            i < old(self).keys@.len(),
        ensures
            final(self).wf(),
            final(self).key_order() == old(self).key_order(),
            final(self).lots() == old(self).lots().insert(old(self).keys@[i as int], lot@),
            r == old(self).items@[i as int],
    {
        let ghost prev = *self;
        let ghost v = lot@;
        let ghost key = self.keys@[i as int];
        let previous = self.items.remove(i);
        self.items.insert(i, lot);
        assert(self.items@ =~= prev.items@.update(i as int, self.items@[i as int]));
        assert forall|k: u64| #[trigger] self.lots().contains_key(k) implies self.lots()[k]
            == prev.lots().insert(key, v)[k] by {
            let j = self.keys@.index_of(k);
            self.lemma_lot_at(j);
            prev.lemma_lot_at(j);
        }
        assert(self.lots() =~= prev.lots().insert(key, v));
        previous
    }

    /// Places a bid of `amount` by `caller` on the lot under `key`. An accepted bid
    /// is written back; a refused one changes nothing.
    pub fn bid(&mut self, key: u64, caller: &Identity, amount: u64) -> (r: Result<String, BidError>)
        requires
            old(self).wf(),
        ensures
            final(self).wf(),
            final(self).key_order() == old(self).key_order(),
            !old(self).lots().contains_key(key) ==> r == Err::<String, BidError>(BidError::NoItem)
                && final(self).lots() == old(self).lots(),
            old(self).lots().contains_key(key) ==> match old(self).lots()[key].bid_error(caller@) {
                Some(e) => r == Err::<String, BidError>(e) && final(self).lots() == old(self).lots(),
                None => final(self).lots() == old(self).lots().insert(
                    key,
                    old(self).lots()[key].after_bid(caller@, amount),
                ) && match r {
                    Ok(m) => m@ == old(self).lots()[key].bid_message(amount),
                    Err(_) => false,
                },
            },
    {
        match self.find(key) {
            None => Err(BidError::NoItem),
            Some(i) => {
                proof {
                    self.lemma_lot_at(i as int);
                }
                let mut lot = self.items[i].duplicate();
                let r = lot.apply_bid(caller, amount);
                if r.is_ok() {
                    self.replace_at(i, lot);
                }
                r
            },
        }
    }

    /// Closes the lot under `key` on behalf of `caller`: only its owner may, and
    /// only while it is open; ownership then passes to the highest bidder.
    pub fn remove(&mut self, key: u64, caller: &Identity) -> (r: Result<String, BidError>)
        requires
            old(self).wf(),
        ensures
            final(self).wf(),
            final(self).key_order() == old(self).key_order(),
            !old(self).lots().contains_key(key) ==> r == Err::<String, BidError>(BidError::NoItem)
                && final(self).lots() == old(self).lots(),
            old(self).lots().contains_key(key) ==> match old(self).lots()[key].close_error(caller@) {
                Some(e) => r == Err::<String, BidError>(e) && final(self).lots() == old(self).lots(),
                None => final(self).lots() == old(self).lots().insert(
                    key,
                    old(self).lots()[key].after_close(),
                ) && match r {
                    Ok(m) => m@ == closed_text(),
                    Err(_) => false,
                },
            },
    {
        match self.find(key) {
            None => Err(BidError::NoItem),
            Some(i) => {
                proof {
                    self.lemma_lot_at(i as int);
                }
                let mut lot = self.items[i].duplicate();
                let r = lot.close_by(caller);
                if r.is_ok() {
                    self.replace_at(i, lot);
                }
                r
            },
        }
    }
    /// Every lot of the table, in ascending key order.
    pub fn get_all_items(&self) -> (r: Vec<Item>)
        requires
            self.wf(),
        ensures
            lot_views(r@) == self.entries(),
    {
        let mut r: Vec<Item> = Vec::new();
        let mut i: usize = 0;
        while i < self.items.len()
            invariant
                i <= self.items@.len(),
                r@.len() == i,
                forall|j: int| 0 <= j < i ==> #[trigger] r@[j]@ == self.items@[j]@,
            decreases self.items@.len() - i,
        {
            r.push(self.items[i].duplicate());
            i = i + 1;
        }
        assert(lot_views(r@) =~= self.entries());
        r
    }

    /// The first lot, in key order, whose highest bid is the largest; `None` on an
    /// empty table.
    pub fn get_item_sold_for_most(&self) -> (r: Option<Item>)
        requires
            self.wf(),
        ensures
            match r {
                None => self.entries().len() == 0,
                Some(it) => exists|i: int|
                    first_max_bid(self.entries(), i) && it@ == #[trigger] self.entries()[i],
            },
    {
        let n = self.items.len();
        if n == 0 {
            return None;
        }
        let mut best: usize = 0;
        let mut i: usize = 1;
        while i < n
            invariant
                n == self.items@.len(),
                best < i <= n,
                forall|j: int| 0 <= j < i ==> self.items@[j].highest_bid <= self.items@[best as int].highest_bid,
                forall|j: int| 0 <= j < best ==> self.items@[j].highest_bid < self.items@[best as int].highest_bid,
            decreases n - i,
        {
            if self.items[i].highest_bid > self.items[best].highest_bid {
                best = i;
            }
            i = i + 1;
        }
        assert(first_max_bid(self.entries(), best as int));
        let it = self.items[best].duplicate();
        assert(it@ == self.entries()[best as int]);
        Some(it)
    }

    /// The first lot, in key order, whose bid count is the largest; `None` on an
    /// empty table.
    pub fn get_item_most_bids(&self) -> (r: Option<Item>)
        requires
            self.wf(),
        ensures
            match r {
                None => self.entries().len() == 0,
                Some(it) => exists|i: int|
                    first_max_count(self.entries(), i) && it@ == #[trigger] self.entries()[i],
            },
    {
        let n = self.items.len();
        if n == 0 {
            return None;
        }
        let mut best: usize = 0;
        let mut i: usize = 1;
        while i < n
            invariant
                n == self.items@.len(),
                best < i <= n,
                forall|j: int| 0 <= j < i ==> self.items@[j].bid_count <= self.items@[best as int].bid_count,
                forall|j: int| 0 <= j < best ==> self.items@[j].bid_count < self.items@[best as int].bid_count,
            decreases n - i,
        {
            if self.items[i].bid_count > self.items[best].bid_count {
                best = i;
            }
            i = i + 1;
        }
        assert(first_max_count(self.entries(), best as int));
        let it = self.items[best].duplicate();
        assert(it@ == self.entries()[best as int]);
        Some(it)
    }
}

} // verus!
