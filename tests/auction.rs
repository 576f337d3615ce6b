use auction_backend::identity::Identity;
use auction_backend::lot::{BidError, Createitem, Item};
use auction_backend::store::AuctionHouse;

fn who(b: u8) -> Identity {
    Identity::new(vec![b, 7, b])
}

fn open_lot(text: &str) -> Createitem {
    Createitem { description: text.to_string(), is_active: true }
}

fn same(a: &Identity, b: &Identity) -> bool {
    a.bytes == b.bytes
}

fn voters(item: &Item) -> Vec<Vec<u8>> {
    item.voted.iter().map(|v| v.bytes.clone()).collect()
}

#[test]
fn absent_before_creation() {
    let mut h = AuctionHouse::new();
    assert!(h.get_item(0).is_none());
    assert!(h.get_item(u64::MAX).is_none());
    h.create_item(5, open_lot("vase"), &who(1));
    assert!(h.get_item(4).is_none());
    assert!(h.get_item(6).is_none());
    assert_eq!(h.get_item_count(), 1);
}

#[test]
fn create_then_get() {
    let mut h = AuctionHouse::new();
    let a = who(1);
    let prev = h.create_item(1, Createitem { description: "lamp".to_string(), is_active: false }, &a);
    assert!(prev.is_none());
    let it = h.get_item(1).unwrap();
    assert_eq!(it.description, "lamp");
    assert!(!it.is_active);
    assert_eq!(it.bid_count, 0);
    assert_eq!(it.highest_bid, 0);
    assert!(same(&it.owner, &a));
    assert!(same(&it.highest_bidder, &a));
    assert!(it.voted.is_empty());
}

#[test]
fn recreate_returns_previous_and_overwrites() {
    let mut h = AuctionHouse::new();
    h.create_item(3, open_lot("first"), &who(1));
    h.bid(3, &who(2), 40).unwrap();
    let prev = h.create_item(3, open_lot("second"), &who(9)).unwrap();
    assert_eq!(prev.description, "first");
    assert_eq!(prev.highest_bid, 40);
    assert_eq!(prev.bid_count, 1);
    let now = h.get_item(3).unwrap();
    assert_eq!(now.description, "second");
    assert_eq!(now.highest_bid, 0);
    assert_eq!(now.bid_count, 0);
    assert!(same(&now.owner, &who(9)));
    assert_eq!(h.get_item_count(), 1);
}

#[test]
fn bid_on_missing_lot() {
    let mut h = AuctionHouse::new();
    assert_eq!(h.bid(1, &who(2), 10), Err(BidError::NoItem));
    h.create_item(2, open_lot("x"), &who(1));
    assert_eq!(h.bid(1, &who(2), 10), Err(BidError::NoItem));
}

#[test]
fn bid_on_inactive_lot() {
    let mut h = AuctionHouse::new();
    h.create_item(1, Createitem { description: "shut".to_string(), is_active: false }, &who(1));
    assert_eq!(h.bid(1, &who(2), 10), Err(BidError::ItemNotActive));
    assert_eq!(h.get_item(1).unwrap().bid_count, 0);
}

#[test]
fn second_bid_by_same_caller() {
    let mut h = AuctionHouse::new();
    h.create_item(1, open_lot("x"), &who(1));
    h.bid(1, &who(2), 10).unwrap();
    assert_eq!(h.bid(1, &who(2), 99), Err(BidError::AlreadyBid));
    let it = h.get_item(1).unwrap();
    assert_eq!(it.bid_count, 1);
    assert_eq!(it.highest_bid, 10);
    assert!(same(&it.highest_bidder, &who(2)));
    assert_eq!(voters(&it), vec![who(2).bytes]);
}

#[test]
fn tie_is_recorded_but_does_not_lead() {
    let mut h = AuctionHouse::new();
    h.create_item(1, open_lot("x"), &who(1));
    h.bid(1, &who(2), 25).unwrap();
    let msg = h.bid(1, &who(3), 25).unwrap();
    assert_eq!(msg, "Bid amount too low, but you have been added to the voted list.");
    let it = h.get_item(1).unwrap();
    assert_eq!(it.bid_count, 2);
    assert_eq!(it.highest_bid, 25);
    assert!(same(&it.highest_bidder, &who(2)));
    assert_eq!(voters(&it), vec![who(2).bytes, who(3).bytes]);
}

#[test]
fn zero_bid_on_fresh_lot_does_not_lead() {
    let mut h = AuctionHouse::new();
    h.create_item(1, open_lot("x"), &who(1));
    let msg = h.bid(1, &who(2), 0).unwrap();
    assert_eq!(msg, "Bid amount too low, but you have been added to the voted list.");
    let it = h.get_item(1).unwrap();
    assert_eq!(it.bid_count, 1);
    assert!(same(&it.highest_bidder, &who(1)));
}

#[test]
fn new_high_message_carries_amount() {
    let mut h = AuctionHouse::new();
    h.create_item(1, open_lot("x"), &who(1));
    assert_eq!(h.bid(1, &who(2), 7).unwrap(), "Bid placed successfully. New highest bid: 7");
    assert_eq!(
        h.bid(1, &who(3), u64::MAX).unwrap(),
        "Bid placed successfully. New highest bid: 18446744073709551615"
    );
}

#[test]
fn close_by_non_owner() {
    let mut h = AuctionHouse::new();
    h.create_item(1, open_lot("x"), &who(1));
    h.bid(1, &who(2), 10).unwrap();
    assert_eq!(h.remove(1, &who(2)), Err(BidError::Unauthorized));
    let it = h.get_item(1).unwrap();
    assert!(it.is_active);
    assert!(same(&it.owner, &who(1)));
    assert_eq!(it.bid_count, 1);
}

#[test]
fn close_missing_lot() {
    let mut h = AuctionHouse::new();
    assert_eq!(h.remove(8, &who(1)), Err(BidError::NoItem));
}

#[test]
fn close_transfers_to_highest_bidder() {
    let mut h = AuctionHouse::new();
    h.create_item(1, open_lot("x"), &who(1));
    h.bid(1, &who(2), 10).unwrap();
    h.bid(1, &who(3), 30).unwrap();
    let msg = h.remove(1, &who(1)).unwrap();
    assert_eq!(msg, "Lot closed; ownership passed to the highest bidder.");
    let it = h.get_item(1).unwrap();
    assert!(!it.is_active);
    assert!(same(&it.owner, &who(3)));
    assert!(same(&it.highest_bidder, &who(3)));
    assert_eq!(it.highest_bid, 30);
}

#[test]
fn close_without_bids_keeps_creator() {
    let mut h = AuctionHouse::new();
    h.create_item(1, open_lot("x"), &who(1));
    h.remove(1, &who(1)).unwrap();
    let it = h.get_item(1).unwrap();
    assert!(!it.is_active);
    assert!(same(&it.owner, &who(1)));
}

#[test]
fn closed_lot_is_terminal() {
    let mut h = AuctionHouse::new();
    h.create_item(1, open_lot("x"), &who(1));
    h.bid(1, &who(2), 10).unwrap();
    h.remove(1, &who(1)).unwrap();
    assert_eq!(h.bid(1, &who(4), 100), Err(BidError::ItemNotActive));
    assert_eq!(h.remove(1, &who(2)), Err(BidError::ItemNotActive));
    assert_eq!(h.remove(1, &who(1)), Err(BidError::ItemNotActive));
}

#[test]
fn auction_round() {
    let mut h = AuctionHouse::new();
    let (a, b, c, d) = (who(1), who(2), who(3), who(4));
    h.create_item(1, open_lot("painting"), &a);
    assert_eq!(h.bid(1, &b, 50).unwrap(), "Bid placed successfully. New highest bid: 50");
    let it = h.get_item(1).unwrap();
    assert_eq!(it.highest_bid, 50);
    assert!(same(&it.highest_bidder, &b));
    assert_eq!(it.bid_count, 1);
    assert_eq!(
        h.bid(1, &c, 30).unwrap(),
        "Bid amount too low, but you have been added to the voted list."
    );
    let it = h.get_item(1).unwrap();
    assert_eq!(it.highest_bid, 50);
    assert_eq!(it.bid_count, 2);
    assert!(h.remove(1, &a).is_ok());
    let it = h.get_item(1).unwrap();
    assert!(same(&it.owner, &b));
    assert!(!it.is_active);
    assert_eq!(h.bid(1, &d, 100), Err(BidError::ItemNotActive));
}

#[test]
fn aggregates_on_empty_table() {
    let h = AuctionHouse::new();
    assert!(h.get_item_sold_for_most().is_none());
    assert!(h.get_item_most_bids().is_none());
    assert!(h.get_all_items().is_empty());
    assert_eq!(h.get_item_count(), 0);
}

#[test]
fn aggregates_pick_first_of_ties() {
    let mut h = AuctionHouse::new();
    h.create_item(30, open_lot("c"), &who(1));
    h.create_item(10, open_lot("a"), &who(1));
    h.create_item(20, open_lot("b"), &who(1));
    h.bid(10, &who(2), 80).unwrap();
    h.bid(20, &who(2), 80).unwrap();
    h.bid(30, &who(2), 5).unwrap();
    h.bid(30, &who(3), 6).unwrap();
    h.bid(20, &who(3), 1).unwrap();
    h.bid(20, &who(4), 1).unwrap();
    h.bid(30, &who(4), 7).unwrap();
    h.remove(10, &who(1)).unwrap();
    let top = h.get_item_sold_for_most().unwrap();
    assert_eq!(top.description, "a");
    assert_eq!(top.highest_bid, 80);
    let busy = h.get_item_most_bids().unwrap();
    assert_eq!(busy.description, "b");
    assert_eq!(busy.bid_count, 3);
}

#[test]
fn aggregates_without_bids_pick_first_key() {
    let mut h = AuctionHouse::new();
    h.create_item(9, open_lot("late"), &who(1));
    h.create_item(2, open_lot("early"), &who(1));
    assert_eq!(h.get_item_sold_for_most().unwrap().description, "early");
    assert_eq!(h.get_item_most_bids().unwrap().description, "early");
}

#[test]
fn all_items_in_key_order() {
    let mut h = AuctionHouse::new();
    h.create_item(u64::MAX, open_lot("max"), &who(1));
    h.create_item(0, open_lot("zero"), &who(1));
    h.create_item(42, open_lot("mid"), &who(1));
    h.create_item(0, open_lot("zero again"), &who(2));
    let all: Vec<String> = h.get_all_items().into_iter().map(|i| i.description).collect();
    assert_eq!(all, vec!["zero again", "mid", "max"]);
    assert_eq!(h.get_item_count(), 3);
}

#[test]
fn put_item_restores_a_lot() {
    let mut h = AuctionHouse::new();
    h.create_item(1, open_lot("x"), &who(1));
    h.bid(1, &who(2), 12).unwrap();
    let copy = h.get_item(1).unwrap();
    let mut other = AuctionHouse::new();
    assert!(other.put_item(1, copy).is_none());
    let it = other.get_item(1).unwrap();
    assert_eq!(it.highest_bid, 12);
    assert_eq!(voters(&it), vec![who(2).bytes]);
    assert_eq!(other.bid(1, &who(2), 50), Err(BidError::AlreadyBid));
}

#[test]
fn identity_comparison() {
    assert!(who(1).same_as(&who(1)));
    assert!(!who(1).same_as(&who(2)));
    assert!(!Identity::new(vec![1]).same_as(&Identity::new(vec![1, 0])));
    assert_eq!(who(5).duplicate().bytes, who(5).bytes);
}

#[test]
fn bid_refused_when_counter_is_full() {
    let mut h = AuctionHouse::new();
    let full = Item {
        description: "busy".to_string(),
        is_active: true,
        bid_count: u32::MAX,
        highest_bid: 3,
        highest_bidder: who(1),
        voted: vec![],
        owner: who(1),
    };
    h.put_item(1, full);
    assert_eq!(h.bid(1, &who(2), 10), Err(BidError::BidFailed));
    let it = h.get_item(1).unwrap();
    assert_eq!(it.bid_count, u32::MAX);
    assert_eq!(it.highest_bid, 3);
}
