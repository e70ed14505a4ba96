use orderbook::{BookRecord, Error, OrderBook, Side};
use uuid::Uuid;

fn new_id() -> u128 {
    Uuid::new_v4().as_u128()
}

fn rec(price: u64, size: i64, id: u128) -> BookRecord {
    BookRecord { price, size, id }
}

fn fixture(id1: u128, id2: u128) -> OrderBook {
    let mut ob = OrderBook::new();
    ob.reload(
        vec![rec(399496, 30_000_000, id1), rec(399500, 50_000_000, id2)],
        vec![rec(400500, 40_000_000, new_id()), rec(400502, 20_000_000, new_id())],
    )
    .unwrap_or_default();
    ob
}

#[test]
fn test_display() {
    let mut ob = fixture(new_id(), new_id());
    ob.open(Side::Buy, rec(399496, 20_000_000, new_id())).unwrap_or_default();
    let str = ob.to_string();
    assert_eq!(str, "OB: 0,0,0,0,0,0,0,0,0,0,0,0,0,0,0,0.5,0,0,0,0.5 | 3995.00   4005.00 | 0.4,0,0.2,0,0,0,0,0,0,0,0,0,0,0,0,0,0,0,0,0");
}

#[test]
fn test_match() {
    let id1 = new_id();
    let id2 = new_id();
    let mut ob = fixture(id1, id2);
    ob.open(Side::Buy, rec(399496, 20_000_000, new_id())).unwrap_or_default();
    ob.match_order(399500, 30_000_000, id2).unwrap_or_default();
    let str = ob.to_string();
    assert_eq!(str, "OB: 0,0,0,0,0,0,0,0,0,0,0,0,0,0,0,0.5,0,0,0,0.2 | 3995.00   4005.00 | 0.4,0,0.2,0,0,0,0,0,0,0,0,0,0,0,0,0,0,0,0,0");

    ob.match_order(399500, 20_000_000, id2).unwrap_or_default();
    let str = ob.to_string();
    assert_eq!(str, "OB: 0,0,0,0,0,0,0,0,0,0,0,0,0,0,0,0,0,0,0,0.5 | 3994.96   4005.00 | 0.4,0,0.2,0,0,0,0,0,0,0,0,0,0,0,0,0,0,0,0,0");
}

#[test]
fn test_done() {
    let id1 = new_id();
    let id2 = new_id();
    let mut ob = fixture(id1, id2);
    ob.done(399496, id1).unwrap_or_default();
    let str = ob.to_string();
    assert_eq!(str, "OB: 0,0,0,0,0,0,0,0,0,0,0,0,0,0,0,0,0,0,0,0.5 | 3995.00   4005.00 | 0.4,0,0.2,0,0,0,0,0,0,0,0,0,0,0,0,0,0,0,0,0");
}

#[test]
fn test_round_output() {
    let mut ob = OrderBook::new();
    ob.reload(vec![rec(399500, 30_000_000, new_id())], vec![rec(400500, 33_333_333, new_id())])
        .unwrap_or_default();
    let str = ob.to_string();
    assert_eq!(str, "OB: 0,0,0,0,0,0,0,0,0,0,0,0,0,0,0,0,0,0,0,0.3 | 3995.00   4005.00 | 0.333,0,0,0,0,0,0,0,0,0,0,0,0,0,0,0,0,0,0,0");
}

#[test]
fn fixture_frontiers_and_depth() {
    let mut ob = fixture(1, 2);
    ob.open(Side::Buy, rec(399496, 20_000_000, 3)).unwrap();
    assert_eq!(ob.bid(), Some(399500));
    assert_eq!(ob.ask(), Some(400500));
    let bids = ob.bids(20);
    assert_eq!(bids.len(), 20);
    assert_eq!(bids[15], 50_000_000);
    assert_eq!(bids[19], 50_000_000);
    assert_eq!(ob.asks(3), vec![40_000_000, 0, 20_000_000]);
}

#[test]
fn sole_order_matched_moves_bid_down() {
    let mut ob = fixture(1, 2);
    ob.open(Side::Buy, rec(399496, 20_000_000, 3)).unwrap();
    assert_eq!(ob.match_order(399500, 50_000_000, 2), Ok(()));
    assert_eq!(ob.bid(), Some(399496));
    assert_eq!(ob.ask(), Some(400500));
    assert_eq!(ob.last_match(), Some(399500));
}

#[test]
fn done_at_best_bid_skips_to_next_level_below() {
    let mut ob = OrderBook::new();
    ob.open(Side::Buy, rec(1000, 10, 1)).unwrap();
    ob.open(Side::Buy, rec(1005, 10, 2)).unwrap();
    ob.open(Side::Buy, rec(1005, 10, 3)).unwrap();
    ob.open(Side::Sell, rec(1010, 10, 4)).unwrap();
    ob.done(1005, 2).unwrap();
    assert_eq!(ob.bid(), Some(1005));
    ob.done(1005, 3).unwrap();
    assert_eq!(ob.bid(), Some(1000));
    assert_eq!(ob.ask(), Some(1010));
    assert_eq!(ob.asks(1), vec![10]);
}

#[test]
fn removing_the_only_levels_empties_both_sides() {
    let mut ob = OrderBook::new();
    ob.open(Side::Buy, rec(0, 10, 1)).unwrap();
    ob.open(Side::Sell, rec(1_999_999, 10, 2)).unwrap();
    ob.done(0, 1).unwrap();
    ob.done(1_999_999, 2).unwrap();
    assert_eq!(ob.bid(), None);
    assert_eq!(ob.ask(), None);
    assert_eq!(ob.bids(5), Vec::<i128>::new());
    assert_eq!(ob.to_string(), "OB: empty");
}

#[test]
fn empty_book_renders_empty() {
    let ob = OrderBook::new();
    assert_eq!(ob.to_string(), "OB: empty");
    assert_eq!(ob.last_match(), None);
}

#[test]
fn price_off_the_ladder_is_a_range_error() {
    let mut ob = OrderBook::new();
    assert_eq!(ob.open(Side::Buy, rec(2_000_000, 10, 1)), Err(Error::Range));
    assert_eq!(ob.done(2_000_000, 1), Err(Error::Range));
    assert_eq!(ob.change(5_000_000, 3, 1), Err(Error::Range));
    assert_eq!(ob.match_order(u64::MAX, 3, 1), Err(Error::Range));
    assert_eq!(ob.bid(), None);
}

#[test]
fn crossing_order_is_refused_and_book_unchanged() {
    let mut ob = fixture(1, 2);
    let before = ob.to_string();
    assert_eq!(ob.open(Side::Buy, rec(400500, 10, 9)), Err(Error::BidLessAsk));
    assert_eq!(ob.open(Side::Sell, rec(399500, 10, 9)), Err(Error::BidLessAsk));
    assert_eq!(ob.to_string(), before);
}

#[test]
fn match_against_wrong_front_is_refused() {
    let mut ob = fixture(1, 2);
    assert_eq!(ob.match_order(399500, 10, 7), Err(Error::MatchUuid));
    assert_eq!(ob.match_order(399000, 10, 7), Err(Error::MatchUuid));
    assert_eq!(ob.last_match(), None);
}

#[test]
fn partial_match_keeps_order_at_front() {
    let mut ob = OrderBook::new();
    ob.open(Side::Sell, rec(500, 100_000_000, 1)).unwrap();
    ob.open(Side::Sell, rec(500, 100_000_000, 2)).unwrap();
    ob.match_order(500, 40_000_000, 1).unwrap();
    assert_eq!(ob.asks(1), vec![160_000_000]);
    assert_eq!(ob.match_order(500, 10, 2), Err(Error::MatchUuid));
    // a residual under half a thousandth counts as filled
    ob.match_order(500, 59_960_000, 1).unwrap();
    assert_eq!(ob.asks(1), vec![100_000_000]);
    ob.match_order(500, 100_000_000, 2).unwrap();
    assert_eq!(ob.ask(), None);
}

#[test]
fn residual_of_half_a_thousandth_stays() {
    let mut ob = OrderBook::new();
    ob.open(Side::Sell, rec(500, 100_000_000, 1)).unwrap();
    ob.match_order(500, 99_950_000, 1).unwrap();
    assert_eq!(ob.asks(1), vec![50_000]);
    assert_eq!(ob.ask(), Some(500));
}

#[test]
fn change_keeps_place_and_zero_removes() {
    let mut ob = OrderBook::new();
    ob.open(Side::Buy, rec(700, 10, 1)).unwrap();
    ob.open(Side::Buy, rec(700, 20, 2)).unwrap();
    ob.change(700, 5, 1).unwrap();
    assert_eq!(ob.bids(1), vec![25]);
    assert_eq!(ob.match_order(700, 5, 1), Ok(()));
    assert_eq!(ob.bids(1), vec![20]);
    ob.change(700, 0, 2).unwrap();
    assert_eq!(ob.bid(), None);
}

#[test]
fn probe_order_round_trip() {
    let mut ob = OrderBook::new();
    ob.open(Side::Sell, rec(900, 10, 5)).unwrap();
    ob.open_test(Side::Buy, 800).unwrap();
    assert_eq!(ob.bid(), Some(800));
    assert_eq!(ob.test_order(Side::Buy, 799), Err(Error::TestFail));
    assert_eq!(ob.test_order(Side::Buy, 800), Ok(()));
    assert_eq!(ob.bid(), None);
    ob.open_test(Side::Buy, 810).unwrap();
    ob.done_test(810).unwrap();
    assert_eq!(ob.bid(), None);
}

#[test]
fn probe_order_has_nil_id() {
    let mut ob = OrderBook::new();
    ob.open_test(Side::Sell, 1200).unwrap();
    assert_eq!(ob.match_order(1200, 100_000, Uuid::nil().as_u128()), Ok(()));
    assert_eq!(ob.ask(), None);
}

#[test]
fn reload_twice_renders_the_same() {
    let bids = vec![rec(399496, 30_000_000, 1), rec(399500, 50_000_000, 2)];
    let asks = vec![rec(400500, 40_000_000, 3)];
    let mut ob = OrderBook::new();
    ob.open(Side::Buy, rec(100, 5, 8)).unwrap();
    ob.reload(bids.clone(), asks.clone()).unwrap();
    let first = ob.to_string();
    ob.reload(bids, asks).unwrap();
    assert_eq!(ob.to_string(), first);
}

#[test]
fn reload_of_opened_orders_gives_same_depth() {
    let orders = vec![
        (Side::Buy, rec(1000, 7, 1)),
        (Side::Sell, rec(1010, 3, 2)),
        (Side::Buy, rec(1002, 4, 3)),
        (Side::Sell, rec(1015, 9, 4)),
        (Side::Buy, rec(1002, 6, 5)),
    ];
    let mut ob = OrderBook::new();
    let mut bids = Vec::new();
    let mut asks = Vec::new();
    for (side, r) in orders {
        ob.open(side, r).unwrap();
        match side {
            Side::Buy => bids.push(r),
            Side::Sell => asks.push(r),
        }
    }
    let depth = (ob.bids(20), ob.asks(20), ob.bid(), ob.ask());
    let mut other = OrderBook::new();
    other.reload(bids, asks).unwrap();
    assert_eq!((other.bids(20), other.asks(20), other.bid(), other.ask()), depth);
}

#[test]
fn reload_skips_records_off_the_ladder() {
    let mut ob = OrderBook::new();
    let r = ob.reload(vec![rec(1000, 1, 1), rec(3_000_000, 1, 2), rec(1001, 1, 3)], vec![rec(2_500_000, 1, 4), rec(1005, 2, 5)]);
    assert_eq!(r, Ok(()));
    assert_eq!(ob.bid(), Some(1001));
    assert_eq!(ob.ask(), Some(1005));
}

#[test]
fn reload_stops_at_crossing_record() {
    let mut ob = OrderBook::new();
    let r = ob.reload(vec![rec(1000, 1, 1)], vec![rec(1000, 1, 2), rec(1005, 1, 3)]);
    assert_eq!(r, Err(Error::BidLessAsk));
    assert_eq!(ob.bid(), Some(1000));
    assert_eq!(ob.ask(), None);
}

#[test]
fn level_lists_orders_front_first() {
    let mut ob = fixture(1, 2);
    ob.open(Side::Buy, rec(399496, 20_000_000, 3)).unwrap();
    let lvl = ob.level(399496);
    assert_eq!(lvl.len(), 2);
    assert_eq!((lvl[0].size, lvl[0].id), (30_000_000, 1));
    assert_eq!((lvl[1].size, lvl[1].id), (20_000_000, 3));
    assert!(ob.level(399497).is_empty());
    assert!(ob.level(2_000_000).is_empty());
}

#[test]
fn rounding_renders_three_decimals() {
    let mut ob = OrderBook::new();
    ob.open(Side::Buy, rec(100, 123_456_789, 1)).unwrap();
    ob.open(Side::Sell, rec(101, 250_000, 2)).unwrap();
    ob.open(Side::Sell, rec(102, 1_000_049_999, 3)).unwrap();
    let s = ob.to_string();
    assert!(s.starts_with("OB: 0,0,0,0,0,0,0,0,0,0,0,0,0,0,0,0,0,0,0,1.235 | 1.00   1.01 | 0.003,10,0,"));
}

#[test]
fn negative_residual_renders_with_sign() {
    let mut ob = OrderBook::new();
    ob.open(Side::Buy, rec(100, 10_000_000, 1)).unwrap();
    ob.open(Side::Sell, rec(200, 10_000_000, 2)).unwrap();
    ob.match_order(100, 20_000_000, 1).unwrap();
    assert_eq!(ob.bids(1), vec![-10_000_000]);
    assert!(ob.to_string().starts_with("OB: 0,0,0,0,0,0,0,0,0,0,0,0,0,0,0,0,0,0,0,-0.1 | 1.00   2.00 |"));
}
