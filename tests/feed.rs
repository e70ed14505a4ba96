use orderbook::feed::{classify, Verdict};
use orderbook::{BookRecord, Feed, FeedAction, FeedEvent, Side, SyncState};

fn rec(price: u64, size: i64, id: u128) -> BookRecord {
    BookRecord { price, size, id }
}

fn synced_at(seq: u64) -> Feed {
    let mut feed = Feed::new();
    let action = feed.on_snapshot(vec![rec(1000, 10, 1)], vec![rec(1010, 10, 2)], seq);
    assert_eq!(action, FeedAction::Applied);
    assert_eq!(feed.state(), SyncState::Synced(seq));
    feed
}

#[test]
fn events_before_first_snapshot_are_dropped() {
    let mut feed = Feed::new();
    let e = FeedEvent::Open { side: Side::Buy, record: rec(1000, 10, 1), sequence: 1 };
    assert_eq!(feed.on_event(e), FeedAction::Dropped);
    assert_eq!(feed.book().bid(), None);
    assert_eq!(feed.state(), SyncState::AwaitingFirstSnapshot);
}

#[test]
fn gap_asks_for_one_snapshot_then_stale_is_dropped() {
    let mut feed = synced_at(10);
    let before = feed.book().to_string();
    let gap = FeedEvent::Open { side: Side::Buy, record: rec(1005, 10, 3), sequence: 13 };
    assert_eq!(feed.on_event(gap), FeedAction::FetchSnapshot);
    assert_eq!(feed.state(), SyncState::Resyncing(10));
    assert_eq!(feed.book().to_string(), before);
    let stale = FeedEvent::Open { side: Side::Buy, record: rec(1005, 10, 4), sequence: 8 };
    assert_eq!(feed.on_event(stale), FeedAction::Dropped);
    assert_eq!(feed.book().to_string(), before);
    assert_eq!(feed.on_snapshot(vec![rec(1001, 5, 9)], vec![], 20), FeedAction::Applied);
    assert_eq!(feed.state(), SyncState::Synced(20));
    assert_eq!(feed.book().bid(), Some(1001));
}

#[test]
fn in_order_events_are_applied() {
    let mut feed = synced_at(10);
    let e = FeedEvent::Open { side: Side::Buy, record: rec(1005, 10, 3), sequence: 11 };
    assert_eq!(feed.on_event(e), FeedAction::Applied);
    assert_eq!(feed.book().bid(), Some(1005));
    let m = FeedEvent::Match { price: 1005, size: 10, maker_id: 3, sequence: 12 };
    assert_eq!(feed.on_event(m), FeedAction::Applied);
    assert_eq!(feed.book().bid(), Some(1000));
    assert_eq!(feed.book().last_match(), Some(1005));
    let c = FeedEvent::Change { price: 1010, new_size: 4, id: 2, sequence: 13 };
    assert_eq!(feed.on_event(c), FeedAction::Applied);
    assert_eq!(feed.book().asks(1), vec![4]);
    let d = FeedEvent::Done { price: 1010, id: 2, sequence: None };
    assert_eq!(feed.on_event(d), FeedAction::Applied);
    assert_eq!(feed.book().ask(), None);
    assert_eq!(feed.state(), SyncState::Synced(13));
    let o = FeedEvent::Other { sequence: Some(14) };
    assert_eq!(feed.on_event(o), FeedAction::Applied);
    assert_eq!(feed.state(), SyncState::Synced(14));
    assert_eq!(feed.on_event(o), FeedAction::Dropped);
}

#[test]
fn off_ladder_event_is_ignored() {
    let mut feed = synced_at(10);
    let e = FeedEvent::Done { price: 9_000_000, id: 1, sequence: Some(11) };
    assert_eq!(feed.on_event(e), FeedAction::Ignored);
    assert_eq!(feed.state(), SyncState::Synced(11));
}

#[test]
fn refused_match_asks_for_snapshot() {
    let mut feed = synced_at(10);
    let m = FeedEvent::Match { price: 1000, size: 1, maker_id: 77, sequence: 11 };
    assert_eq!(feed.on_event(m), FeedAction::FetchSnapshot);
    assert_eq!(feed.state(), SyncState::Resyncing(11));
    let crossed = FeedEvent::Open { side: Side::Sell, record: rec(900, 1, 5), sequence: 12 };
    assert_eq!(feed.on_event(crossed), FeedAction::FetchSnapshot);
    assert_eq!(feed.state(), SyncState::Resyncing(12));
}

#[test]
fn refused_snapshot_asks_again() {
    let mut feed = synced_at(10);
    let action = feed.on_snapshot(vec![rec(1000, 1, 1)], vec![rec(1000, 1, 2)], 30);
    assert_eq!(action, FeedAction::FetchSnapshot);
    assert_eq!(feed.state(), SyncState::Resyncing(10));
}

#[test]
fn classify_sequence_numbers() {
    assert_eq!(classify(SyncState::Synced(10), Some(10)), (SyncState::Synced(10), Verdict::Drop));
    assert_eq!(classify(SyncState::Synced(10), Some(11)), (SyncState::Synced(11), Verdict::Apply));
    assert_eq!(classify(SyncState::Synced(10), Some(12)), (SyncState::Resyncing(10), Verdict::Resync));
    assert_eq!(classify(SyncState::Resyncing(10), Some(11)), (SyncState::Resyncing(11), Verdict::Apply));
    assert_eq!(classify(SyncState::Synced(u64::MAX), Some(u64::MAX)), (SyncState::Synced(u64::MAX), Verdict::Drop));
    assert_eq!(classify(SyncState::AwaitingFirstSnapshot, Some(1)), (SyncState::AwaitingFirstSnapshot, Verdict::Drop));
    assert_eq!(classify(SyncState::Synced(3), None), (SyncState::Synced(3), Verdict::Apply));
}

#[test]
fn snapshot_with_off_ladder_record_still_syncs() {
    let mut feed = Feed::new();
    let action = feed.on_snapshot(vec![rec(1000, 10, 1), rec(2_000_000, 10, 2)], vec![rec(1010, 10, 3)], 40);
    assert_eq!(action, FeedAction::Applied);
    assert_eq!(feed.state(), SyncState::Synced(40));
    assert_eq!(feed.book().bid(), Some(1000));
}
