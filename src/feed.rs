//! The feed synchronizer: tracks the sequence number of the last applied
//! event, applies in-order events to the book, drops stale ones, and asks for
//! a snapshot when it sees a gap or when an update shows that the book and
//! the feed disagree.
use vstd::prelude::*;

use super::ob::{change_result, done_result, match_result, open_spec, reload_spec, Ladder, OrderBook};
use super::{BookRecord, Error, Side};

verus! {

#[derive(Debug, Clone, Copy, PartialEq, Eq, Structural)]
pub enum SyncState {
    /// No snapshot has been applied yet; every event is dropped. The caller
    /// fetches the first snapshot itself and hands it to `on_snapshot`.
    AwaitingFirstSnapshot,
    /// In step with the feed up to this sequence number.
    Synced(u64),
    /// A snapshot has been asked for; events are still checked against the
    /// last applied sequence number until it lands.
    Resyncing(u64),
}

/// What the sequence check decides for one event.
#[derive(Debug, Clone, Copy, PartialEq, Eq, Structural)]
pub enum Verdict {
    Drop,
    Apply,
    Resync,
}

/// One event of the full-depth feed, with prices in cents and sizes in
/// units of `1e-8`.
#[derive(Debug, Clone, Copy, PartialEq, Eq, Structural)]
pub enum FeedEvent {
    Open { side: Side, record: BookRecord, sequence: u64 },
    Done { price: u64, id: u128, sequence: Option<u64> },
    Match { price: u64, size: i64, maker_id: u128, sequence: u64 },
    Change { price: u64, new_size: i64, id: u128, sequence: u64 },
    /// An event that only counts for sequencing (received, heartbeat, ...).
    Other { sequence: Option<u64> },
}

/// What the caller has to do after an event or a snapshot.
#[derive(Debug, Clone, Copy, PartialEq, Eq, Structural)]
pub enum FeedAction {
    /// The event was applied to the book.
    Applied,
    /// The event was in order but named a price off the ladder: ignored.
    Ignored,
    /// The event was stale or came before the first snapshot: dropped.
    Dropped,
    /// Fetch a snapshot and hand it to `on_snapshot`.
    FetchSnapshot,
}

pub open spec fn sequence_of(e: FeedEvent) -> Option<u64> {
    match e {
        FeedEvent::Open { sequence, .. } => Some(sequence),
        FeedEvent::Done { sequence, .. } => sequence,
        FeedEvent::Match { sequence, .. } => Some(sequence),
        FeedEvent::Change { sequence, .. } => Some(sequence),
        FeedEvent::Other { sequence } => sequence,
    }
}

/// The sequence check. Before the first snapshot every event is dropped.
/// Afterwards, against the last applied number `n`: `s <= n` is dropped,
/// `s == n + 1` is applied and becomes the last applied number, and a gap
/// asks for a snapshot while `n` stays. An event without a number is applied
/// and leaves `n` as it is.
pub open spec fn verdict(state: SyncState, s: Option<u64>) -> (SyncState, Verdict) {
    match state {
        SyncState::AwaitingFirstSnapshot => (state, Verdict::Drop),
        SyncState::Synced(n) => match s {
            None => (state, Verdict::Apply),
            Some(s) => if s <= n {
                (state, Verdict::Drop)
            } else if s == n + 1 {
                (SyncState::Synced(s), Verdict::Apply)
            } else {
                (SyncState::Resyncing(n), Verdict::Resync)
            },
        },
        SyncState::Resyncing(n) => match s {
            None => (state, Verdict::Apply),
            Some(s) => if s <= n {
                (state, Verdict::Drop)
            } else if s == n + 1 {
                (SyncState::Resyncing(s), Verdict::Apply)
            } else {
                (SyncState::Resyncing(n), Verdict::Resync)
            },
        },
    }
}

/// The state once a snapshot has been asked for.
pub open spec fn resyncing(state: SyncState) -> SyncState {
    match state {
        SyncState::AwaitingFirstSnapshot => state,
        SyncState::Synced(n) => SyncState::Resyncing(n),
        SyncState::Resyncing(n) => state,
    }
}

/// What an event does to the ladder.
pub open spec fn apply_spec(l: Ladder, e: FeedEvent) -> Result<Ladder, Error> {
    match e {
        FeedEvent::Open { side, record, .. } => open_spec(l, side, record),
        FeedEvent::Done { price, id, .. } => done_result(l, price, id),
        FeedEvent::Match { price, size, maker_id, .. } => match_result(l, price, size, maker_id),
        FeedEvent::Change { price, new_size, id, .. } => change_result(l, price, new_size, id),
        FeedEvent::Other { .. } => Ok(l),
    }
}

/// The level of the last match once `e` has been applied with success.
pub open spec fn last_after(last: Option<usize>, e: FeedEvent) -> Option<usize> {
    match e {
        FeedEvent::Match { price, .. } => Some(price as usize),
        _ => last,
    }
}

/// Runs the sequence check of `verdict`.
pub fn classify(state: SyncState, s: Option<u64>) -> (r: (SyncState, Verdict))
    ensures
        r == verdict(state, s),
{
    match state {
        SyncState::AwaitingFirstSnapshot => (state, Verdict::Drop),
        SyncState::Synced(n) => match s {
            None => (state, Verdict::Apply),
            Some(s) => if s <= n {
                (state, Verdict::Drop)
            } else if s - n == 1 {
                (SyncState::Synced(s), Verdict::Apply)
            } else {
                (SyncState::Resyncing(n), Verdict::Resync)
            },
        },
        SyncState::Resyncing(n) => match s {
            None => (state, Verdict::Apply),
            Some(s) => if s <= n {
                (state, Verdict::Drop)
            } else if s - n == 1 {
                (SyncState::Resyncing(s), Verdict::Apply)
            } else {
                (SyncState::Resyncing(n), Verdict::Resync)
            },
        },
    }
}

/// After the last applied number `n`, an event that leaves a gap asks for
/// exactly one snapshot and leaves `n` in place; an older event that comes
/// after it is dropped.
pub proof fn lemma_gap_then_stale(n: u64, s: u64, t: u64)
    requires
        s > n + 1,
        t <= n,
    ensures
        verdict(SyncState::Synced(n), Some(s)) == (SyncState::Resyncing(n), Verdict::Resync),
        verdict(SyncState::Resyncing(n), Some(t)) == (SyncState::Resyncing(n), Verdict::Drop),
{
}

/// The book together with the sequence state of the feed that drives it.
pub struct Feed {
    book: OrderBook,
    state: SyncState,
}

impl Feed {
    pub closed spec fn book_spec(&self) -> OrderBook {
        self.book
    }

    pub closed spec fn state_spec(&self) -> SyncState {
        self.state
    }

    pub open spec fn wf(&self) -> bool {
        self.book_spec().wf()
    }

    /// An empty book awaiting its first snapshot, which the caller fetches
    /// and hands to `on_snapshot`: until then `on_event` drops every event
    /// and never asks for one.
    pub fn new() -> (r: Feed)
        ensures
            r.wf(),
            r.book_spec().ladder() == Ladder::empty(),
            r.book_spec().last_match_spec() is None,
            r.state_spec() == SyncState::AwaitingFirstSnapshot,
    {
        Feed { book: OrderBook::new(), state: SyncState::AwaitingFirstSnapshot }
    }

    pub fn book(&self) -> (r: &OrderBook)
        ensures
            *r == self.book_spec(),
    {
        &self.book
    }

    pub fn state(&self) -> (r: SyncState)
        ensures
            r == self.state_spec(),
    {
        self.state
    }

    /// Applies one event to the book.
    fn apply(book: &mut OrderBook, e: FeedEvent) -> (r: Result<(), Error>)
        requires
            old(book).wf(),
        ensures
            final(book).wf(),
            match apply_spec(old(book).ladder(), e) {
                Ok(l) => r is Ok && final(book).ladder() == l
                    && final(book).last_match_spec() == last_after(old(book).last_match_spec(), e),
                Err(x) => r == Err::<(), Error>(x) && final(book).ladder() == old(book).ladder()
                    && final(book).last_match_spec() == old(book).last_match_spec(),
            },
    {
        match e {
            FeedEvent::Open { side, record, .. } => book.open(side, record),
            FeedEvent::Done { price, id, .. } => book.done(price, id),
            FeedEvent::Match { price, size, maker_id, .. } => book.match_order(price, size, maker_id),
            FeedEvent::Change { price, new_size, id, .. } => book.change(price, new_size, id),
            FeedEvent::Other { .. } => Ok(()),
        }
    }

    /// Handles one event: drops it, applies it, or asks for a snapshot.
    /// An in-order event that names a price off the ladder is ignored; one
    /// that the book refuses otherwise (a crossed book, a match against an
    /// order that is not at the front) asks for a snapshot.
    pub fn on_event(&mut self, e: FeedEvent) -> (r: FeedAction)
        requires
            old(self).wf(),
        ensures
            final(self).wf(),
            ({
                let (next, v) = verdict(old(self).state_spec(), sequence_of(e));
                let b0 = old(self).book_spec();
                let b1 = final(self).book_spec();
                &&& v == Verdict::Drop ==> r == FeedAction::Dropped && b1 == b0 && final(self).state_spec() == next
                &&& v == Verdict::Resync ==> r == FeedAction::FetchSnapshot && b1 == b0 && final(self).state_spec() == next
                &&& v == Verdict::Apply ==> match apply_spec(b0.ladder(), e) {
                    Ok(l) => r == FeedAction::Applied && b1.ladder() == l
                        && b1.last_match_spec() == last_after(b0.last_match_spec(), e)
                        && final(self).state_spec() == next,
                    Err(x) => b1.ladder() == b0.ladder() && b1.last_match_spec() == b0.last_match_spec() && if x == Error::Range {
                        r == FeedAction::Ignored && final(self).state_spec() == next
                    } else {
                        r == FeedAction::FetchSnapshot && final(self).state_spec() == resyncing(next)
                    },
                }
            }),
    {
        let s = match e {
            FeedEvent::Open { sequence, .. } => Some(sequence),
            FeedEvent::Done { sequence, .. } => sequence,
            FeedEvent::Match { sequence, .. } => Some(sequence),
            FeedEvent::Change { sequence, .. } => Some(sequence),
            FeedEvent::Other { sequence } => sequence,
        };
        let (next, v) = classify(self.state, s);
        self.state = next;
        match v {
            Verdict::Drop => FeedAction::Dropped,
            Verdict::Resync => FeedAction::FetchSnapshot,
            Verdict::Apply => match Self::apply(&mut self.book, e) {
                Ok(()) => FeedAction::Applied,
                Err(Error::Range) => FeedAction::Ignored,
                Err(_) => {
                    self.state = match next {
                        SyncState::Synced(n) => SyncState::Resyncing(n),
                        _ => next,
                    };
                    FeedAction::FetchSnapshot
                },
            },
        }
    }

    /// Replaces the book with a snapshot taken at sequence number `sequence`.
    /// Records priced off the ladder are skipped, and the feed is then in
    /// step up to `sequence`; a snapshot whose book would cross asks for
    /// another.
    pub fn on_snapshot(&mut self, bids: Vec<BookRecord>, asks: Vec<BookRecord>, sequence: u64) -> (r: FeedAction)
        requires
            old(self).wf(),
        ensures
            final(self).wf(),
            final(self).book_spec().ladder() == reload_spec(bids@, asks@).0,
            final(self).book_spec().last_match_spec() == old(self).book_spec().last_match_spec(),
            reload_spec(bids@, asks@).1 is None ==> r == FeedAction::Applied && final(self).state_spec() == SyncState::Synced(sequence),
            reload_spec(bids@, asks@).1 is Some ==> r == FeedAction::FetchSnapshot && final(self).state_spec() == resyncing(old(self).state_spec())
                && reload_spec(bids@, asks@).1 == Some(Error::BidLessAsk),
    {
        match self.book.reload(bids, asks) {
            Ok(()) => {
                self.state = SyncState::Synced(sequence);
                FeedAction::Applied
            },
            Err(_) => {
                self.state = match self.state {
                    SyncState::Synced(n) => SyncState::Resyncing(n),
                    _ => self.state,
                };
                FeedAction::FetchSnapshot
            },
        }
    }
}

} // verus!
