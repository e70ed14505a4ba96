//! A price-time-priority limit order book kept on a dense ladder of price
//! levels, with a feed synchronizer that decides, event by event, whether to
//! apply an update, drop it, or ask for a fresh snapshot.
//!
//! Prices are whole cents, and a price in cents is also the index of its
//! level. Sizes are whole units of `1e-8`. Order ids are 128-bit values (the
//! bits of a UUID).
use vstd::prelude::*;

pub mod ob;
pub mod render;
pub mod feed;
pub mod round_trip;

pub use ob::OrderBook;
pub use ob::Order;
pub use feed::{Feed, FeedAction, FeedEvent, SyncState, Verdict};

verus! {

/// Number of price levels: prices up to 20,000.00 with two decimals.
pub const MAX_SIZE: usize = 20000 * 100;

/// Number of size units in one whole unit of quantity.
pub const SIZE_SCALE: i64 = 100_000_000;

/// Size of the probe order that `open_test` places (0.001).
pub const TEST_SIZE: i64 = 100_000;

/// Half of the smallest rendered quantity (0.0005): a residual strictly
/// inside `(-HALF_TICK, HALF_TICK)` rounds to zero at three decimals.
pub const HALF_TICK: i64 = 50_000;

#[derive(Debug, Clone, Copy, PartialEq, Eq, Structural)]
pub enum Error {
    /// The price lies outside the ladder, or a size left the representable range.
    Range,
    /// The update would make the best bid reach the best ask.
    BidLessAsk,
    /// A match named an order that is not at the front of its level.
    MatchUuid,
    /// A probe order was tested at a price that is not the frontier.
    TestFail,
}

#[derive(Debug, Clone, Copy, PartialEq, Eq, Structural)]
pub enum Side {
    Buy,
    Sell,
}

/// One resting order as a snapshot or an open event reports it.
#[derive(Debug, Clone, Copy, PartialEq, Eq, Structural)]
pub struct BookRecord {
    /// Price in cents.
    pub price: u64,
    /// Size in units of `1e-8`.
    pub size: i64,
    /// Order id.
    pub id: u128,
}

/// Relies on uuid's `Uuid::nil` and `Uuid::as_u128`: the nil UUID is sixteen
/// zero bytes, so its 128-bit value is zero.
#[verifier::external_body]
pub(crate) fn nil_id() -> (r: u128)
    ensures
        r == 0,
{
    uuid::Uuid::nil().as_u128()
}

} // verus!
