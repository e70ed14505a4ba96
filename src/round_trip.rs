//! Reloading a book from the orders that were opened on it gives the same
//! ladder back.
use vstd::prelude::*;

use super::ob::{ask_after_open, bid_after_open, high, low, open_all, open_spec, order_of, reload_spec, Ladder, Order};
use super::{BookRecord, Error, Side, MAX_SIZE};

verus! {

/// Opening each `(side, record)` of `ops` in turn, stopping at the first
/// refusal.
pub open spec fn open_seq(l: Ladder, ops: Seq<(Side, BookRecord)>) -> (Ladder, Option<Error>)
    decreases ops.len(),
{
    if ops.len() == 0 {
        (l, None)
    } else {
        let (m, e) = open_seq(l, ops.drop_last());
        if e is Some {
            (m, e)
        } else {
            match open_spec(m, ops.last().0, ops.last().1) {
                Ok(n) => (n, None),
                Err(x) => (m, Some(x)),
            }
        }
    }
}

/// The records of `ops` on `side`, in order.
pub open spec fn records_of(ops: Seq<(Side, BookRecord)>, side: Side) -> Seq<BookRecord>
    decreases ops.len(),
{
    if ops.len() == 0 {
        Seq::empty()
    } else if ops.last().0 == side {
        records_of(ops.drop_last(), side).push(ops.last().1)
    } else {
        records_of(ops.drop_last(), side)
    }
}

pub open spec fn tag(side: Side, recs: Seq<BookRecord>) -> Seq<(Side, BookRecord)> {
    recs.map_values(|r: BookRecord| (side, r))
}

/// The bid after the opens of `ops`, starting from `b`.
pub open spec fn fold_bid(b: Option<usize>, ops: Seq<(Side, BookRecord)>) -> Option<usize>
    decreases ops.len(),
{
    if ops.len() == 0 {
        b
    } else {
        bid_after_open(fold_bid(b, ops.drop_last()), ops.last().0, ops.last().1.price as usize)
    }
}

/// The ask after the opens of `ops`, starting from `a`.
pub open spec fn fold_ask(a: Option<usize>, ops: Seq<(Side, BookRecord)>) -> Option<usize>
    decreases ops.len(),
{
    if ops.len() == 0 {
        a
    } else {
        ask_after_open(fold_ask(a, ops.drop_last()), ops.last().0, ops.last().1.price as usize)
    }
}

/// Every open of `ops`, from frontiers `b` and `a`, is on the ladder and
/// leaves the bid below the ask.
pub open spec fn all_accepted(b: Option<usize>, a: Option<usize>, ops: Seq<(Side, BookRecord)>) -> bool
    decreases ops.len(),
{
    ops.len() == 0 || (all_accepted(b, a, ops.drop_last()) && ops.last().1.price < MAX_SIZE
        && low(fold_bid(b, ops)) < high(fold_ask(a, ops)))
}

/// The orders that `ops` adds at price `p`, in order.
pub open spec fn added_at(ops: Seq<(Side, BookRecord)>, p: int) -> Seq<Order>
    decreases ops.len(),
{
    if ops.len() == 0 {
        Seq::empty()
    } else if ops.last().1.price as int == p {
        added_at(ops.drop_last(), p).push(order_of(ops.last().1))
    } else {
        added_at(ops.drop_last(), p)
    }
}

pub open spec fn joined(l: Ladder, ops: Seq<(Side, BookRecord)>) -> Seq<Seq<Order>> {
    Seq::new(l.levels.len(), |p: int| l.levels[p] + added_at(ops, p))
}

proof fn lemma_open_seq(l: Ladder, ops: Seq<(Side, BookRecord)>)
    requires
        l.levels.len() == MAX_SIZE,
    ensures
        all_accepted(l.bid, l.ask, ops) ==> open_seq(l, ops) == (
        Ladder { levels: joined(l, ops), bid: fold_bid(l.bid, ops), ask: fold_ask(l.ask, ops) }, None::<Error>),
        !all_accepted(l.bid, l.ask, ops) ==> open_seq(l, ops).1 is Some,
    decreases ops.len(),
{
    if ops.len() == 0 {
        assert(joined(l, ops) =~= l.levels);
    } else {
        let pre = ops.drop_last();
        lemma_open_seq(l, pre);
        if all_accepted(l.bid, l.ask, pre) {
            let m = open_seq(l, pre).0;
            let (side, r) = ops.last();
            if r.price < MAX_SIZE {
                let p = r.price as int;
                let n = Ladder { levels: m.levels.update(p, m.levels[p].push(order_of(r))), bid: fold_bid(l.bid, ops), ask: fold_ask(l.ask, ops) };
                assert forall|q: int| 0 <= q < MAX_SIZE implies n.levels[q] == joined(l, ops)[q] by {
                    if q == p {
                        assert(l.levels[q] + added_at(pre, q).push(order_of(r)) =~= (l.levels[q] + added_at(pre, q)).push(order_of(r)));
                    }
                }
                assert(n.levels =~= joined(l, ops));
            }
        }
    }
}

/// Where no open is refused, skipping refused records changes nothing.
proof fn lemma_open_all_is_open_seq(l: Ladder, side: Side, recs: Seq<BookRecord>)
    ensures
        open_seq(l, tag(side, recs)).1 is None ==> open_all(l, side, recs) == open_seq(l, tag(side, recs)),
    decreases recs.len(),
{
    if recs.len() > 0 {
        assert(tag(side, recs).drop_last() =~= tag(side, recs.drop_last()));
        lemma_open_all_is_open_seq(l, side, recs.drop_last());
    }
}

/// Splitting `ops` by side: the tagged records of each side, and how the
/// folds and the added orders relate.
proof fn lemma_split(ops: Seq<(Side, BookRecord)>, b: Option<usize>, a: Option<usize>)
    ensures
        fold_bid(b, tag(Side::Buy, records_of(ops, Side::Buy))) == fold_bid(b, ops),
        fold_ask(a, tag(Side::Sell, records_of(ops, Side::Sell))) == fold_ask(a, ops),
        fold_ask(a, tag(Side::Buy, records_of(ops, Side::Buy))) == a,
        fold_bid(b, tag(Side::Sell, records_of(ops, Side::Sell))) == b,
    decreases ops.len(),
{
    if ops.len() > 0 {
        let pre = ops.drop_last();
        lemma_split(pre, b, a);
        let (side, r) = ops.last();
        let tb = tag(Side::Buy, records_of(ops, Side::Buy));
        let ts = tag(Side::Sell, records_of(ops, Side::Sell));
        if side == Side::Buy {
            assert(tb.drop_last() =~= tag(Side::Buy, records_of(pre, Side::Buy)));
        } else {
            assert(ts.drop_last() =~= tag(Side::Sell, records_of(pre, Side::Sell)));
        }
    }
}

proof fn lemma_ask_falls(a: Option<usize>, ops: Seq<(Side, BookRecord)>)
    requires
        ops.len() > 0,
    ensures
        high(fold_ask(a, ops)) <= high(fold_ask(a, ops.drop_last())),
{
}

/// Every sell of `ops` lies at or above the ask that `ops` leaves: none is
/// added below it.
proof fn lemma_sides_apart(ops: Seq<(Side, BookRecord)>, p: int)
    ensures
        p < high(fold_ask(None, ops)) ==> added_at(tag(Side::Sell, records_of(ops, Side::Sell)), p).len() == 0,
    decreases ops.len(),
{
    if ops.len() > 0 {
        let pre = ops.drop_last();
        lemma_sides_apart(pre, p);
        let ts = tag(Side::Sell, records_of(ops, Side::Sell));
        if ops.last().0 == Side::Sell {
            assert(ts.drop_last() =~= tag(Side::Sell, records_of(pre, Side::Sell)));
        }
    }
}

proof fn lemma_buys_accepted(ops: Seq<(Side, BookRecord)>)
    requires
        all_accepted(None, None, ops),
    ensures
        all_accepted(None, None, tag(Side::Buy, records_of(ops, Side::Buy))),
    decreases ops.len(),
{
    if ops.len() > 0 {
        let pre = ops.drop_last();
        lemma_buys_accepted(pre);
        let tb = tag(Side::Buy, records_of(ops, Side::Buy));
        lemma_split(ops, None, None);
        if ops.last().0 == Side::Buy {
            assert(tb.drop_last() =~= tag(Side::Buy, records_of(pre, Side::Buy)));
        }
    }
}

proof fn lemma_sells_accepted(ops: Seq<(Side, BookRecord)>, x: Option<usize>)
    requires
        all_accepted(None, None, ops),
        low(x) < high(fold_ask(None, ops)),
    ensures
        all_accepted(x, None, tag(Side::Sell, records_of(ops, Side::Sell))),
    decreases ops.len(),
{
    if ops.len() > 0 {
        let pre = ops.drop_last();
        lemma_ask_falls(None, ops);
        lemma_sells_accepted(pre, x);
        let ts = tag(Side::Sell, records_of(ops, Side::Sell));
        lemma_split(ops, x, None);
        if ops.last().0 == Side::Sell {
            assert(ts.drop_last() =~= tag(Side::Sell, records_of(pre, Side::Sell)));
        }
    }
}

proof fn lemma_levels_split(ops: Seq<(Side, BookRecord)>, p: int)
    requires
        all_accepted(None, None, ops),
    ensures
        added_at(tag(Side::Buy, records_of(ops, Side::Buy)), p) + added_at(tag(Side::Sell, records_of(ops, Side::Sell)), p)
            == added_at(ops, p),
    decreases ops.len(),
{
    if ops.len() > 0 {
        let pre = ops.drop_last();
        lemma_levels_split(pre, p);
        let tb = tag(Side::Buy, records_of(ops, Side::Buy));
        let ts = tag(Side::Sell, records_of(ops, Side::Sell));
        let (side, r) = ops.last();
        let sb = added_at(tag(Side::Buy, records_of(pre, Side::Buy)), p);
        let ss = added_at(tag(Side::Sell, records_of(pre, Side::Sell)), p);
        if side == Side::Buy {
            assert(tb.drop_last() =~= tag(Side::Buy, records_of(pre, Side::Buy)));
            if r.price as int == p {
                lemma_sides_apart(pre, p);
                assert(fold_ask(None, ops) == fold_ask(None, pre));
                assert(ss.len() == 0);
                assert(sb.push(order_of(r)) + ss =~= (sb + ss).push(order_of(r)));
            }
        } else {
            assert(ts.drop_last() =~= tag(Side::Sell, records_of(pre, Side::Sell)));
            if r.price as int == p {
                assert(sb + ss.push(order_of(r)) =~= (sb + ss).push(order_of(r)));
            }
        }
    }
}

/// Opening orders on both sides of an empty book, then reloading from a
/// snapshot that holds those same orders (the bids and the asks each in the
/// order they were opened), gives back the same ladder.
pub proof fn lemma_reload_round_trip(ops: Seq<(Side, BookRecord)>)
    requires
        open_seq(Ladder::empty(), ops).1 is None,
    ensures
        reload_spec(records_of(ops, Side::Buy), records_of(ops, Side::Sell)) == open_seq(Ladder::empty(), ops),
{
    let e = Ladder::empty();
    let bs = records_of(ops, Side::Buy);
    let ss = records_of(ops, Side::Sell);
    let tb = tag(Side::Buy, bs);
    let ts = tag(Side::Sell, ss);
    lemma_open_seq(e, ops);
    lemma_buys_accepted(ops);
    lemma_split(ops, None, None);
    lemma_open_seq(e, tb);
    lemma_open_all_is_open_seq(e, Side::Buy, bs);
    let m = open_all(e, Side::Buy, bs).0;
    assert(m.bid == fold_bid(None, ops));
    assert(m.ask is None);
    if ops.len() > 0 {
        assert(low(fold_bid(None, ops)) < high(fold_ask(None, ops)));
    }
    lemma_sells_accepted(ops, m.bid);
    lemma_split(ops, m.bid, None);
    lemma_open_seq(m, ts);
    lemma_open_all_is_open_seq(m, Side::Sell, ss);
    let n = open_all(m, Side::Sell, ss).0;
    assert forall|p: int| 0 <= p < MAX_SIZE implies n.levels[p] == joined(e, ops)[p] by {
        lemma_levels_split(ops, p);
        assert(e.levels[p] + added_at(tb, p) + added_at(ts, p) =~= e.levels[p] + added_at(ops, p));
    }
    assert(n.levels =~= joined(e, ops));
}

} // verus!
