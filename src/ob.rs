//! The price ladder: one FIFO queue of orders per price level, with the best
//! bid and best ask kept as frontiers.
use std::collections::VecDeque;
use vstd::prelude::*;

use super::{nil_id, BookRecord, Error, Side, HALF_TICK, MAX_SIZE, TEST_SIZE};

verus! {

/// A resting order: its remaining size and its id.
#[derive(Debug, Clone, Copy, PartialEq, Eq, Structural)]
pub struct Order {
    pub size: i64,
    pub id: u128,
}

/// The mathematical state of a ladder: the orders at each level, front
/// first, and the two frontiers.
pub struct Ladder {
    pub levels: Seq<Seq<Order>>,
    pub bid: Option<usize>,
    pub ask: Option<usize>,
}

/// The index just below every valid bid when there is none.
pub open spec fn low(bid: Option<usize>) -> int {
    match bid {
        Some(b) => b as int,
        None => -1,
    }
}

/// The index just above every valid ask when there is none.
pub open spec fn high(ask: Option<usize>) -> int {
    match ask {
        Some(a) => a as int,
        None => MAX_SIZE as int,
    }
}

pub open spec fn order_of(rec: BookRecord) -> Order {
    Order { size: rec.size, id: rec.id }
}

/// The highest level at or below `i` that holds an order.
pub open spec fn below(levels: Seq<Seq<Order>>, i: int) -> Option<usize>
    decreases i + 1,
{
    if i < 0 || i >= levels.len() {
        None
    } else if levels[i].len() > 0 {
        Some(i as usize)
    } else {
        below(levels, i - 1)
    }
}

/// The lowest level at or above `i` that holds an order.
pub open spec fn above(levels: Seq<Seq<Order>>, i: int) -> Option<usize>
    decreases levels.len() - i,
{
    if i < 0 || i >= levels.len() {
        None
    } else if levels[i].len() > 0 {
        Some(i as usize)
    } else {
        above(levels, i + 1)
    }
}

impl Ladder {
    /// Every level empty, both frontiers absent.
    pub open spec fn empty() -> Ladder {
        Ladder { levels: Seq::new(MAX_SIZE as nat, |i: int| Seq::<Order>::empty()), bid: None, ask: None }
    }

    /// The ladder spans the whole domain; each frontier, where present, holds
    /// an order; the bid lies below the ask; every level strictly between
    /// them is empty.
    pub open spec fn wf(self) -> bool {
        &&& self.levels.len() == MAX_SIZE
        &&& (self.bid matches Some(b) ==> b < MAX_SIZE && self.levels[b as int].len() > 0)
        &&& (self.ask matches Some(a) ==> a < MAX_SIZE && self.levels[a as int].len() > 0)
        &&& low(self.bid) < high(self.ask)
        &&& forall|i: int| low(self.bid) < i < high(self.ask) ==> #[trigger] self.levels[i].len() == 0
    }

    /// The frontiers after level `p` may have lost orders: a frontier that
    /// stood at `p` moves outward to the nearest level that holds an order.
    pub open spec fn settle(self, p: int) -> Ladder {
        Ladder {
            levels: self.levels,
            bid: if self.bid == Some(p as usize) { below(self.levels, p) } else { self.bid },
            ask: if self.ask == Some(p as usize) { above(self.levels, p) } else { self.ask },
        }
    }

    /// Level `p` replaced by `q`, then frontiers settled at `p`.
    pub open spec fn with_level(self, p: int, q: Seq<Order>) -> Ladder {
        Ladder { levels: self.levels.update(p, q), bid: self.bid, ask: self.ask }.settle(p)
    }
}

/// The bid after an order of `side` opens at level `p`.
pub open spec fn bid_after_open(bid: Option<usize>, side: Side, p: usize) -> Option<usize> {
    if side == Side::Buy && low(bid) < p { Some(p) } else { bid }
}

/// The ask after an order of `side` opens at level `p`.
pub open spec fn ask_after_open(ask: Option<usize>, side: Side, p: usize) -> Option<usize> {
    if side == Side::Sell && p < high(ask) { Some(p) } else { ask }
}

/// Opening `rec` on `side`: the order joins the back of its level and the
/// frontier of its side tightens; a price off the ladder, or a book that
/// would cross, is refused.
pub open spec fn open_spec(l: Ladder, side: Side, rec: BookRecord) -> Result<Ladder, Error> {
    if rec.price >= MAX_SIZE {
        Err(Error::Range)
    } else {
        let p = rec.price as usize;
        let nb = bid_after_open(l.bid, side, p);
        let na = ask_after_open(l.ask, side, p);
        if low(nb) < high(na) {
            Ok(Ladder { levels: l.levels.update(p as int, l.levels[p as int].push(order_of(rec))), bid: nb, ask: na })
        } else {
            Err(Error::BidLessAsk)
        }
    }
}

pub proof fn lemma_below(levels: Seq<Seq<Order>>, i: int)
    requires
        levels.len() == MAX_SIZE,
        i < levels.len(),
    ensures
        match below(levels, i) {
            Some(j) => j <= i && levels[j as int].len() > 0 && forall|k: int| j < k <= i ==> #[trigger] levels[k].len() == 0,
            None => forall|k: int| 0 <= k <= i ==> #[trigger] levels[k].len() == 0,
        },
    decreases i + 1,
{
    if i >= 0 && levels[i].len() == 0 {
        lemma_below(levels, i - 1);
    }
}

pub proof fn lemma_above(levels: Seq<Seq<Order>>, i: int)
    requires
        levels.len() == MAX_SIZE,
        0 <= i,
    ensures
        match above(levels, i) {
            Some(j) => i <= j < levels.len() && levels[j as int].len() > 0 && forall|k: int| i <= k < j ==> #[trigger] levels[k].len() == 0,
            None => forall|k: int| i <= k < levels.len() ==> #[trigger] levels[k].len() == 0,
        },
    decreases levels.len() - i,
{
    if i < levels.len() && levels[i].len() == 0 {
        lemma_above(levels, i + 1);
    }
}

/// Settling at a level that the update may have emptied keeps the ladder
/// well formed, provided it was well formed apart from that level.
pub proof fn lemma_settle_wf(l: Ladder, p: int)
    requires
        l.levels.len() == MAX_SIZE,
        0 <= p < MAX_SIZE,
        l.bid matches Some(b) ==> b < MAX_SIZE && (b != p ==> l.levels[b as int].len() > 0),
        l.ask matches Some(a) ==> a < MAX_SIZE && (a != p ==> l.levels[a as int].len() > 0),
        low(l.bid) < high(l.ask),
        forall|i: int| low(l.bid) < i < high(l.ask) ==> #[trigger] l.levels[i].len() == 0,
    ensures
        l.settle(p).wf(),
{
    lemma_below(l.levels, p);
    lemma_above(l.levels, p);
}

/// Keeps the orders whose id differs from `id`.
pub open spec fn keeps(id: u128) -> spec_fn(Order) -> bool {
    |o: Order| o.id != id
}

/// The order with id `id` given size `size`; any other order as it was.
pub open spec fn amend_one(o: Order, size: i64, id: u128) -> Order {
    if o.id == id { Order { size, id: o.id } } else { o }
}

/// Removing every order with id `id` from level `p`.
pub open spec fn done_spec(l: Ladder, p: int, id: u128) -> Ladder {
    l.with_level(p, l.levels[p].filter(keeps(id)))
}

/// Amending the size of the orders with id `id` at level `p`; a new size of
/// zero removes them.
pub open spec fn change_spec(l: Ladder, p: int, size: i64, id: u128) -> Ladder {
    if size == 0 {
        done_spec(l, p, id)
    } else {
        Ladder {
            levels: l.levels.update(p, l.levels[p].map_values(|o: Order| amend_one(o, size, id))),
            bid: l.bid,
            ask: l.ask,
        }
    }
}

/// A residual that rounds to zero at three decimals.
pub open spec fn is_consumed(rest: int) -> bool {
    -HALF_TICK < rest < HALF_TICK
}

/// Matching `size` against the front order of level `p`, which must have id
/// `id`: the front order is decremented, and leaves the level once what
/// remains rounds to zero.
pub open spec fn match_spec(l: Ladder, p: int, size: i64, id: u128) -> Result<Ladder, Error> {
    let q = l.levels[p];
    if q.len() == 0 || q[0].id != id {
        Err(Error::MatchUuid)
    } else {
        let rest = q[0].size - size;
        if rest < i64::MIN || rest > i64::MAX {
            Err(Error::Range)
        } else if is_consumed(rest) {
            Ok(l.with_level(p, q.subrange(1, q.len() as int)))
        } else {
            Ok(Ladder { levels: l.levels.update(p, q.update(0, Order { size: rest as i64, id })), bid: l.bid, ask: l.ask })
        }
    }
}

/// `done` as a result: `Range` off the ladder.
pub open spec fn done_result(l: Ladder, price: u64, id: u128) -> Result<Ladder, Error> {
    if price >= MAX_SIZE { Err(Error::Range) } else { Ok(done_spec(l, price as int, id)) }
}

/// `change` as a result: `Range` off the ladder.
pub open spec fn change_result(l: Ladder, price: u64, size: i64, id: u128) -> Result<Ladder, Error> {
    if price >= MAX_SIZE { Err(Error::Range) } else { Ok(change_spec(l, price as int, size, id)) }
}

/// `match_order` as a result: `Range` off the ladder.
pub open spec fn match_result(l: Ladder, price: u64, size: i64, id: u128) -> Result<Ladder, Error> {
    if price >= MAX_SIZE { Err(Error::Range) } else { match_spec(l, price as int, size, id) }
}

/// Opening every record of `recs` on `side` in turn. A record priced off
/// the ladder is skipped; a record that would cross the book stops the
/// reload with its error.
pub open spec fn open_all(l: Ladder, side: Side, recs: Seq<BookRecord>) -> (Ladder, Option<Error>)
    decreases recs.len(),
{
    if recs.len() == 0 {
        (l, None)
    } else {
        let (m, e) = open_all(l, side, recs.drop_last());
        if e is Some {
            (m, e)
        } else {
            match open_spec(m, side, recs.last()) {
                Ok(n) => (n, None),
                Err(Error::Range) => (m, None),
                Err(x) => (m, Some(x)),
            }
        }
    }
}

/// The ladder that a snapshot gives: an empty ladder, then every bid, then
/// every ask.
pub open spec fn reload_spec(bids: Seq<BookRecord>, asks: Seq<BookRecord>) -> (Ladder, Option<Error>) {
    let (m, e) = open_all(Ladder::empty(), Side::Buy, bids);
    if e is Some { (m, e) } else { open_all(m, Side::Sell, asks) }
}

/// The total remaining size of a level.
pub open spec fn level_sum(q: Seq<Order>) -> int
    decreases q.len(),
{
    if q.len() == 0 { 0 } else { level_sum(q.drop_last()) + q.last().size }
}

/// The total size at level `i`; zero off the ladder.
pub open spec fn depth_at(levels: Seq<Seq<Order>>, i: int) -> int {
    if 0 <= i < levels.len() { level_sum(levels[i]) } else { 0 }
}

/// The `n` levels that end at the best bid, lowest first.
pub open spec fn bid_window(l: Ladder, n: nat) -> Seq<int> {
    match l.bid {
        Some(b) => Seq::new(n, |k: int| depth_at(l.levels, b - n + 1 + k)),
        None => Seq::empty(),
    }
}

/// The `n` levels that start at the best ask, lowest first.
pub open spec fn ask_window(l: Ladder, n: nat) -> Seq<int> {
    match l.ask {
        Some(a) => Seq::new(n, |k: int| depth_at(l.levels, a + k)),
        None => Seq::empty(),
    }
}

pub proof fn lemma_level_sum_bound(q: Seq<Order>)
    ensures
        -(q.len() as int) * 0x8000_0000_0000_0000 <= level_sum(q) <= (q.len() as int) * 0x8000_0000_0000_0000,
    decreases q.len(),
{
    if q.len() > 0 {
        lemma_level_sum_bound(q.drop_last());
    }
}

/// The order book: a dense ladder of FIFO levels, the two frontiers and the
/// level of the last match.
pub struct OrderBook {
    book: Vec<VecDeque<Order>>,
    bid: Option<usize>,
    ask: Option<usize>,
    last: Option<usize>,
}

impl OrderBook {
    pub closed spec fn ladder(&self) -> Ladder {
        Ladder { levels: self.book@.map_values(|q: VecDeque<Order>| q@), bid: self.bid, ask: self.ask }
    }

    pub closed spec fn last_match_spec(&self) -> Option<usize> {
        self.last
    }

    pub open spec fn wf(&self) -> bool {
        self.ladder().wf()
    }

    /// An empty book over the whole price domain.
    pub fn new() -> (r: OrderBook)
        ensures
            r.wf(),
            r.ladder() == Ladder::empty(),
            r.last_match_spec() is None,
    {
        let mut book: Vec<VecDeque<Order>> = Vec::with_capacity(MAX_SIZE);
        let mut i: usize = 0;
        while i < MAX_SIZE
            invariant
                i <= MAX_SIZE,
                book@.len() == i,
                forall|k: int| 0 <= k < i ==> (#[trigger] book@[k])@.len() == 0,
            decreases MAX_SIZE - i,
        {
            book.push(VecDeque::new());
            i += 1;
        }
        let r = OrderBook { book, bid: None, ask: None, last: None };
        assert forall|k: int| 0 <= k < MAX_SIZE implies r.ladder().levels[k] =~= Seq::<Order>::empty() by {
            assert(r.book@[k]@.len() == 0);
        }
        assert(r.ladder().levels =~= Ladder::empty().levels);
        r
    }

    /// The best bid in cents, if any.
    pub fn bid(&self) -> (r: Option<u64>)
        ensures
            r == (match self.ladder().bid { Some(b) => Some(b as u64), None => None }),
    {
        match self.bid {
            Some(b) => Some(b as u64),
            None => None,
        }
    }

    /// The best ask in cents, if any.
    pub fn ask(&self) -> (r: Option<u64>)
        ensures
            r == (match self.ladder().ask { Some(a) => Some(a as u64), None => None }),
    {
        match self.ask {
            Some(a) => Some(a as u64),
            None => None,
        }
    }

    /// The price in cents of the last match, if any.
    pub fn last_match(&self) -> (r: Option<u64>)
        ensures
            r == (match self.last_match_spec() { Some(m) => Some(m as u64), None => None }),
    {
        match self.last {
            Some(m) => Some(m as u64),
            None => None,
        }
    }

    /// The orders resting at level `i`, front first; nothing off the ladder.
    pub fn level(&self, i: usize) -> (r: Vec<Order>)
        requires
            self.wf(),
        ensures
            i < MAX_SIZE ==> r@ == self.ladder().levels[i as int],
            i >= MAX_SIZE ==> r@.len() == 0,
    {
        let mut out: Vec<Order> = Vec::new();
        if i < MAX_SIZE {
            let n = self.book[i].len();
            let mut k: usize = 0;
            while k < n
                invariant
                    i < MAX_SIZE,
                    self.wf(),
                    k <= n,
                    n == self.ladder().levels[i as int].len(),
                    out@ == self.ladder().levels[i as int].subrange(0, k as int),
                decreases n - k,
            {
                out.push(self.book[i][k]);
                k += 1;
                assert(out@ =~= self.ladder().levels[i as int].subrange(0, k as int));
            }
            assert(out@ =~= self.ladder().levels[i as int]);
        }
        out
    }

    /// The level of a price in cents, or `Range` off the ladder.
    fn get_idx(&self, price: u64) -> (r: Result<usize, Error>)
        ensures
            price < MAX_SIZE ==> r == Ok::<usize, Error>(price as usize),
            price >= MAX_SIZE ==> r == Err::<usize, Error>(Error::Range),
    {
        if price >= MAX_SIZE as u64 {
            Err(Error::Range)
        } else {
            Ok(price as usize)
        }
    }

    fn scan_down(&self, from: usize) -> (r: Option<usize>)
        requires
            self.book@.len() == MAX_SIZE,
            from < MAX_SIZE,
        ensures
            r == below(self.ladder().levels, from as int),
    {
        let ghost levels = self.ladder().levels;
        let mut i: usize = from;
        loop
            invariant
                i <= from < MAX_SIZE,
                self.book@.len() == MAX_SIZE,
                levels == self.ladder().levels,
                below(levels, from as int) == below(levels, i as int),
            decreases i,
        {
            if self.book[i].len() > 0 {
                return Some(i);
            }
            if i == 0 {
                assert(below(levels, -1) is None);
                return None;
            }
            i -= 1;
        }
    }

    fn scan_up(&self, from: usize) -> (r: Option<usize>)
        requires
            self.book@.len() == MAX_SIZE,
            from < MAX_SIZE,
        ensures
            r == above(self.ladder().levels, from as int),
    {
        let ghost levels = self.ladder().levels;
        let mut i: usize = from;
        loop
            invariant
                from <= i < MAX_SIZE,
                self.book@.len() == MAX_SIZE,
                levels == self.ladder().levels,
                above(levels, from as int) == above(levels, i as int),
            decreases MAX_SIZE - i,
        {
            if self.book[i].len() > 0 {
                return Some(i);
            }
            if i + 1 == MAX_SIZE {
                assert(above(levels, MAX_SIZE as int) is None);
                return None;
            }
            i += 1;
        }
    }

    /// Moves each frontier that stood at `p` outward past empty levels.
    fn check_ask_bid(&mut self, p: usize)
        requires
            old(self).book@.len() == MAX_SIZE,
            p < MAX_SIZE,
        ensures
            final(self).ladder() == old(self).ladder().settle(p as int),
            final(self).last == old(self).last,
    {
        if self.bid == Some(p) {
            self.bid = self.scan_down(p);
        }
        if self.ask == Some(p) {
            self.ask = self.scan_up(p);
        }
    }

    /// Appends an order at the back of its level and tightens the frontier
    /// of its side. Refuses a price off the ladder, and an order that would
    /// make the bid reach the ask, leaving the book unchanged.
    pub fn open(&mut self, side: Side, rec: BookRecord) -> (r: Result<(), Error>)
        requires
            old(self).wf(),
        ensures
            final(self).wf(),
            final(self).last_match_spec() == old(self).last_match_spec(),
            match open_spec(old(self).ladder(), side, rec) {
                Ok(l) => r is Ok && final(self).ladder() == l,
                Err(e) => r == Err::<(), Error>(e) && final(self).ladder() == old(self).ladder(),
            },
    {
        let p = self.get_idx(rec.price)?;
        let nb = match side {
            Side::Buy => match self.bid {
                Some(b) => if p > b { Some(p) } else { Some(b) },
                None => Some(p),
            },
            Side::Sell => self.bid,
        };
        let na = match side {
            Side::Sell => match self.ask {
                Some(a) => if p < a { Some(p) } else { Some(a) },
                None => Some(p),
            },
            Side::Buy => self.ask,
        };
        let crossed = match (nb, na) {
            (Some(b), Some(a)) => b >= a,
            _ => false,
        };
        if crossed {
            return Err(Error::BidLessAsk);
        }
        let ghost old_levels = self.ladder().levels;
        self.bid = nb;
        self.ask = na;
        self.book[p].push_back(Order { size: rec.size, id: rec.id });
        assert(self.ladder().levels =~= old_levels.update(p as int, old_levels[p as int].push(order_of(rec))));
        Ok(())
    }
    /// Removes every order with id `id` from the level of `price`, wherever
    /// it stands, then settles the frontiers at that level.
    pub fn done(&mut self, price: u64, id: u128) -> (r: Result<(), Error>)
        requires
            old(self).wf(),
        ensures
            final(self).wf(),
            final(self).last_match_spec() == old(self).last_match_spec(),
            price >= MAX_SIZE ==> r == Err::<(), Error>(Error::Range) && final(self).ladder() == old(self).ladder(),
            price < MAX_SIZE ==> r is Ok && final(self).ladder() == done_spec(old(self).ladder(), price as int, id),
    {
        let p = self.get_idx(price)?;
        let ghost l0 = self.ladder();
        let ghost q0 = l0.levels[p as int];
        let n = self.book[p].len();
        let mut kept: VecDeque<Order> = VecDeque::new();
        let mut i: usize = 0;
        while i < n
            invariant
                i <= n,
                n == q0.len(),
                p < MAX_SIZE,
                self.ladder() == l0,
                self.book@.len() == MAX_SIZE,
                q0 == self.book@[p as int]@,
                kept@ == q0.subrange(0, i as int).filter(keeps(id)),
            decreases n - i,
        {
            let o = self.book[p][i];
            assert(q0.subrange(0, i as int + 1).drop_last() =~= q0.subrange(0, i as int));
            assert(q0.subrange(0, i as int + 1).last() == o);
            proof {
                reveal(Seq::filter);
            }
            if o.id != id {
                kept.push_back(o);
            }
            i += 1;
        }
        assert(q0.subrange(0, n as int) =~= q0);
        self.book[p] = kept;
        let ghost q1 = q0.filter(keeps(id));
        assert(self.ladder().levels =~= l0.levels.update(p as int, q1));
        proof {
            lemma_settle_wf(Ladder { levels: l0.levels.update(p as int, q1), bid: l0.bid, ask: l0.ask }, p as int);
        }
        self.check_ask_bid(p);
        Ok(())
    }

    /// Sets the size of the orders with id `id` at the level of `price`,
    /// keeping their place; a new size of zero removes them.
    pub fn change(&mut self, price: u64, new_size: i64, id: u128) -> (r: Result<(), Error>)
        requires
            old(self).wf(),
        ensures
            final(self).wf(),
            final(self).last_match_spec() == old(self).last_match_spec(),
            price >= MAX_SIZE ==> r == Err::<(), Error>(Error::Range) && final(self).ladder() == old(self).ladder(),
            price < MAX_SIZE ==> r is Ok && final(self).ladder() == change_spec(old(self).ladder(), price as int, new_size, id),
    {
        let p = self.get_idx(price)?;
        if new_size == 0 {
            return self.done(price, id);
        }
        let ghost l0 = self.ladder();
        let ghost q0 = l0.levels[p as int];
        let n = self.book[p].len();
        let mut out: VecDeque<Order> = VecDeque::new();
        let mut i: usize = 0;
        while i < n
            invariant
                i <= n,
                n == q0.len(),
                p < MAX_SIZE,
                self.ladder() == l0,
                self.book@.len() == MAX_SIZE,
                q0 == self.book@[p as int]@,
                out@.len() == i,
                forall|k: int| 0 <= k < i ==> #[trigger] out@[k] == amend_one(q0[k], new_size, id),
            decreases n - i,
        {
            let o = self.book[p][i];
            if o.id == id {
                out.push_back(Order { size: new_size, id: o.id });
            } else {
                out.push_back(o);
            }
            i += 1;
        }
        self.book[p] = out;
        assert(self.ladder().levels[p as int] =~= q0.map_values(|o: Order| amend_one(o, new_size, id)));
        assert(self.ladder().levels =~= change_spec(l0, p as int, new_size, id).levels);
        Ok(())
    }

    /// Matches `size` against the front order of the level of `price`, which
    /// must carry id `id`. The front order leaves once what remains of it
    /// rounds to zero at three decimals; the level becomes the last match.
    pub fn match_order(&mut self, price: u64, size: i64, id: u128) -> (r: Result<(), Error>)
        requires
            old(self).wf(),
        ensures
            final(self).wf(),
            price >= MAX_SIZE ==> r == Err::<(), Error>(Error::Range) && *final(self) == *old(self),
            price < MAX_SIZE ==> match match_spec(old(self).ladder(), price as int, size, id) {
                Ok(l) => r is Ok && final(self).ladder() == l && final(self).last_match_spec() == Some(price as usize),
                Err(e) => r == Err::<(), Error>(e) && *final(self) == *old(self),
            },
    {
        let p = self.get_idx(price)?;
        let ghost l0 = self.ladder();
        let ghost q0 = l0.levels[p as int];
        if self.book[p].len() == 0 || self.book[p][0].id != id {
            return Err(Error::MatchUuid);
        }
        let front = self.book[p][0];
        let rest: i128 = front.size as i128 - size as i128;
        if rest < i64::MIN as i128 || rest > i64::MAX as i128 {
            return Err(Error::Range);
        }
        self.book[p].pop_front();
        if -(HALF_TICK as i128) < rest && rest < HALF_TICK as i128 {
            let ghost q1 = q0.subrange(1, q0.len() as int);
            assert(self.ladder().levels =~= l0.levels.update(p as int, q1));
            proof {
                lemma_settle_wf(Ladder { levels: l0.levels.update(p as int, q1), bid: l0.bid, ask: l0.ask }, p as int);
            }
            self.check_ask_bid(p);
        } else {
            self.book[p].push_front(Order { size: rest as i64, id });
            assert(self.book@[p as int]@ =~= q0.update(0, Order { size: rest as i64, id }));
            assert(self.ladder().levels =~= l0.levels.update(p as int, q0.update(0, Order { size: rest as i64, id })));
        }
        self.last = Some(p);
        Ok(())
    }

    /// The total remaining size of one level.
    fn level_total(q: &VecDeque<Order>) -> (r: i128)
        ensures
            r == level_sum(q@),
    {
        let n = q.len();
        let mut s: i128 = 0;
        let mut i: usize = 0;
        while i < n
            invariant
                i <= n,
                n == q@.len(),
                s == level_sum(q@.subrange(0, i as int)),
            decreases n - i,
        {
            proof {
                lemma_level_sum_bound(q@.subrange(0, i as int));
                let c: int = 0x8000_0000_0000_0000;
                assert(i + 1 <= 0xFFFF_FFFF_FFFF_FFFF);
                assert((i as int + 1) * c <= 0xFFFF_FFFF_FFFF_FFFF * c) by (nonlinear_arith)
                    requires i as int + 1 <= 0xFFFF_FFFF_FFFF_FFFF, c > 0;
                assert(q@.subrange(0, i as int + 1).drop_last() =~= q@.subrange(0, i as int));
            }
            s = s + q[i].size as i128;
            i += 1;
        }
        assert(q@.subrange(0, n as int) =~= q@);
        s
    }

    /// The total size at level `j`; zero off the ladder.
    fn depth(&self, j: i128) -> (r: i128)
        requires
            self.book@.len() == MAX_SIZE,
        ensures
            r == depth_at(self.ladder().levels, j as int),
    {
        if 0 <= j && j < MAX_SIZE as i128 {
            Self::level_total(&self.book[j as usize])
        } else {
            0
        }
    }

    /// Sizes of the `sz` levels that end at the best bid, lowest first
    /// (empty levels count zero); nothing when there is no bid.
    pub fn bids(&self, sz: usize) -> (r: Vec<i128>)
        requires
            self.wf(),
        ensures
            r@.len() == bid_window(self.ladder(), sz as nat).len(),
            forall|k: int| 0 <= k < r@.len() ==> r@[k] as int == #[trigger] bid_window(self.ladder(), sz as nat)[k],
    {
        let mut out: Vec<i128> = Vec::new();
        if let Some(b) = self.bid {
            let mut k: usize = 0;
            while k < sz
                invariant
                    self.wf(),
                    self.bid == Some(b),
                    k <= sz,
                    out@.len() == k,
                    forall|i: int| 0 <= i < k ==> out@[i] as int == #[trigger] bid_window(self.ladder(), sz as nat)[i],
                decreases sz - k,
            {
                let j: i128 = b as i128 + 1 + k as i128 - sz as i128;
                out.push(self.depth(j));
                k += 1;
            }
        }
        out
    }

    /// Sizes of the `sz` levels that start at the best ask, lowest first
    /// (empty levels count zero); nothing when there is no ask.
    pub fn asks(&self, sz: usize) -> (r: Vec<i128>)
        requires
            self.wf(),
        ensures
            r@.len() == ask_window(self.ladder(), sz as nat).len(),
            forall|k: int| 0 <= k < r@.len() ==> r@[k] as int == #[trigger] ask_window(self.ladder(), sz as nat)[k],
    {
        let mut out: Vec<i128> = Vec::new();
        if let Some(a) = self.ask {
            let mut k: usize = 0;
            while k < sz
                invariant
                    self.wf(),
                    self.ask == Some(a),
                    k <= sz,
                    out@.len() == k,
                    forall|i: int| 0 <= i < k ==> out@[i] as int == #[trigger] ask_window(self.ladder(), sz as nat)[i],
                decreases sz - k,
            {
                let j: i128 = a as i128 + k as i128;
                out.push(self.depth(j));
                k += 1;
            }
        }
        out
    }

    /// Replaces the whole ladder: every level is cleared and both frontiers
    /// reset, then every bid and after them every ask is opened in order.
    /// A record priced off the ladder is skipped; one that would cross the
    /// book stops the reload with `BidLessAsk`.
    pub fn reload(&mut self, bids: Vec<BookRecord>, asks: Vec<BookRecord>) -> (r: Result<(), Error>)
        requires
            old(self).wf(),
        ensures
            final(self).wf(),
            final(self).last_match_spec() == old(self).last_match_spec(),
            final(self).ladder() == reload_spec(bids@, asks@).0,
            r == (match reload_spec(bids@, asks@).1 { Some(e) => Err::<(), Error>(e), None => Ok(()) }),
            r is Err ==> r == Err::<(), Error>(Error::BidLessAsk),
    {
        proof {
            lemma_open_all_error(Ladder::empty(), Side::Buy, bids@);
            lemma_open_all_error(open_all(Ladder::empty(), Side::Buy, bids@).0, Side::Sell, asks@);
        }
        let ghost last0 = self.last;
        self.bid = None;
        self.ask = None;
        let mut i: usize = 0;
        while i < MAX_SIZE
            invariant
                i <= MAX_SIZE,
                self.book@.len() == MAX_SIZE,
                self.bid is None,
                self.ask is None,
                self.last == last0,
                forall|k: int| 0 <= k < i ==> (#[trigger] self.book@[k])@.len() == 0,
            decreases MAX_SIZE - i,
        {
            self.book[i] = VecDeque::new();
            i += 1;
        }
        assert forall|k: int| 0 <= k < MAX_SIZE implies self.ladder().levels[k] =~= Seq::<Order>::empty() by {
            assert(self.book@[k]@.len() == 0);
        }
        assert(self.ladder().levels =~= Ladder::empty().levels);
        let ghost empty = self.ladder();
        let mut i: usize = 0;
        while i < bids.len()
            invariant
                i <= bids@.len(),
                self.wf(),
                self.last == last0,
                old(self).last == last0,
                empty == Ladder::empty(),
                open_all(empty, Side::Buy, bids@.subrange(0, i as int)) == (self.ladder(), None::<Error>),
            decreases bids@.len() - i,
        {
            assert(bids@.subrange(0, i as int + 1).drop_last() =~= bids@.subrange(0, i as int));
            let res = self.open(Side::Buy, bids[i]);
            match res {
                Ok(()) => {},
                Err(Error::Range) => {},
                Err(e) => {
                    proof { lemma_open_all_stops(empty, Side::Buy, bids@, i as int + 1); }
                    return Err(e);
                },
            }
            i += 1;
        }
        assert(bids@.subrange(0, bids@.len() as int) =~= bids@);
        let ghost mid = self.ladder();
        let mut i: usize = 0;
        while i < asks.len()
            invariant
                i <= asks@.len(),
                self.wf(),
                self.last == last0,
                old(self).last == last0,
                open_all(Ladder::empty(), Side::Buy, bids@) == (mid, None::<Error>),
                open_all(mid, Side::Sell, asks@.subrange(0, i as int)) == (self.ladder(), None::<Error>),
            decreases asks@.len() - i,
        {
            assert(asks@.subrange(0, i as int + 1).drop_last() =~= asks@.subrange(0, i as int));
            let res = self.open(Side::Sell, asks[i]);
            match res {
                Ok(()) => {},
                Err(Error::Range) => {},
                Err(e) => {
                    proof { lemma_open_all_stops(mid, Side::Sell, asks@, i as int + 1); }
                    return Err(e);
                },
            }
            i += 1;
        }
        assert(asks@.subrange(0, asks@.len() as int) =~= asks@);
        Ok(())
    }

    /// Places a probe order of size 0.001 with the nil id.
    pub fn open_test(&mut self, side: Side, price: u64) -> (r: Result<(), Error>)
        requires
            old(self).wf(),
        ensures
            final(self).wf(),
            final(self).last_match_spec() == old(self).last_match_spec(),
            match open_spec(old(self).ladder(), side, BookRecord { price, size: TEST_SIZE, id: 0 }) {
                Ok(l) => r is Ok && final(self).ladder() == l,
                Err(e) => r == Err::<(), Error>(e) && final(self).ladder() == old(self).ladder(),
            },
    {
        let id = nil_id();
        self.open(side, BookRecord { price, size: TEST_SIZE, id })
    }

    /// Removes the probe orders at `price`.
    pub fn done_test(&mut self, price: u64) -> (r: Result<(), Error>)
        requires
            old(self).wf(),
        ensures
            final(self).wf(),
            final(self).last_match_spec() == old(self).last_match_spec(),
            price >= MAX_SIZE ==> r == Err::<(), Error>(Error::Range) && final(self).ladder() == old(self).ladder(),
            price < MAX_SIZE ==> r is Ok && final(self).ladder() == done_spec(old(self).ladder(), price as int, 0),
    {
        let id = nil_id();
        self.done(price, id)
    }

    /// Checks that a probe order stands at the frontier of `side` at `price`,
    /// by matching 0.001 against it.
    pub fn test_order(&mut self, side: Side, price: u64) -> (r: Result<(), Error>)
        requires
            old(self).wf(),
        ensures
            final(self).wf(),
            price >= MAX_SIZE ==> r == Err::<(), Error>(Error::Range) && *final(self) == *old(self),
            price < MAX_SIZE && (if side == Side::Buy { old(self).ladder().bid } else { old(self).ladder().ask }) != Some(price as usize)
                ==> r == Err::<(), Error>(Error::TestFail) && *final(self) == *old(self),
            price < MAX_SIZE && (if side == Side::Buy { old(self).ladder().bid } else { old(self).ladder().ask }) == Some(price as usize)
                ==> match match_spec(old(self).ladder(), price as int, TEST_SIZE, 0) {
                    Ok(l) => r is Ok && final(self).ladder() == l && final(self).last_match_spec() == Some(price as usize),
                    Err(e) => r == Err::<(), Error>(e) && *final(self) == *old(self),
                },
    {
        let frontier = match side {
            Side::Buy => self.bid,
            Side::Sell => self.ask,
        };
        let p = self.get_idx(price)?;
        if frontier == Some(p) {
            let id = nil_id();
            self.match_order(price, TEST_SIZE, id)
        } else {
            Err(Error::TestFail)
        }
    }
}

/// A well-formed ladder never crosses: when both frontiers are present, the
/// best bid lies strictly below the best ask.
pub proof fn lemma_never_crossed(l: Ladder)
    requires
        l.wf(),
    ensures
        l.bid is Some && l.ask is Some ==> l.bid.unwrap() < l.ask.unwrap(),
{
}

/// Removing the last orders of the best-bid level `b` moves the bid down to
/// the next level `a` that holds orders, skipping the emptied level, and
/// leaves the ask and every level above `b` as they were.
pub proof fn lemma_done_moves_bid(l: Ladder, a: int, b: int, id: u128)
    requires
        l.wf(),
        0 <= a < b < MAX_SIZE,
        l.bid == Some(b as usize),
        l.levels[a].len() > 0,
        forall|k: int| a < k < b ==> #[trigger] l.levels[k].len() == 0,
        l.levels[b].filter(keeps(id)).len() == 0,
    ensures
        done_spec(l, b, id).bid == Some(a as usize),
        done_spec(l, b, id).ask == l.ask,
        forall|c: int| b < c < MAX_SIZE ==> #[trigger] done_spec(l, b, id).levels[c] == l.levels[c],
        done_spec(l, b, id).wf(),
{
    let q = l.levels[b].filter(keeps(id));
    let m = Ladder { levels: l.levels.update(b, q), bid: l.bid, ask: l.ask };
    lemma_below(m.levels, b);
    lemma_settle_wf(m, b);
    assert(m.levels[a] == l.levels[a]);
    match below(m.levels, b) {
        Some(j) => {
            if j < a {
                assert(m.levels[a].len() == 0);
            } else if j > a {
                assert(m.levels[j as int] == l.levels[j as int]);
            }
        },
        None => {
            assert(m.levels[a].len() == 0);
        },
    }
}

/// The only refusal that stops a reload is a crossed book.
pub proof fn lemma_open_all_error(l: Ladder, side: Side, recs: Seq<BookRecord>)
    ensures
        open_all(l, side, recs).1 is Some ==> open_all(l, side, recs).1 == Some(Error::BidLessAsk),
    decreases recs.len(),
{
    if recs.len() > 0 {
        lemma_open_all_error(l, side, recs.drop_last());
    }
}

/// Once a record is refused, the records after it change nothing.
pub proof fn lemma_open_all_stops(l: Ladder, side: Side, recs: Seq<BookRecord>, i: int)
    requires
        0 < i <= recs.len(),
        open_all(l, side, recs.subrange(0, i)).1 is Some,
    ensures
        open_all(l, side, recs) == open_all(l, side, recs.subrange(0, i)),
    decreases recs.len() - i,
{
    if i < recs.len() {
        assert(recs.subrange(0, i + 1).drop_last() =~= recs.subrange(0, i));
        lemma_open_all_stops(l, side, recs, i + 1);
    } else {
        assert(recs.subrange(0, i) =~= recs);
    }
}

} // verus!
