//! The one-line text of a book: twenty levels of depth on each side around
//! the spread, prices with two decimals and sizes rounded to three.
use vstd::prelude::*;

use super::ob::{ask_window, bid_window, reload_spec, Ladder, OrderBook};
use super::BookRecord;

verus! {

/// Levels shown on each side.
pub const WINDOW: usize = 20;

pub open spec fn digit(d: int) -> char {
    seq!['0', '1', '2', '3', '4', '5', '6', '7', '8', '9'][d]
}

/// Decimal digits of `n`, most significant first, without leading zeros.
pub open spec fn nat_text(n: nat) -> Seq<char>
    decreases n,
{
    if n < 10 {
        seq![digit(n as int)]
    } else {
        nat_text(n / 10).push(digit((n % 10) as int))
    }
}

/// A price in cents with exactly two decimals.
pub open spec fn price_text(p: nat) -> Seq<char> {
    nat_text(p / 100) + seq!['.', digit(((p / 10) % 10) as int), digit((p % 10) as int)]
}

/// A magnitude in units of `1e-8`, in thousandths, rounded half up.
pub open spec fn thousandths(m: nat) -> nat {
    m / 100_000 + if m % 100_000 >= 50_000 { 1nat } else { 0nat }
}

/// The decimals of a number of thousandths below one, without trailing zeros.
pub open spec fn frac_text(f: nat) -> Seq<char> {
    if f == 0 {
        Seq::empty()
    } else if f % 100 == 0 {
        seq!['.', digit((f / 100) as int)]
    } else if f % 10 == 0 {
        seq!['.', digit((f / 100) as int), digit(((f / 10) % 10) as int)]
    } else {
        seq!['.', digit((f / 100) as int), digit(((f / 10) % 10) as int), digit((f % 10) as int)]
    }
}

pub open spec fn abs(x: int) -> nat {
    if x < 0 { (-x) as nat } else { x as nat }
}

/// A size in units of `1e-8`, rounded to three decimals (halves away from
/// zero), trailing zeros dropped; a minus sign only where the rounded value
/// is not zero.
pub open spec fn qty_text(x: int) -> Seq<char> {
    let k = thousandths(abs(x));
    let sign = if x < 0 && k > 0 { seq!['-'] } else { Seq::empty() };
    sign + nat_text(k / 1000) + frac_text(k % 1000)
}

/// Sizes separated by commas.
pub open spec fn csv(xs: Seq<int>) -> Seq<char>
    decreases xs.len(),
{
    if xs.len() == 0 {
        Seq::empty()
    } else if xs.len() == 1 {
        qty_text(xs[0])
    } else {
        csv(xs.drop_last()) + seq![','] + qty_text(xs.last())
    }
}

pub open spec fn empty_text() -> Seq<char> {
    seq!['O', 'B', ':', ' ', 'e', 'm', 'p', 't', 'y']
}

/// `OB: <bids> | <bid>   <ask> | <asks>`, or `OB: empty` without a bid
/// or without an ask.
pub open spec fn render_ladder(l: Ladder) -> Seq<char> {
    match (l.bid, l.ask) {
        (Some(b), Some(a)) => seq!['O', 'B', ':', ' '] + csv(bid_window(l, WINDOW as nat)) + seq![' ', '|', ' ']
            + price_text(b as nat) + seq![' ', ' ', ' '] + price_text(a as nat) + seq![' ', '|', ' ']
            + csv(ask_window(l, WINDOW as nat)),
        _ => empty_text(),
    }
}

/// Reloading twice with the same snapshot renders the same text both times:
/// what a reload leaves depends on the snapshot alone, not on the book it
/// replaced.
pub proof fn lemma_reload_idempotent(first: OrderBook, second: OrderBook, bids: Seq<BookRecord>, asks: Seq<BookRecord>)
    requires
        first.ladder() == reload_spec(bids, asks).0,
        second.ladder() == reload_spec(bids, asks).0,
    ensures
        render_ladder(first.ladder()) == render_ladder(second.ladder()),
{
}

/// A rendered size is the nearest number of thousandths: it lies within
/// half a thousandth of the size, with at most three decimals; a price has
/// exactly two decimals.
pub proof fn lemma_rendering_precision(x: int, p: nat)
    ensures
        thousandths(abs(x)) * 100_000 - 50_000 <= abs(x) < thousandths(abs(x)) * 100_000 + 50_000,
        frac_text(thousandths(abs(x)) % 1000).len() <= 4,
        price_text(p).len() >= 4,
        price_text(p)[price_text(p).len() - 3] == '.',
{
    let m = abs(x);
    assert(m == (m / 100_000) * 100_000 + m % 100_000);
    lemma_nat_text_nonempty(p / 100);
}

proof fn lemma_nat_text_nonempty(n: nat)
    ensures
        nat_text(n).len() >= 1,
    decreases n,
{
    if n >= 10 {
        lemma_nat_text_nonempty(n / 10);
    }
}

fn digit_of(d: u128) -> (c: char)
    requires
        d < 10,
    ensures
        c == digit(d as int),
{
    if d == 0 {
        '0'
    } else if d == 1 {
        '1'
    } else if d == 2 {
        '2'
    } else if d == 3 {
        '3'
    } else if d == 4 {
        '4'
    } else if d == 5 {
        '5'
    } else if d == 6 {
        '6'
    } else if d == 7 {
        '7'
    } else if d == 8 {
        '8'
    } else {
        '9'
    }
}

fn push_nat(out: &mut Vec<char>, n: u128)
    ensures
        final(out)@ == old(out)@ + nat_text(n as nat),
    decreases n,
{
    if n < 10 {
        out.push(digit_of(n));
    } else {
        push_nat(out, n / 10);
        out.push(digit_of(n % 10));
        assert(final(out)@ =~= old(out)@ + nat_text(n as nat));
    }
}

fn push_all(out: &mut Vec<char>, s: &Vec<char>)
    ensures
        final(out)@ == old(out)@ + s@,
{
    let mut i: usize = 0;
    while i < s.len()
        invariant
            i <= s@.len(),
            out@ == old(out)@ + s@.subrange(0, i as int),
        decreases s@.len() - i,
    {
        out.push(s[i]);
        i += 1;
        assert(out@ =~= old(out)@ + s@.subrange(0, i as int));
    }
    assert(s@.subrange(0, s@.len() as int) =~= s@);
}

fn push_price(out: &mut Vec<char>, p: u64)
    ensures
        final(out)@ == old(out)@ + price_text(p as nat),
{
    let p = p as u128;
    push_nat(out, p / 100);
    let mut tail: Vec<char> = Vec::new();
    tail.push('.');
    tail.push(digit_of((p / 10) % 10));
    tail.push(digit_of(p % 10));
    push_all(out, &tail);
    assert(final(out)@ =~= old(out)@ + price_text(p as nat));
}

fn push_qty(out: &mut Vec<char>, x: i128)
    ensures
        final(out)@ == old(out)@ + qty_text(x as int),
{
    let m: u128 = if x < 0 { (-(x + 1)) as u128 + 1 } else { x as u128 };
    assert(m as nat == abs(x as int));
    let k: u128 = m / 100_000 + if m % 100_000 >= 50_000 { 1 } else { 0 };
    assert(k as nat == thousandths(m as nat));
    let mut head: Vec<char> = Vec::new();
    if x < 0 && k > 0 {
        head.push('-');
    }
    push_nat(&mut head, k / 1000);
    let f = k % 1000;
    if f != 0 {
        head.push('.');
        head.push(digit_of(f / 100));
        if f % 100 != 0 {
            head.push(digit_of((f / 10) % 10));
            if f % 10 != 0 {
                head.push(digit_of(f % 10));
            }
        }
    }
    assert(head@ =~= qty_text(x as int));
    push_all(out, &head);
}

/// The sizes as integers.
pub open spec fn ints(xs: Seq<i128>) -> Seq<int> {
    xs.map_values(|v: i128| v as int)
}

fn push_csv(out: &mut Vec<char>, xs: &Vec<i128>)
    ensures
        final(out)@ == old(out)@ + csv(ints(xs@)),
{
    let mut i: usize = 0;
    while i < xs.len()
        invariant
            i <= xs@.len(),
            out@ == old(out)@ + csv(ints(xs@.subrange(0, i as int))),
        decreases xs@.len() - i,
    {
        let ghost before = out@;
        assert(ints(xs@.subrange(0, i as int + 1)).drop_last() =~= ints(xs@.subrange(0, i as int)));
        if i > 0 {
            out.push(',');
        }
        push_qty(out, xs[i]);
        i += 1;
        assert(out@ =~= old(out)@ + csv(ints(xs@.subrange(0, i as int))));
    }
    assert(xs@.subrange(0, xs@.len() as int) =~= xs@);
}

/// Relies on std's `FromIterator<char>` for `String`: the characters in order.
#[verifier::external_body]
fn collect_chars(v: Vec<char>) -> (r: String)
    ensures
        r@ == v@,
{
    v.into_iter().collect()
}

impl OrderBook {
    /// The one-line text of the book.
    pub fn to_string(&self) -> (r: String)
        requires
            self.wf(),
        ensures
            r@ == render_ladder(self.ladder()),
    {
        let mut out: Vec<char> = Vec::new();
        match (self.bid(), self.ask()) {
            (Some(b), Some(a)) => {
                out.push('O');
                out.push('B');
                out.push(':');
                out.push(' ');
                let bids = self.bids(WINDOW);
                assert(ints(bids@) =~= bid_window(self.ladder(), WINDOW as nat));
                push_csv(&mut out, &bids);
                out.push(' ');
                out.push('|');
                out.push(' ');
                push_price(&mut out, b);
                out.push(' ');
                out.push(' ');
                out.push(' ');
                push_price(&mut out, a);
                out.push(' ');
                out.push('|');
                out.push(' ');
                let asks = self.asks(WINDOW);
                assert(ints(asks@) =~= ask_window(self.ladder(), WINDOW as nat));
                push_csv(&mut out, &asks);
                assert(out@ =~= render_ladder(self.ladder()));
            },
            _ => {
                out.push('O');
                out.push('B');
                out.push(':');
                out.push(' ');
                out.push('e');
                out.push('m');
                out.push('p');
                out.push('t');
                out.push('y');
                assert(out@ =~= empty_text());
            },
        }
        collect_chars(out)
    }
}

} // verus!
