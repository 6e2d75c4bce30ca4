//! Price levels, the books of the exchanges, and the merged book that is
//! published: the ten best bids, the ten best asks and the spread.
use std::cmp::Ordering;
use vstd::prelude::*;

use crate::book_order::{
    ascending, by_level, by_price, comparable, consistent, highest, level_after, level_before,
    lemma_after_asymmetric, lemma_insert_multiset, lemma_not_after_transitive, lemma_reverse_take_highest,
    lemma_take_lowest, lowest, price_after,
};
use crate::decimal::{decimal_checked_sub, difference_is_exact, rounds_into_range, Dec};

verus! {

/// The exchanges whose books are merged.
#[derive(Debug, Clone, Copy, PartialEq, Eq, Structural, PartialOrd, Ord, Hash)]
pub enum Exchange {
    Bitstamp,
    Binance,
}

impl Exchange {
    /// The exchange's name in lower case, as published.
    pub fn to_string(&self) -> (r: String)
        ensures
            r@ == (match self {
                Exchange::Bitstamp => "bitstamp"@,
                Exchange::Binance => "binance"@,
            }),
    {
        match self {
            Exchange::Bitstamp => String::from_str("bitstamp"),
            Exchange::Binance => String::from_str("binance"),
        }
    }
}

/// The side of the book a level belongs to.
#[derive(Debug, Clone, Copy, PartialEq, Eq, Structural, PartialOrd, Ord, Hash)]
pub enum Side {
    Bid,
    Ask,
}

/// One price level of a book: an amount offered at a price on one exchange.
#[derive(Debug, Clone, Copy, PartialEq, Eq)]
pub struct Level {
    pub side: Side,
    pub price: Dec,
    pub amount: Dec,
    pub exchange: Exchange,
}

impl Level {
    pub fn new(side: Side, price: Dec, amount: Dec, exchange: Exchange) -> (r: Level)
        ensures
            r == (Level { side, price, amount, exchange }),
    {
        Level { side, price, amount, exchange }
    }

    /// The order of the book: by price, ascending; at equal prices by amount,
    /// ascending for a bid and descending for an ask (the side of `self` decides).
    pub fn cmp(&self, other: &Level) -> (r: Ordering)
        ensures
            (r == Ordering::Less) == level_before(*self, *other),
            (r == Ordering::Greater) == level_after(*self, *other),
            (r == Ordering::Equal) == (!level_before(*self, *other) && !level_after(*self, *other)),
    {
        match self.price.compare(&other.price) {
            Ordering::Equal => match self.side {
                Side::Bid => self.amount.compare(&other.amount),
                Side::Ask => other.amount.compare(&self.amount),
            },
            Ordering::Less => Ordering::Less,
            Ordering::Greater => Ordering::Greater,
        }
    }

    /// The same order as `cmp`: decimals are totally ordered, so there is
    /// always an answer.
    pub fn partial_cmp(&self, other: &Level) -> (r: Option<Ordering>)
        ensures
            r is Some,
            (r == Some(Ordering::Less)) == level_before(*self, *other),
            (r == Some(Ordering::Greater)) == level_after(*self, *other),
    {
        Some(self.cmp(other))
    }

    /// Whether `self` comes after `other` in the order of the book.
    fn is_after(&self, other: &Level) -> (r: bool)
        ensures
            r == level_after(*self, *other),
            r ==> price_after(*self, *other) || self.price@ == other.price@,
            !r ==> !price_after(*self, *other),
    {
        match self.cmp(other) {
            Ordering::Greater => true,
            _ => false,
        }
    }
}

/// The levels one exchange reports for a book.
#[derive(Debug, PartialEq)]
pub struct InputData {
    pub exchange: Exchange,
    pub bids: Vec<Level>,
    pub asks: Vec<Level>,
}

impl InputData {
    /// The bids and the asks.
    pub open spec fn book(&self) -> (Seq<Level>, Seq<Level>) {
        (self.bids@, self.asks@)
    }

    /// The exchange, the bids and the asks.
    pub open spec fn parts(&self) -> (Exchange, Seq<Level>, Seq<Level>) {
        (self.exchange, self.bids@, self.asks@)
    }
}

/// Something that an exchange reports and that may hold a book.
pub trait ToTick {
    fn option_intick(&self) -> Option<InputData>;
}

/// What is published: the spread and the best bids and asks of all exchanges.
#[derive(Debug, PartialEq, Clone)]
pub struct OutputData {
    pub spread: Dec,
    pub bids: Vec<Level>,
    pub asks: Vec<Level>,
}

impl OutputData {
    /// An empty book with a spread of zero.
    pub fn new() -> (r: OutputData)
        ensures
            r.spread.parts() == (0int, 0int),
            r.spread@ == 0,
            r.bids@ == Seq::<Level>::empty(),
            r.asks@ == Seq::<Level>::empty(),
    {
        OutputData { spread: Dec::zero(), bids: Vec::new(), asks: Vec::new() }
    }
}

/// Something that an exchange reports one level as.
pub trait ToLevel {
    /// The level it stands for on the given side.
    spec fn level_of(&self, side: Side) -> Level;

    fn to_level(&self, side: Side) -> (r: Level)
        ensures
            r == self.level_of(side),
    ;
}

/// Levels as an exchange reports them, best first.
pub trait ToLevels {
    fn to_levels(&self, side: Side, depth: usize) -> Vec<Level>;
}

/// The number of levels that are kept of `len` when `depth` are asked for.
pub open spec fn kept(len: nat, depth: nat) -> int {
    if depth < len {
        depth as int
    } else {
        len as int
    }
}

/// The first `depth` of `s`, in order, as levels of the given side.
pub open spec fn levels_of<T: ToLevel>(s: Seq<T>, side: Side, depth: nat) -> Seq<Level> {
    s.take(kept(s.len(), depth)).map_values(|l: T| l.level_of(side))
}

/// Keeping `depth` levels keeps the first `min(depth, len)` of them, each in
/// its place and given the side.
pub proof fn lemma_levels_of<T: ToLevel>(s: Seq<T>, side: Side, depth: nat)
    ensures
        levels_of(s, side, depth).len() == if depth < s.len() { depth } else { s.len() },
        forall|i: int|
            0 <= i < levels_of(s, side, depth).len() ==> #[trigger] levels_of(s, side, depth)[i]
                == s[i].level_of(side),
{
}

impl<T: ToLevel> ToLevels for Vec<T> {
    /// Keeps the first `depth` levels, in order, as levels of the given side.
    fn to_levels(&self, side: Side, depth: usize) -> (r: Vec<Level>)
        ensures
            r@ == levels_of(self@, side, depth as nat),
    {
        to_levels(self, side, depth)
    }
}

/// The first `depth` levels an exchange reported, in order, as levels of
/// the given side.
pub fn to_levels<T: ToLevel>(levels: &Vec<T>, side: Side, depth: usize) -> (r: Vec<Level>)
    ensures
        r@ == levels_of(levels@, side, depth as nat),
{
    let n = if levels.len() > depth {
        depth
    } else {
        levels.len()
    };
    let mut r: Vec<Level> = Vec::new();
    let mut i: usize = 0;
    while i < n
        invariant
            n == kept(levels@.len(), depth as nat),
            i <= n,
            r@ == levels@.take(i as int).map_values(|l: T| l.level_of(side)),
        decreases n - i,
    {
        r.push(levels[i].to_level(side));
        assert(levels@.take(i + 1) =~= levels@.take(i as int).push(levels@[i as int]));
        i = i + 1;
    }
    r
}

/// A copy of a list of levels.
fn copy_levels(v: &Vec<Level>) -> (r: Vec<Level>)
    ensures
        r@ == v@,
{
    let mut r: Vec<Level> = Vec::new();
    let mut i: usize = 0;
    while i < v.len()
        invariant
            i <= v.len(),
            r@ == v@.take(i as int),
        decreases v.len() - i,
    {
        r.push(v[i]);
        assert(v@.take(i + 1) =~= v@.take(i as int).push(v@[i as int]));
        i = i + 1;
    }
    assert(v@.take(v@.len() as int) =~= v@);
    r
}

/// Inserts `x` before the first level that comes after it, which keeps a
/// sorted list sorted.
fn insert_in_order(r: &mut Vec<Level>, x: Level) -> (p: usize)
    ensures
        p <= old(r)@.len(),
        final(r)@ == old(r)@.insert(p as int, x),
        ascending(old(r)@, by_price()) ==> ascending(final(r)@, by_price()),
        ascending(old(r)@, by_level()) && consistent(old(r)@.push(x)) ==> ascending(
            final(r)@,
            by_level(),
        ),
{
    let ghost s = r@;
    let mut k: usize = 0;
    while k < r.len() && !r[k].is_after(&x)
        invariant
            r@ == s,
            k <= r@.len(),
            forall|i: int| 0 <= i < k ==> !level_after(#[trigger] s[i], x),
            forall|i: int| 0 <= i < k ==> !price_after(#[trigger] s[i], x),
        decreases r@.len() - k,
    {
        k = k + 1;
    }
    let ghost t = s.insert(k as int, x);
    proof {
        if ascending(s, by_price()) {
            assert forall|i: int, j: int| 0 <= i < j < t.len() implies !price_after(
                t[i],
                t[j],
            ) by {
                if j > k {
                    if i == k {
                        assert(price_after(s[k as int], x) || s[k as int].price@ == x.price@);
                        assert(!price_after(s[k as int], s[j - 1]) || k == j - 1);
                    } else if i < k {
                        assert(!price_after(s[i], s[j - 1]));
                    } else {
                        assert(!price_after(s[i - 1], s[j - 1]));
                    }
                } else if j < k {
                    assert(!price_after(s[i], s[j]));
                }
            }
        }
        if ascending(s, by_level()) && consistent(s.push(x)) {
            let sx = s.push(x);
            assert(sx[s.len() as int] == x);
            assert forall|i: int, j: int| 0 <= i < j < t.len() implies !level_after(
                t[i],
                t[j],
            ) by {
                if j > k {
                    if i == k {
                        assert(sx[k as int] == s[k as int]);
                        assert(sx[j - 1] == s[j - 1]);
                        assert(comparable(s[k as int], x));
                        lemma_after_asymmetric(s[k as int], x);
                        if k < j - 1 {
                            assert(!level_after(s[k as int], s[j - 1]));
                            assert(comparable(x, s[k as int]));
                            assert(comparable(s[k as int], s[j - 1]));
                            assert(comparable(x, s[j - 1]));
                            lemma_not_after_transitive(x, s[k as int], s[j - 1]);
                        }
                    } else if i < k {
                        assert(!level_after(s[i], s[j - 1]));
                    } else {
                        assert(!level_after(s[i - 1], s[j - 1]));
                    }
                } else if j < k {
                    assert(!level_after(s[i], s[j]));
                }
            }
        }
    }
    r.insert(k, x);
    k
}

/// The levels of both lists, sorted by the order of the book.
pub fn merge(levels: Vec<Level>, other: Vec<Level>) -> (r: Vec<Level>)
    ensures
        r@.to_multiset() == (levels@ + other@).to_multiset(),
        ascending(r@, by_price()),
        consistent(levels@ + other@) ==> ascending(r@, by_level()),
{
    let mut all = levels;
    let mut rest = other;
    all.append(&mut rest);
    let ghost pool = all@;
    let mut r: Vec<Level> = Vec::new();
    let mut i: usize = 0;
    proof {
        assert(pool.take(0) =~= Seq::<Level>::empty());
        assert(r@ =~= Seq::<Level>::empty());
    }
    while i < all.len()
        invariant
            all@ == pool,
            i <= pool.len(),
            r@.to_multiset() == pool.take(i as int).to_multiset(),
            forall|e: Level| r@.contains(e) ==> pool.contains(e),
            ascending(r@, by_price()),
            consistent(pool) ==> ascending(r@, by_level()),
        decreases pool.len() - i,
    {
        let x = all[i];
        let ghost before = r@;
        proof {
            if consistent(pool) {
                assert forall|a: Level, b: Level|
                    before.push(x).contains(a) && before.push(x).contains(b) implies #[trigger] comparable(
                    a,
                    b,
                ) by {
                    let ia = choose|ia: int| 0 <= ia < before.push(x).len() && before.push(x)[ia] == a;
                    let ib = choose|ib: int| 0 <= ib < before.push(x).len() && before.push(x)[ib] == b;
                    if ia < before.len() {
                        assert(before.contains(a));
                    } else {
                        assert(a == pool[i as int]);
                    }
                    if ib < before.len() {
                        assert(before.contains(b));
                    } else {
                        assert(b == pool[i as int]);
                    }
                }
            }
        }
        let p = insert_in_order(&mut r, x);
        proof {
            lemma_insert_multiset(before, p as int, x);
            assert(pool.take(i + 1) =~= pool.take(i as int).push(x));
            vstd::seq_lib::to_multiset_build(pool.take(i as int), x);
            assert forall|e: Level| r@.contains(e) implies pool.contains(e) by {
                let ie = choose|ie: int| 0 <= ie < r@.len() && r@[ie] == e;
                if ie < p {
                    assert(before[ie] == e);
                } else if ie > p {
                    assert(before[ie - 1] == e);
                } else {
                    assert(pool[i as int] == e);
                }
            }
        }
        i = i + 1;
    }
    assert(pool.take(pool.len() as int) =~= pool);
    r
}

/// The last `depth` levels of a list, last first.
fn last_first(v: &Vec<Level>, depth: usize) -> (r: Vec<Level>)
    ensures
        r@ == v@.reverse().take(kept(v@.len(), depth as nat)),
{
    let n = if v.len() > depth {
        depth
    } else {
        v.len()
    };
    let mut r: Vec<Level> = Vec::new();
    let mut i: usize = 0;
    while i < n
        invariant
            n == kept(v@.len(), depth as nat),
            i <= n,
            r@ == v@.reverse().take(i as int),
        decreases n - i,
    {
        r.push(v[v.len() - 1 - i]);
        assert(v@.reverse().take(i + 1) =~= v@.reverse().take(i as int).push(
            v@[v@.len() - 1 - i],
        ));
        i = i + 1;
    }
    r
}

/// The first `depth` levels of a list.
fn first(v: &Vec<Level>, depth: usize) -> (r: Vec<Level>)
    ensures
        r@ == v@.take(kept(v@.len(), depth as nat)),
{
    let n = if v.len() > depth {
        depth
    } else {
        v.len()
    };
    let mut r: Vec<Level> = Vec::new();
    let mut i: usize = 0;
    while i < n
        invariant
            n == kept(v@.len(), depth as nat),
            i <= n,
            r@ == v@.take(i as int),
        decreases n - i,
    {
        r.push(v[i]);
        assert(v@.take(i + 1) =~= v@.take(i as int).push(v@[i as int]));
        i = i + 1;
    }
    r
}

/// The bids and the asks that one exchange last reported.
#[derive(Debug, PartialEq)]
pub struct OrderDepths {
    pub bids: Vec<Level>,
    pub asks: Vec<Level>,
}

impl OrderDepths {
    /// No bids and no asks.
    pub fn new() -> (r: OrderDepths)
        ensures
            r.bids@ == Seq::<Level>::empty(),
            r.asks@ == Seq::<Level>::empty(),
    {
        OrderDepths { bids: Vec::new(), asks: Vec::new() }
    }
}

/// The book of every exchange.
#[derive(Debug, PartialEq)]
pub struct Exchanges {
    pub bitstamp: OrderDepths,
    pub binance: OrderDepths,
}

impl View for Exchanges {
    /// The bids and the asks of each exchange.
    type V = Map<Exchange, (Seq<Level>, Seq<Level>)>;

    open spec fn view(&self) -> Map<Exchange, (Seq<Level>, Seq<Level>)> {
        map![
            Exchange::Bitstamp => (self.bitstamp.bids@, self.bitstamp.asks@),
            Exchange::Binance => (self.binance.bids@, self.binance.asks@),
        ]
    }
}

/// The bids of all exchanges together.
pub open spec fn bid_pool(books: Map<Exchange, (Seq<Level>, Seq<Level>)>) -> Seq<Level> {
    books[Exchange::Bitstamp].0 + books[Exchange::Binance].0
}

/// The asks of all exchanges together.
pub open spec fn ask_pool(books: Map<Exchange, (Seq<Level>, Seq<Level>)>) -> Seq<Level> {
    books[Exchange::Bitstamp].1 + books[Exchange::Binance].1
}

/// `a` is one of `s` and no level of `s` has a lower price.
pub open spec fn has_lowest_price(s: Seq<Level>, a: Level) -> bool {
    s.contains(a) && forall|b: Level| s.contains(b) ==> a.price@ <= b.price@
}

/// `a` is one of `s` and no level of `s` has a higher price.
pub open spec fn has_highest_price(s: Seq<Level>, a: Level) -> bool {
    s.contains(a) && forall|b: Level| s.contains(b) ==> b.price@ <= a.price@
}

/// The lowest ask price less the highest bid price rounds into
/// rust_decimal's range: rust_decimal can subtract them, and the spread of
/// such books can be computed.
pub open spec fn spread_fits(bids: Seq<Level>, asks: Seq<Level>) -> bool {
    forall|a: Level, b: Level|
        #[trigger] has_lowest_price(asks, a) && #[trigger] has_highest_price(bids, b)
            ==> rounds_into_range(a.price@ - b.price@)
}

/// How many levels of each side are published.
pub const TOP_DEPTH: usize = 10;

impl Exchanges {
    /// Both exchanges with no levels.
    pub open spec fn new_books() -> Map<Exchange, (Seq<Level>, Seq<Level>)> {
        map![
            Exchange::Bitstamp => (Seq::<Level>::empty(), Seq::<Level>::empty()),
            Exchange::Binance => (Seq::<Level>::empty(), Seq::<Level>::empty()),
        ]
    }

    /// No levels on any exchange.
    pub fn new() -> (r: Exchanges)
        ensures
            r@ == Exchanges::new_books(),
    {
        Exchanges { bitstamp: OrderDepths::new(), binance: OrderDepths::new() }
    }

    /// Replaces the book of the exchange that `t` comes from by the bids and
    /// asks of `t`; the other books stay as they were.
    pub fn update(&mut self, t: InputData)
        ensures
            final(self)@ == old(self)@.insert(t.exchange, t.book()),
    {
        match t.exchange {
            Exchange::Bitstamp => {
                self.bitstamp.bids = t.bids;
                self.bitstamp.asks = t.asks;
            },
            Exchange::Binance => {
                self.binance.bids = t.bids;
                self.binance.asks = t.asks;
            },
        }
        proof {
            assert(final(self)@ =~= old(self)@.insert(t.exchange, t.book()));
        }
    }

    /// The merged book: the ten highest bids of all exchanges, highest first,
    /// the ten lowest asks, lowest first, and the lowest ask price less the
    /// highest bid price (zero when a side is empty).
    pub fn to_tick(&self) -> (r: OutputData)
        requires
            spread_fits(bid_pool(self@), ask_pool(self@)),
        ensures
            is_tick_of(r, self@),
    {
        self.try_to_tick().unwrap()
    }

    /// The merged book as `to_tick` computes it, or `None` where the spread
    /// overflows rust_decimal's range, where `to_tick` cannot be called.
    pub fn try_to_tick(&self) -> (r: Option<OutputData>)
        ensures
            match r {
                Some(out) => is_tick_of(out, self@),
                None => !spread_fits(bid_pool(self@), ask_pool(self@)),
            },
    {
        let merged_bids = merge(copy_levels(&self.bitstamp.bids), copy_levels(&self.binance.bids));
        let merged_asks = merge(copy_levels(&self.bitstamp.asks), copy_levels(&self.binance.asks));
        let ghost bids_pool = bid_pool(self@);
        let ghost asks_pool = ask_pool(self@);
        proof {
            assert(bids_pool == self.bitstamp.bids@ + self.binance.bids@);
            assert(asks_pool == self.bitstamp.asks@ + self.binance.asks@);
            lemma_reverse_take_highest(merged_bids@, bids_pool, TOP_DEPTH as nat, by_price());
            lemma_take_lowest(merged_asks@, asks_pool, TOP_DEPTH as nat, by_price());
            if consistent(bids_pool) {
                lemma_reverse_take_highest(merged_bids@, bids_pool, TOP_DEPTH as nat, by_level());
            }
            if consistent(asks_pool) {
                lemma_take_lowest(merged_asks@, asks_pool, TOP_DEPTH as nat, by_level());
            }
        }
        let bids = last_first(&merged_bids, TOP_DEPTH);
        let asks = first(&merged_asks, TOP_DEPTH);
        if bids.len() > 0 && asks.len() > 0 {
            proof {
                lemma_last_has_highest_price(merged_bids@, bids_pool);
                lemma_first_has_lowest_price(merged_asks@, asks_pool);
                assert(bids@[0] == merged_bids@[merged_bids@.len() - 1]);
                assert(asks@[0] == merged_asks@[0]);
                assert(has_lowest_price(asks_pool, asks@[0]));
                assert(has_highest_price(bids_pool, bids@[0]));
            }
            match asks[0].price.checked_sub(&bids[0].price) {
                Some(spread) => Some(OutputData { spread, bids, asks }),
                None => None,
            }
        } else {
            Some(OutputData { spread: Dec::zero(), bids, asks })
        }
    }
}

/// `out` is the merged book of `books`: the ten highest bids of all
/// exchanges, highest first, the ten lowest asks, lowest first, ranked by
/// price and, where the levels are ranked consistently, by the order of the
/// book; and as spread the lowest ask price less the highest bid price, as
/// rust_decimal subtracts (exactly, where the difference fits at the larger
/// scale of the two prices), or zero when a side is empty.
pub open spec fn is_tick_of(out: OutputData, books: Map<Exchange, (Seq<Level>, Seq<Level>)>) -> bool {
    &&& highest(out.bids@, bid_pool(books), TOP_DEPTH as nat, by_price())
    &&& lowest(out.asks@, ask_pool(books), TOP_DEPTH as nat, by_price())
    &&& consistent(bid_pool(books)) ==> highest(out.bids@, bid_pool(books), TOP_DEPTH as nat, by_level())
    &&& consistent(ask_pool(books)) ==> lowest(out.asks@, ask_pool(books), TOP_DEPTH as nat, by_level())
    &&& out.bids@.len() > 0 && out.asks@.len() > 0 ==> decimal_checked_sub(
        out.asks@[0].price.spec_mantissa(),
        out.asks@[0].price.spec_scale(),
        out.bids@[0].price.spec_mantissa(),
        out.bids@[0].price.spec_scale(),
    ) == Some(out.spread.parts())
    &&& out.bids@.len() > 0 && out.asks@.len() > 0 && difference_is_exact(out.asks@[0].price, out.bids@[0].price)
        ==> out.spread@ == out.asks@[0].price@ - out.bids@[0].price@
    &&& !(out.bids@.len() > 0 && out.asks@.len() > 0) ==> out.spread.parts() == (0int, 0int)
}

/// What the merged book is, in plain terms: of the bids of both exchanges
/// together, the ten (or all, when fewer) it publishes are taken from them,
/// highest price first, and no bid left out has a higher price than one
/// taken; of the asks likewise the ten with the lowest prices, lowest first;
/// the spread is the best ask price less the best bid price where that
/// difference is exact at the larger scale, and zero when a side is empty.
pub proof fn lemma_tick_in_plain_terms(out: OutputData, books: Map<Exchange, (Seq<Level>, Seq<Level>)>)
    requires
        is_tick_of(out, books),
    ensures
        ({
            let bids = books[Exchange::Bitstamp].0 + books[Exchange::Binance].0;
            &&& out.bids@.len() == if bids.len() < 10 { bids.len() } else { 10 }
            &&& forall|i: int, j: int|
                0 <= i < j < out.bids@.len() ==> #[trigger] out.bids@[j].price@ <= #[trigger] out.bids@[i].price@
            &&& forall|i: int| 0 <= i < out.bids@.len() ==> bids.contains(#[trigger] out.bids@[i])
            &&& forall|b: Level, i: int|
                #[trigger] bids.contains(b) && !out.bids@.contains(b) && 0 <= i < out.bids@.len() ==> b.price@
                    <= #[trigger] out.bids@[i].price@
        }),
        ({
            let asks = books[Exchange::Bitstamp].1 + books[Exchange::Binance].1;
            &&& out.asks@.len() == if asks.len() < 10 { asks.len() } else { 10 }
            &&& forall|i: int, j: int|
                0 <= i < j < out.asks@.len() ==> #[trigger] out.asks@[i].price@ <= #[trigger] out.asks@[j].price@
            &&& forall|i: int| 0 <= i < out.asks@.len() ==> asks.contains(#[trigger] out.asks@[i])
            &&& forall|a: Level, i: int|
                #[trigger] asks.contains(a) && !out.asks@.contains(a) && 0 <= i < out.asks@.len() ==> #[trigger] out.asks@[i].price@
                    <= a.price@
        }),
        out.bids@.len() > 0 && out.asks@.len() > 0 && difference_is_exact(out.asks@[0].price, out.bids@[0].price)
            ==> out.spread@ == out.asks@[0].price@ - out.bids@[0].price@,
        !(out.bids@.len() > 0 && out.asks@.len() > 0) ==> out.spread.parts() == (0int, 0int),
{
    broadcast use vstd::multiset::group_multiset_axioms;

    let bids = bid_pool(books);
    let asks = ask_pool(books);
    bids.to_multiset_ensures();
    asks.to_multiset_ensures();
    out.bids@.to_multiset_ensures();
    out.asks@.to_multiset_ensures();
    assert forall|i: int, j: int| 0 <= i < j < out.bids@.len() implies #[trigger] out.bids@[j].price@
        <= #[trigger] out.bids@[i].price@ by {
        assert(!price_after(out.bids@[j], out.bids@[i]));
    }
    assert forall|i: int| 0 <= i < out.bids@.len() implies bids.contains(#[trigger] out.bids@[i]) by {
        assert(out.bids@.contains(out.bids@[i]));
        assert(out.bids@.to_multiset().count(out.bids@[i]) > 0);
    }
    assert forall|b: Level, i: int|
        #[trigger] bids.contains(b) && !out.bids@.contains(b) && 0 <= i < out.bids@.len() implies b.price@
            <= #[trigger] out.bids@[i].price@ by {
        assert(out.bids@.to_multiset().count(b) == 0);
        assert(bids.to_multiset().sub(out.bids@.to_multiset()).contains(b));
        assert(!price_after(b, out.bids@[i]));
    }
    assert forall|i: int, j: int| 0 <= i < j < out.asks@.len() implies #[trigger] out.asks@[i].price@
        <= #[trigger] out.asks@[j].price@ by {
        assert(!price_after(out.asks@[i], out.asks@[j]));
    }
    assert forall|i: int| 0 <= i < out.asks@.len() implies asks.contains(#[trigger] out.asks@[i]) by {
        assert(out.asks@.contains(out.asks@[i]));
        assert(out.asks@.to_multiset().count(out.asks@[i]) > 0);
    }
    assert forall|a: Level, i: int|
        #[trigger] asks.contains(a) && !out.asks@.contains(a) && 0 <= i < out.asks@.len() implies #[trigger] out.asks@[i].price@
            <= a.price@ by {
        assert(out.asks@.to_multiset().count(a) == 0);
        assert(asks.to_multiset().sub(out.asks@.to_multiset()).contains(a));
        assert(!price_after(out.asks@[i], a));
    }
}

/// The order of the book, in plain terms: a higher price comes after a lower
/// one; at one price a bid with a larger amount comes after one with a
/// smaller amount, and an ask with a larger amount comes before one with a
/// smaller amount.
pub proof fn lemma_book_order(a: Level, b: Level)
    ensures
        a.price@ > b.price@ ==> level_after(a, b) && !level_before(a, b),
        a.price@ < b.price@ ==> level_before(a, b) && !level_after(a, b),
        a.price@ == b.price@ && a.side == Side::Bid ==> (level_after(a, b) <==> a.amount@ > b.amount@)
            && (level_before(a, b) <==> a.amount@ < b.amount@),
        a.price@ == b.price@ && a.side == Side::Ask ==> (level_after(a, b) <==> a.amount@ < b.amount@)
            && (level_before(a, b) <==> a.amount@ > b.amount@),
{
}

/// Books of different exchanges are independent: updating one and then the
/// other leaves the same books as the other way round.
pub proof fn lemma_updates_commute(
    books: Map<Exchange, (Seq<Level>, Seq<Level>)>,
    t1: InputData,
    t2: InputData,
)
    requires
        t1.exchange != t2.exchange,
    ensures
        books.insert(t1.exchange, t1.book()).insert(t2.exchange, t2.book()) == books.insert(
            t2.exchange,
            t2.book(),
        ).insert(t1.exchange, t1.book()),
{
    assert(books.insert(t1.exchange, t1.book()).insert(t2.exchange, t2.book()) =~= books.insert(
        t2.exchange,
        t2.book(),
    ).insert(t1.exchange, t1.book()));
}

/// Only the last book an exchange reported counts: a second update of the
/// same exchange undoes the first.
pub proof fn lemma_update_overrides(
    books: Map<Exchange, (Seq<Level>, Seq<Level>)>,
    t1: InputData,
    t2: InputData,
)
    requires
        t1.exchange == t2.exchange,
    ensures
        books.insert(t1.exchange, t1.book()).insert(t2.exchange, t2.book()) == books.insert(
            t2.exchange,
            t2.book(),
        ),
{
    assert(books.insert(t1.exchange, t1.book()).insert(t2.exchange, t2.book()) =~= books.insert(
        t2.exchange,
        t2.book(),
    ));
}

/// The best bid published is a bid of some exchange with the highest price
/// of all exchanges' bids, and the best ask one with the lowest price of all
/// asks; a side is empty only when no exchange has a level on it.
pub proof fn lemma_best_prices(out: OutputData, books: Map<Exchange, (Seq<Level>, Seq<Level>)>)
    requires
        is_tick_of(out, books),
    ensures
        out.bids@.len() == 0 <==> bid_pool(books).len() == 0,
        out.asks@.len() == 0 <==> ask_pool(books).len() == 0,
        out.bids@.len() > 0 ==> has_highest_price(bid_pool(books), out.bids@[0]),
        out.asks@.len() > 0 ==> has_lowest_price(ask_pool(books), out.asks@[0]),
{
    broadcast use vstd::multiset::group_multiset_axioms;

    let bids = bid_pool(books);
    let asks = ask_pool(books);
    bids.to_multiset_ensures();
    asks.to_multiset_ensures();
    out.bids@.to_multiset_ensures();
    out.asks@.to_multiset_ensures();
    if out.bids@.len() > 0 {
        let top = out.bids@[0];
        assert(out.bids@.contains(top));
        assert(bids.to_multiset().count(top) > 0);
        assert forall|b: Level| bids.contains(b) implies b.price@ <= top.price@ by {
            if out.bids@.to_multiset().count(b) > 0 {
                assert(out.bids@.contains(b));
                let i = choose|i: int| 0 <= i < out.bids@.len() && out.bids@[i] == b;
                if i > 0 {
                    assert(!price_after(out.bids@[i], out.bids@[0]));
                }
            } else {
                assert(bids.to_multiset().sub(out.bids@.to_multiset()).contains(b));
                assert(!price_after(b, out.bids@[0]));
            }
        }
    }
    if out.asks@.len() > 0 {
        let low = out.asks@[0];
        assert(out.asks@.contains(low));
        assert(asks.to_multiset().count(low) > 0);
        assert forall|a: Level| asks.contains(a) implies low.price@ <= a.price@ by {
            if out.asks@.to_multiset().count(a) > 0 {
                assert(out.asks@.contains(a));
                let i = choose|i: int| 0 <= i < out.asks@.len() && out.asks@[i] == a;
                if i > 0 {
                    assert(!price_after(out.asks@[0], out.asks@[i]));
                }
            } else {
                assert(asks.to_multiset().sub(out.asks@.to_multiset()).contains(a));
                assert(!price_after(out.asks@[0], a));
            }
        }
    }
}

/// The last level of a permutation of `pool` sorted by price has the highest price.
proof fn lemma_last_has_highest_price(m: Seq<Level>, pool: Seq<Level>)
    requires
        m.to_multiset() == pool.to_multiset(),
        ascending(m, by_price()),
        m.len() > 0,
    ensures
        has_highest_price(pool, m[m.len() - 1]),
{
    m.to_multiset_ensures();
    pool.to_multiset_ensures();
    let top = m[m.len() - 1];
    assert(m.contains(top));
    assert forall|b: Level| pool.contains(b) implies b.price@ <= top.price@ by {
        assert(m.to_multiset().count(b) > 0);
        assert(m.contains(b));
        let j = choose|j: int| 0 <= j < m.len() && m[j] == b;
        if j < m.len() - 1 {
            assert(!price_after(m[j], m[m.len() - 1]));
        }
    }
    assert(m.to_multiset().count(top) > 0);
}

/// The first level of a permutation of `pool` sorted by price has the lowest price.
proof fn lemma_first_has_lowest_price(m: Seq<Level>, pool: Seq<Level>)
    requires
        m.to_multiset() == pool.to_multiset(),
        ascending(m, by_price()),
        m.len() > 0,
    ensures
        has_lowest_price(pool, m[0]),
{
    m.to_multiset_ensures();
    pool.to_multiset_ensures();
    let low = m[0];
    assert(m.contains(low));
    assert forall|b: Level| pool.contains(b) implies low.price@ <= b.price@ by {
        assert(m.to_multiset().count(b) > 0);
        assert(m.contains(b));
        let j = choose|j: int| 0 <= j < m.len() && m[j] == b;
        if j > 0 {
            assert(!price_after(m[0], m[j]));
        }
    }
    assert(m.to_multiset().count(low) > 0);
}

} // verus!
