//! The decisions of the connector that reads the feeds of the exchanges and
//! publishes the merged book. What happens next (a frame of a feed, a line
//! typed by the user, a book handed on to the merger) is an event; `step`
//! says what to do about it, and the caller does it.
use vstd::prelude::*;

use crate::binance::{self, BinanceDataFormat};
use crate::bitstamp;
use crate::error::{Error, ExchangeErr};
use crate::order_collection::{
    ask_pool, bid_pool, is_tick_of, spread_fits, Exchange, Exchanges, InputData, Level, OutputData, Side,
};
use crate::websocket::{handle, Message};

verus! {

/// What a read of the Bitstamp feed gave.
pub type BitstampRead = Option<Result<Message<Result<bitstamp::Event, Error>>, Error>>;

/// What a read of the Binance feed gave.
pub type BinanceRead = Option<Result<Message<Result<BinanceDataFormat, Error>>, Error>>;

/// What happened next.
#[derive(Debug)]
pub enum ConnectorEvent {
    /// The Bitstamp feed delivered a frame, failed, or ended.
    Bitstamp(BitstampRead),
    /// The Binance feed delivered a frame, failed, or ended.
    Binance(BinanceRead),
    /// The user typed a line, or closed the input.
    Stdin(Option<String>),
    /// A book arrived at the merger.
    InTick(Option<InputData>),
}

/// What to do about an event.
#[derive(Debug)]
pub enum Action {
    /// Nothing; wait for the next event.
    Continue,
    /// Hand the book on to the merger.
    Forward(InputData),
    /// Send the line to Binance.
    SendToBinance(String),
    /// Publish the merged book to the subscribers.
    Publish(OutputData),
    /// The spread of the merged book overflows rust_decimal's range.
    SpreadOverflow,
    /// Stop reading, because a feed failed (the error) or the user closed the input.
    Stop(Option<ExchangeErr>),
}

/// The connector's state: the books of the exchanges, and which feeds are
/// read but not merged.
pub struct Connector {
    pub exchanges: Exchanges,
    pub skip_bitstamp: bool,
    pub skip_binance: bool,
}

/// What to do about a read of the Bitstamp feed: stop on an error of the
/// feed or of decoding, hand on the book of a data event, and otherwise go
/// on. A skipped feed is read, and its errors stop the connector, but its
/// books are not handed on.
pub open spec fn bitstamp_action(read: BitstampRead, skip: bool, a: Action) -> bool {
    match read {
        None => a == Action::Stop(Some(ExchangeErr::Bitstamp(Error::ConnectionClosed))),
        Some(Err(e)) => a == Action::Stop(Some(ExchangeErr::Bitstamp(e))),
        Some(Ok(msg)) => if skip {
            a is Continue
        } else {
            match msg {
                Message::Text(Ok(bitstamp::Event::Data { data, .. })) => a matches Action::Forward(t)
                    && t.parts() == data.tick_parts(),
                Message::Text(Err(e)) => a == Action::Stop(Some(ExchangeErr::Bitstamp(e))),
                _ => a is Continue,
            }
        },
    }
}

/// What to do about a read of the Binance feed, as for Bitstamp: every
/// snapshot holds a book.
pub open spec fn binance_action(read: BinanceRead, skip: bool, a: Action) -> bool {
    match read {
        None => a == Action::Stop(Some(ExchangeErr::Binance(Error::ConnectionClosed))),
        Some(Err(e)) => a == Action::Stop(Some(ExchangeErr::Binance(e))),
        Some(Ok(msg)) => if skip {
            a is Continue
        } else {
            match msg {
                Message::Text(Ok(e)) => a matches Action::Forward(t) && t.parts() == e.tick_parts(),
                Message::Text(Err(e)) => a == Action::Stop(Some(ExchangeErr::Binance(e))),
                _ => a is Continue,
            }
        },
    }
}

/// The books after the books `start` were updated by each report of
/// `reports` in turn (an exchange and its bids and asks).
pub open spec fn books_after(
    start: Map<Exchange, (Seq<Level>, Seq<Level>)>,
    reports: Seq<(Exchange, (Seq<Level>, Seq<Level>))>,
) -> Map<Exchange, (Seq<Level>, Seq<Level>)>
    decreases reports.len(),
{
    if reports.len() == 0 {
        start
    } else {
        books_after(start, reports.drop_last()).insert(reports.last().0, reports.last().1)
    }
}

/// After a run of reports, each exchange has the book of its last report, or
/// the book it started with when it made none.
pub proof fn lemma_last_report_counts(
    start: Map<Exchange, (Seq<Level>, Seq<Level>)>,
    reports: Seq<(Exchange, (Seq<Level>, Seq<Level>))>,
    e: Exchange,
)
    ensures
        (forall|i: int| 0 <= i < reports.len() ==> #[trigger] reports[i].0 != e) ==> books_after(
            start,
            reports,
        ).contains_key(e) == start.contains_key(e) && books_after(start, reports)[e] == start[e],
        forall|i: int|
            0 <= i < reports.len() && #[trigger] reports[i].0 == e && (forall|j: int|
                i < j < reports.len() ==> #[trigger] reports[j].0 != e) ==> books_after(
                start,
                reports,
            ).contains_key(e) && books_after(start, reports)[e] == reports[i].1,
    decreases reports.len(),
{
    if reports.len() > 0 {
        let n = reports.len() - 1;
        let rest = reports.drop_last();
        lemma_last_report_counts(start, rest, e);
        assert forall|i: int| 0 <= i < rest.len() implies #[trigger] rest[i] == reports[i] by {}
        if reports[n].0 != e {
            assert forall|i: int|
                0 <= i < reports.len() && #[trigger] reports[i].0 == e && (forall|j: int|
                    i < j < reports.len() ==> #[trigger] reports[j].0 != e) implies books_after(
                start,
                reports,
            ).contains_key(e) && books_after(start, reports)[e] == reports[i].1 by {
                assert(rest[i].0 == e);
                assert forall|j: int| i < j < rest.len() implies #[trigger] rest[j].0 != e by {
                    assert(reports[j].0 != e);
                }
            }
            if forall|i: int| 0 <= i < reports.len() ==> #[trigger] reports[i].0 != e {
                assert forall|i: int| 0 <= i < rest.len() implies #[trigger] rest[i].0 != e by {
                    assert(reports[i].0 != e);
                }
            }
        } else {
            assert forall|i: int|
                0 <= i < reports.len() && #[trigger] reports[i].0 == e && (forall|j: int|
                    i < j < reports.len() ==> #[trigger] reports[j].0 != e) implies books_after(
                start,
                reports,
            ).contains_key(e) && books_after(start, reports)[e] == reports[i].1 by {
                if i < n {
                    assert(reports[n].0 != e);
                }
            }
            assert(reports[n].0 == e);
        }
    }
}

/// A snapshot read from a Binance feed that is not skipped is handed on to
/// the merger as Binance's book: the first ten bids and the first ten asks of
/// the snapshot (all of them when there are fewer), in order, with their
/// prices and amounts.
pub proof fn lemma_binance_snapshot_reaches_merger(e: BinanceDataFormat, a: Action)
    requires
        binance_action(Some(Ok(Message::Text(Ok(e)))), false, a),
    ensures
        a matches Action::Forward(t) && t.exchange == Exchange::Binance
            && t.bids@.len() == (if e.bids@.len() < 10 { e.bids@.len() } else { 10 })
            && t.asks@.len() == (if e.asks@.len() < 10 { e.asks@.len() } else { 10 })
            && (forall|i: int|
            0 <= i < t.bids@.len() ==> #[trigger] t.bids@[i] == (Level {
                side: Side::Bid,
                price: e.bids@[i].price,
                amount: e.bids@[i].amount,
                exchange: Exchange::Binance,
            })) && (forall|i: int|
            0 <= i < t.asks@.len() ==> #[trigger] t.asks@[i] == (Level {
                side: Side::Ask,
                price: e.asks@[i].price,
                amount: e.asks@[i].amount,
                exchange: Exchange::Binance,
            })),
{
    binance::lemma_snapshot_keeps_first_ten(e);
}

/// A data event read from a Bitstamp feed that is not skipped is handed on
/// to the merger as Bitstamp's book: the first ten bids and the first ten
/// asks of the event (all of them when there are fewer), in order, with their
/// prices and amounts.
pub proof fn lemma_bitstamp_data_reaches_merger(data: bitstamp::InData, channel: String, a: Action)
    requires
        bitstamp_action(Some(Ok(Message::Text(Ok(bitstamp::Event::Data { data, channel })))), false, a),
    ensures
        a matches Action::Forward(t) && t.exchange == Exchange::Bitstamp
            && t.bids@.len() == (if data.bids@.len() < 10 { data.bids@.len() } else { 10 })
            && t.asks@.len() == (if data.asks@.len() < 10 { data.asks@.len() } else { 10 })
            && (forall|i: int|
            0 <= i < t.bids@.len() ==> #[trigger] t.bids@[i] == (Level {
                side: Side::Bid,
                price: data.bids@[i].price,
                amount: data.bids@[i].amount,
                exchange: Exchange::Bitstamp,
            })) && (forall|i: int|
            0 <= i < t.asks@.len() ==> #[trigger] t.asks@[i] == (Level {
                side: Side::Ask,
                price: data.asks@[i].price,
                amount: data.asks@[i].amount,
                exchange: Exchange::Bitstamp,
            })),
{
    bitstamp::lemma_data_keeps_first_ten(data);
}

/// A skipped Binance feed is never merged: nothing it delivers is handed on
/// to the merger, and every frame it delivers is passed over.
pub proof fn lemma_skipped_binance_not_merged(read: BinanceRead, a: Action)
    requires
        binance_action(read, true, a),
    ensures
        !(a is Forward),
        read matches Some(Ok(_)) ==> a is Continue,
{
}

/// A skipped Bitstamp feed is never merged: nothing it delivers is handed on
/// to the merger, and every frame it delivers is passed over.
pub proof fn lemma_skipped_bitstamp_not_merged(read: BitstampRead, a: Action)
    requires
        bitstamp_action(read, true, a),
    ensures
        !(a is Forward),
        read matches Some(Ok(_)) ==> a is Continue,
{
}

/// What the connector answers to anything but a book arriving at the merger:
/// the books stay as they are; a typed line is sent to Binance as it is;
/// the end of the input stops the connector without an error; an empty
/// arrival is passed over; a feed that fails stops the connector with that
/// feed's error, and a feed that ends with `ConnectionClosed` for it; a text
/// that was no message of a feed that is read stops it with the decoding
/// error; any frame other than a text is passed over.
pub proof fn lemma_step_other_events(
    before: Map<Exchange, (Seq<Level>, Seq<Level>)>,
    skip_bitstamp: bool,
    skip_binance: bool,
    event: ConnectorEvent,
    after: Map<Exchange, (Seq<Level>, Seq<Level>)>,
    a: Action,
)
    requires
        step_effect(before, skip_bitstamp, skip_binance, event, after, a),
        !is_arrival(event),
    ensures
        after == before,
        event matches ConnectorEvent::Stdin(Some(line)) ==> a == Action::SendToBinance(line),
        event matches ConnectorEvent::Stdin(None) ==> a == Action::Stop(None),
        event matches ConnectorEvent::InTick(None) ==> a is Continue,
        event matches ConnectorEvent::Binance(None) ==> a == Action::Stop(
            Some(ExchangeErr::Binance(Error::ConnectionClosed)),
        ),
        event matches ConnectorEvent::Bitstamp(None) ==> a == Action::Stop(
            Some(ExchangeErr::Bitstamp(Error::ConnectionClosed)),
        ),
        event matches ConnectorEvent::Binance(Some(Err(e))) ==> a == Action::Stop(
            Some(ExchangeErr::Binance(e)),
        ),
        event matches ConnectorEvent::Bitstamp(Some(Err(e))) ==> a == Action::Stop(
            Some(ExchangeErr::Bitstamp(e)),
        ),
        event matches ConnectorEvent::Binance(Some(Ok(Message::Text(Err(e))))) ==> (!skip_binance
            ==> a == Action::Stop(Some(ExchangeErr::Binance(e)))),
        event matches ConnectorEvent::Bitstamp(Some(Ok(Message::Text(Err(e))))) ==> (!skip_bitstamp
            ==> a == Action::Stop(Some(ExchangeErr::Bitstamp(e)))),
        event matches ConnectorEvent::Binance(Some(Ok(m))) ==> (!(m is Text) ==> a is Continue),
        event matches ConnectorEvent::Bitstamp(Some(Ok(m))) ==> (!(m is Text) ==> a is Continue),
{
}

/// A book arriving at the merger replaces the book of its exchange and
/// leaves the other's; the merged book of the new books is published,
/// unless its spread overflows, which is then reported.
pub proof fn lemma_step_arrival(
    before: Map<Exchange, (Seq<Level>, Seq<Level>)>,
    skip_bitstamp: bool,
    skip_binance: bool,
    t: InputData,
    after: Map<Exchange, (Seq<Level>, Seq<Level>)>,
    a: Action,
)
    requires
        step_effect(before, skip_bitstamp, skip_binance, ConnectorEvent::InTick(Some(t)), after, a),
    ensures
        after[t.exchange] == (t.bids@, t.asks@),
        forall|e: Exchange| e != t.exchange && before.contains_key(e) ==> after.contains_key(e) && #[trigger] after[e] == before[e],
        a is Publish || a is SpreadOverflow,
        a matches Action::Publish(out) ==> is_tick_of(out, after),
        a is SpreadOverflow ==> !spread_fits(bid_pool(after), ask_pool(after)),
{
}

/// What `step` does about an event, from the books `before` (and the skip
/// flags) to the books `after` and the action `a`. Only a book arriving at
/// the merger changes the books: it replaces the book of its exchange, and
/// the merged book of the new books is published, unless its spread
/// overflows.
pub open spec fn step_effect(
    before: Map<Exchange, (Seq<Level>, Seq<Level>)>,
    skip_bitstamp: bool,
    skip_binance: bool,
    event: ConnectorEvent,
    after: Map<Exchange, (Seq<Level>, Seq<Level>)>,
    a: Action,
) -> bool {
    match event {
        ConnectorEvent::Bitstamp(read) => after == before && bitstamp_action(read, skip_bitstamp, a),
        ConnectorEvent::Binance(read) => after == before && binance_action(read, skip_binance, a),
        ConnectorEvent::Stdin(Some(line)) => after == before && a == Action::SendToBinance(line),
        ConnectorEvent::Stdin(None) => after == before && a == Action::Stop(None),
        ConnectorEvent::InTick(None) => after == before && a is Continue,
        ConnectorEvent::InTick(Some(t)) => {
            &&& after == before.insert(t.exchange, t.book())
            &&& {
                ||| a matches Action::Publish(out) && is_tick_of(out, after)
                ||| a is SpreadOverflow && !spread_fits(bid_pool(after), ask_pool(after))
            }
        },
    }
}

/// A book arrived at the merger.
pub open spec fn is_arrival(e: ConnectorEvent) -> bool {
    e matches ConnectorEvent::InTick(Some(_))
}

/// The books that arrive at the merger in a run of events, in order: an
/// exchange and its bids and asks for each `InTick(Some(..))`.
pub open spec fn reports_of(events: Seq<ConnectorEvent>) -> Seq<(Exchange, (Seq<Level>, Seq<Level>))>
    decreases events.len(),
{
    if events.len() == 0 {
        Seq::empty()
    } else {
        match events.last() {
            ConnectorEvent::InTick(Some(t)) => reports_of(events.drop_last()).push(
                (t.exchange, t.book()),
            ),
            _ => reports_of(events.drop_last()),
        }
    }
}

/// The books `step` leaves: updated by the report of an arrival, unchanged otherwise.
proof fn lemma_step_books(
    before: Map<Exchange, (Seq<Level>, Seq<Level>)>,
    skip_bitstamp: bool,
    skip_binance: bool,
    event: ConnectorEvent,
    after: Map<Exchange, (Seq<Level>, Seq<Level>)>,
    a: Action,
)
    requires
        step_effect(before, skip_bitstamp, skip_binance, event, after, a),
    ensures
        match event {
            ConnectorEvent::InTick(Some(t)) => after == before.insert(t.exchange, t.book()),
            _ => after == before,
        },
{
}

/// One more event adds its report, if it is an arrival, to the books updated so far.
proof fn lemma_one_more_event(
    start: Map<Exchange, (Seq<Level>, Seq<Level>)>,
    events: Seq<ConnectorEvent>,
    n: int,
)
    requires
        0 <= n < events.len(),
    ensures
        books_after(start, reports_of(events.take(n + 1))) == match events[n] {
            ConnectorEvent::InTick(Some(t)) => books_after(start, reports_of(events.take(n))).insert(
                t.exchange,
                t.book(),
            ),
            _ => books_after(start, reports_of(events.take(n))),
        },
{
    let pre = events.take(n + 1);
    assert(pre.drop_last() =~= events.take(n));
    assert(pre.last() == events[n]);
    match events[n] {
        ConnectorEvent::InTick(Some(t)) => {
            let r = reports_of(events.take(n)).push((t.exchange, t.book()));
            assert(reports_of(pre) == r);
            assert(r.drop_last() =~= reports_of(events.take(n)));
        },
        _ => {},
    }
}

/// Over a whole run of `step`: with `books[j]` the books before the `j`-th
/// event and `actions[j]` what `step` answered to it, the books after `j`
/// events are the first books updated by the reports among those events, in
/// order; only a book arriving at the merger is answered by publishing; and
/// such a book is answered by publishing the merged book of the reports so
/// far, unless its spread overflows, which is then reported.
#[verifier::rlimit(40)]
pub proof fn lemma_run_of_steps(
    books: Seq<Map<Exchange, (Seq<Level>, Seq<Level>)>>,
    events: Seq<ConnectorEvent>,
    actions: Seq<Action>,
    skip_bitstamp: bool,
    skip_binance: bool,
)
    requires
        books.len() == events.len() + 1,
        actions.len() == events.len(),
        forall|j: int|
            0 <= j < events.len() ==> step_effect(
                #[trigger] books[j],
                skip_bitstamp,
                skip_binance,
                events[j],
                books[j + 1],
                actions[j],
            ),
    ensures
        forall|j: int|
            0 <= j < books.len() ==> #[trigger] books[j] == books_after(books[0], reports_of(events.take(j))),
        forall|j: int|
            0 <= j < events.len() && #[trigger] actions[j] is Publish ==> is_arrival(events[j]),
        forall|j: int|
            0 <= j < events.len() && is_arrival(#[trigger] events[j]) ==> {
                let now = books_after(books[0], reports_of(events.take(j + 1)));
                ||| actions[j] matches Action::Publish(out) && is_tick_of(out, now)
                ||| actions[j] is SpreadOverflow && !spread_fits(bid_pool(now), ask_pool(now))
            },
    decreases events.len(),
{
    if events.len() > 0 {
        let n = events.len() - 1;
        let bs = books.drop_last();
        let es = events.drop_last();
        let acts = actions.drop_last();
        assert forall|j: int| 0 <= j < es.len() implies step_effect(
            #[trigger] bs[j],
            skip_bitstamp,
            skip_binance,
            es[j],
            bs[j + 1],
            acts[j],
        ) by {
            assert(bs[j] == books[j] && bs[j + 1] == books[j + 1]);
            assert(es[j] == events[j] && acts[j] == actions[j]);
            assert(step_effect(books[j], skip_bitstamp, skip_binance, events[j], books[j + 1], actions[j]));
        }
        lemma_run_of_steps(bs, es, acts, skip_bitstamp, skip_binance);
        assert(step_effect(books[n], skip_bitstamp, skip_binance, events[n], books[n + 1], actions[n]));
        assert(bs[n] == books[n]);
        assert(es.take(n) =~= events.take(n));
        assert(events.take(n + 1).drop_last() =~= events.take(n));
        assert(events.take(n + 1).last() == events[n]);
        assert(books[n] == books_after(books[0], reports_of(events.take(n))));
        lemma_one_more_event(books[0], events, n);
        lemma_step_books(books[n], skip_bitstamp, skip_binance, events[n], books[n + 1], actions[n]);
        assert(books[n + 1] == books_after(books[0], reports_of(events.take(n + 1))));
        assert forall|j: int| 0 <= j < books.len() implies #[trigger] books[j] == books_after(
            books[0],
            reports_of(events.take(j)),
        ) by {
            if j <= n {
                assert(bs[j] == books[j]);
                assert(es.take(j) =~= events.take(j));
            }
        }
        assert forall|j: int| 0 <= j < events.len() && #[trigger] actions[j] is Publish implies is_arrival(events[j]) by {
            if j < n {
                assert(acts[j] == actions[j] && es[j] == events[j]);
            }
        }
        assert forall|j: int|
            0 <= j < events.len() && is_arrival(#[trigger] events[j]) implies {
            let now = books_after(books[0], reports_of(events.take(j + 1)));
            ||| actions[j] matches Action::Publish(out) && is_tick_of(out, now)
            ||| actions[j] is SpreadOverflow && !spread_fits(bid_pool(now), ask_pool(now))
        } by {
            if j < n {
                assert(acts[j] == actions[j] && es[j] == events[j]);
                assert(es.take(j + 1) =~= events.take(j + 1));
            } else {
                assert(books[j + 1] == books_after(books[0], reports_of(events.take(j + 1))));
            }
        }
    }
}

impl Connector {
    /// No books yet.
    pub fn new(skip_bitstamp: bool, skip_binance: bool) -> (r: Connector)
        ensures
            r.exchanges@ == Exchanges::new_books(),
            r.skip_bitstamp == skip_bitstamp,
            r.skip_binance == skip_binance,
    {
        Connector { exchanges: Exchanges::new(), skip_bitstamp, skip_binance }
    }

    /// Decides what to do about an event. Only a book arriving at the merger
    /// changes the books: it replaces the book of its exchange, and the
    /// merged book is published.
    pub fn step(&mut self, event: ConnectorEvent) -> (a: Action)
        ensures
            final(self).skip_bitstamp == old(self).skip_bitstamp,
            final(self).skip_binance == old(self).skip_binance,
            step_effect(
                old(self).exchanges@,
                old(self).skip_bitstamp,
                old(self).skip_binance,
                event,
                final(self).exchanges@,
                a,
            ),
    {
        match event {
            ConnectorEvent::Bitstamp(read) => match handle(read) {
                Err(e) => Action::Stop(Some(ExchangeErr::Bitstamp(e))),
                Ok(msg) => {
                    if self.skip_bitstamp {
                        Action::Continue
                    } else {
                        match bitstamp::parse(msg) {
                            Err(e) => Action::Stop(Some(ExchangeErr::Bitstamp(e))),
                            Ok(Some(t)) => Action::Forward(t),
                            Ok(None) => Action::Continue,
                        }
                    }
                },
            },
            ConnectorEvent::Binance(read) => match handle(read) {
                Err(e) => Action::Stop(Some(ExchangeErr::Binance(e))),
                Ok(msg) => {
                    if self.skip_binance {
                        Action::Continue
                    } else {
                        match binance::parse(msg) {
                            Err(e) => Action::Stop(Some(ExchangeErr::Binance(e))),
                            Ok(Some(t)) => Action::Forward(t),
                            Ok(None) => Action::Continue,
                        }
                    }
                },
            },
            ConnectorEvent::Stdin(Some(line)) => Action::SendToBinance(line),
            ConnectorEvent::Stdin(None) => Action::Stop(None),
            ConnectorEvent::InTick(Some(t)) => {
                self.exchanges.update(t);
                match self.exchanges.try_to_tick() {
                    Some(out) => Action::Publish(out),
                    None => Action::SpreadOverflow,
                }
            },
            ConnectorEvent::InTick(None) => Action::Continue,
        }
    }
}

} // verus!
