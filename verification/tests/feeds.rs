use orderbook_challenge::binance::{self, BinanceDataFormat};
use orderbook_challenge::bitstamp::{self, Event, InData, InSubscription};
use orderbook_challenge::decimal::Dec;
use orderbook_challenge::error::{Error, ExchangeErr};
use orderbook_challenge::order_collection::{Exchange, InputData, Level, Side, ToLevels, ToTick};
use orderbook_challenge::orders::{Action, Connector, ConnectorEvent};
use orderbook_challenge::symbol::pair_symbol;
use orderbook_challenge::websocket::{handle, Message};

fn d(mantissa: i128, scale: u32) -> Dec {
    Dec::from_parts(mantissa, scale).unwrap()
}

fn binance_levels(n: i128) -> Vec<binance::Level> {
    (1..=n).map(|i| binance::Level { price: d(i, 2), amount: d(i, 0) }).collect()
}

fn bitstamp_levels(n: i128) -> Vec<bitstamp::Level> {
    (1..=n).map(|i| bitstamp::Level { price: d(i, 2), amount: d(i, 0) }).collect()
}

#[test]
fn pair_symbol_is_lower_case_without_slash() {
    assert_eq!(pair_symbol("ETH/BTC"), "ethbtc");
    assert_eq!(pair_symbol("eth/usd"), "ethusd");
    assert_eq!(pair_symbol("A/B/C"), "abc");
    assert_eq!(pair_symbol(""), "");
}

#[test]
fn binance_stream_url() {
    assert_eq!(binance::stream_url("ETH/BTC"), "wss://stream.binance.com:9443/ws/ethbtc@depth10@100ms");
}

#[test]
fn bitstamp_subscription() {
    match bitstamp::subscribe_event("ETH/BTC") {
        Event::Subscribe { data } => assert_eq!(data.channel, "order_book_ethbtc"),
        other => panic!("unexpected {:?}", other),
    }
}

#[test]
fn to_levels_keeps_the_first_levels_in_order() {
    let levels = binance_levels(12);
    let out = levels.to_levels(Side::Ask, 10);
    let expected: Vec<Level> =
        (1..=10).map(|i| Level::new(Side::Ask, d(i, 2), d(i, 0), Exchange::Binance)).collect();
    assert_eq!(out, expected);
    let few = binance_levels(3).to_levels(Side::Bid, 10);
    assert_eq!(few.len(), 3);
    assert_eq!(few[2], Level::new(Side::Bid, d(3, 2), d(3, 0), Exchange::Binance));
    assert!(binance_levels(3).to_levels(Side::Bid, 0).is_empty());
}

#[test]
fn binance_parse_of_a_snapshot_keeps_ten_levels() {
    let snapshot = BinanceDataFormat { last_update_id: 1, bids: binance_levels(12), asks: binance_levels(2) };
    let tick = binance::parse(Message::Text(Ok(snapshot))).unwrap().unwrap();
    assert_eq!(tick.exchange, Exchange::Binance);
    assert_eq!(tick.bids.len(), 10);
    assert_eq!(tick.bids[0], Level::new(Side::Bid, d(1, 2), d(1, 0), Exchange::Binance));
    assert_eq!(tick.asks, vec![
        Level::new(Side::Ask, d(1, 2), d(1, 0), Exchange::Binance),
        Level::new(Side::Ask, d(2, 2), d(2, 0), Exchange::Binance),
    ]);
}

#[test]
fn binance_parse_of_other_frames() {
    assert_eq!(binance::parse(Message::Ping(vec![1])), Ok(None));
    assert_eq!(binance::parse(Message::Close), Ok(None));
    assert_eq!(binance::parse(Message::Binary(vec![])), Ok(None));
    let err = Error::Json("expected value".to_string());
    assert_eq!(binance::parse(Message::Text(Err(err.clone()))), Err(err));
}

#[test]
fn binance_option_intick_always_holds_a_book() {
    let snapshot = BinanceDataFormat { last_update_id: 7, bids: vec![], asks: vec![] };
    let tick = snapshot.option_intick().unwrap();
    assert_eq!(tick, InputData { exchange: Exchange::Binance, bids: vec![], asks: vec![] });
}

#[test]
fn bitstamp_parse_of_events() {
    let data = Event::Data {
        data: InData { bids: bitstamp_levels(11), asks: bitstamp_levels(1) },
        channel: "order_book_ethbtc".to_string(),
    };
    let tick = bitstamp::parse(Message::Text(Ok(data))).unwrap().unwrap();
    assert_eq!(tick.exchange, Exchange::Bitstamp);
    assert_eq!(tick.bids.len(), 10);
    assert_eq!(tick.asks, vec![Level::new(Side::Ask, d(1, 2), d(1, 0), Exchange::Bitstamp)]);
    let answer = Event::SubscriptionSucceeded { data: InSubscription {}, channel: "order_book_ethbtc".to_string() };
    assert_eq!(bitstamp::parse(Message::Text(Ok(answer))), Ok(None));
    assert_eq!(bitstamp::parse(Message::Pong(vec![])), Ok(None));
    assert_eq!(bitstamp::parse(Message::Frame), Ok(None));
    let err = Error::Json("missing field".to_string());
    assert_eq!(bitstamp::parse(Message::Text(Err(err.clone()))), Err(err));
}

#[test]
fn handle_reports_the_end_of_a_feed() {
    assert_eq!(handle::<u8>(None), Err(Error::ConnectionClosed));
    assert_eq!(handle(Some(Ok(3u8))), Ok(3u8));
    assert_eq!(handle::<u8>(Some(Err(Error::WebSocket("reset".to_string())))), Err(Error::WebSocket("reset".to_string())));
}

fn bitstamp_frame(n: i128) -> ConnectorEvent {
    ConnectorEvent::Bitstamp(Some(Ok(Message::Text(Ok(Event::Data {
        data: InData { bids: bitstamp_levels(n), asks: vec![] },
        channel: "order_book_ethbtc".to_string(),
    })))))
}

#[test]
fn connector_forwards_books_and_publishes_the_merge() {
    let mut connector = Connector::new(false, false);
    let tick = match connector.step(bitstamp_frame(2)) {
        Action::Forward(t) => t,
        other => panic!("unexpected {:?}", other),
    };
    assert_eq!(tick.exchange, Exchange::Bitstamp);
    match connector.step(ConnectorEvent::InTick(Some(tick))) {
        Action::Publish(out) => {
            assert_eq!(out.bids[0], Level::new(Side::Bid, d(2, 2), d(2, 0), Exchange::Bitstamp));
            assert_eq!(out.spread, d(0, 0));
        },
        other => panic!("unexpected {:?}", other),
    }
    assert!(matches!(connector.step(ConnectorEvent::InTick(None)), Action::Continue));
}

#[test]
fn connector_skips_a_feed_but_stops_on_its_errors() {
    let mut connector = Connector::new(true, false);
    assert!(matches!(connector.step(bitstamp_frame(2)), Action::Continue));
    match connector.step(ConnectorEvent::Bitstamp(None)) {
        Action::Stop(Some(ExchangeErr::Bitstamp(Error::ConnectionClosed))) => {},
        other => panic!("unexpected {:?}", other),
    }
    let bad = ConnectorEvent::Binance(Some(Ok(Message::Text(Err(Error::Json("bad".to_string()))))));
    match connector.step(bad) {
        Action::Stop(Some(ExchangeErr::Binance(Error::Json(text)))) => assert_eq!(text, "bad"),
        other => panic!("unexpected {:?}", other),
    }
}

#[test]
fn connector_sends_typed_lines_to_binance_and_stops_at_the_end_of_input() {
    let mut connector = Connector::new(false, false);
    match connector.step(ConnectorEvent::Stdin(Some("/exit".to_string()))) {
        Action::SendToBinance(line) => assert_eq!(line, "/exit"),
        other => panic!("unexpected {:?}", other),
    }
    assert!(matches!(connector.step(ConnectorEvent::Stdin(None)), Action::Stop(None)));
}

#[test]
fn connector_reports_an_overflowing_spread() {
    let mut connector = Connector::new(false, false);
    let max = d(79228162514264337593543950335, 0);
    let min = d(-79228162514264337593543950335, 0);
    let tick = InputData {
        exchange: Exchange::Binance,
        bids: vec![Level::new(Side::Bid, max, d(1, 0), Exchange::Binance)],
        asks: vec![Level::new(Side::Ask, min, d(1, 0), Exchange::Binance)],
    };
    assert!(matches!(connector.step(ConnectorEvent::InTick(Some(tick))), Action::SpreadOverflow));
}

#[test]
fn a_run_publishes_the_merge_of_the_reports_so_far() {
    let mut connector = Connector::new(false, false);
    let report = |exchange: Exchange, p: i128| InputData {
        exchange,
        bids: vec![Level::new(Side::Bid, d(p, 0), d(1, 0), exchange)],
        asks: vec![Level::new(Side::Ask, d(p + 10, 0), d(1, 0), exchange)],
    };
    let mut published = Vec::new();
    let events = vec![
        ConnectorEvent::InTick(Some(report(Exchange::Bitstamp, 1))),
        ConnectorEvent::Stdin(Some("hello".to_string())),
        ConnectorEvent::InTick(Some(report(Exchange::Binance, 5))),
        ConnectorEvent::InTick(Some(report(Exchange::Bitstamp, 3))),
    ];
    for event in events {
        if let Action::Publish(out) = connector.step(event) {
            published.push(out);
        }
    }
    assert_eq!(published.len(), 3);
    assert_eq!(published[0].spread, d(10, 0));
    assert_eq!(published[1].bids[0].price, d(5, 0));
    assert_eq!(published[1].asks[0].price, d(11, 0));
    assert_eq!(published[2].bids, vec![
        Level::new(Side::Bid, d(5, 0), d(1, 0), Exchange::Binance),
        Level::new(Side::Bid, d(3, 0), d(1, 0), Exchange::Bitstamp),
    ]);
    assert_eq!(published[2].spread, d(8, 0));
}
