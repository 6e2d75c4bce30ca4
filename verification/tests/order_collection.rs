use std::cmp::Ordering;
use orderbook_challenge::decimal::Dec;
use orderbook_challenge::order_collection::{
    merge, Exchange, Exchanges, InputData, Level, OrderDepths, OutputData, Side,
};

fn d(mantissa: i128, scale: u32) -> Dec {
    Dec::from_parts(mantissa, scale).unwrap()
}

#[test]
fn test_exchange_update() {
    let mut exchanges = Exchanges::new();
    let t = InputData {
        exchange: Exchange::Bitstamp,
        bids: vec![
            Level::new(Side::Bid, d(1, 0), d(1, 1), Exchange::Bitstamp),
            Level::new(Side::Bid, d(2, 0), d(2, 1), Exchange::Bitstamp),
            Level::new(Side::Bid, d(3, 0), d(3, 1), Exchange::Bitstamp),
            Level::new(Side::Bid, d(4, 0), d(4, 1), Exchange::Bitstamp),
            Level::new(Side::Bid, d(5, 0), d(5, 1), Exchange::Bitstamp),
            Level::new(Side::Bid, d(6, 0), d(6, 1), Exchange::Bitstamp),
            Level::new(Side::Bid, d(7, 0), d(7, 1), Exchange::Bitstamp),
            Level::new(Side::Bid, d(8, 0), d(8, 1), Exchange::Bitstamp),
            Level::new(Side::Bid, d(9, 0), d(9, 1), Exchange::Bitstamp),
            Level::new(Side::Bid, d(10, 0), d(10, 1), Exchange::Bitstamp),
        ],
        asks: vec![
            Level::new(Side::Ask, d(10, 0), d(20, 0), Exchange::Bitstamp),
            Level::new(Side::Ask, d(30, 0), d(40, 0), Exchange::Bitstamp),
            Level::new(Side::Ask, d(50, 0), d(60, 0), Exchange::Bitstamp),
            Level::new(Side::Ask, d(70, 0), d(80, 0), Exchange::Bitstamp),
            Level::new(Side::Ask, d(90, 0), d(100, 0), Exchange::Bitstamp),
            Level::new(Side::Ask, d(110, 0), d(120, 0), Exchange::Bitstamp),
            Level::new(Side::Ask, d(130, 0), d(140, 0), Exchange::Bitstamp),
            Level::new(Side::Ask, d(150, 0), d(160, 0), Exchange::Bitstamp),
            Level::new(Side::Ask, d(170, 0), d(180, 0), Exchange::Bitstamp),
            Level::new(Side::Ask, d(190, 0), d(200, 0), Exchange::Bitstamp),
        ],
    };

    exchanges.update(t);

    assert_eq!(
        exchanges,
        Exchanges {
            bitstamp: OrderDepths {
                bids: vec![
            Level::new(Side::Bid, d(1, 0), d(1, 1), Exchange::Bitstamp),
            Level::new(Side::Bid, d(2, 0), d(2, 1), Exchange::Bitstamp),
            Level::new(Side::Bid, d(3, 0), d(3, 1), Exchange::Bitstamp),
            Level::new(Side::Bid, d(4, 0), d(4, 1), Exchange::Bitstamp),
            Level::new(Side::Bid, d(5, 0), d(5, 1), Exchange::Bitstamp),
            Level::new(Side::Bid, d(6, 0), d(6, 1), Exchange::Bitstamp),
            Level::new(Side::Bid, d(7, 0), d(7, 1), Exchange::Bitstamp),
            Level::new(Side::Bid, d(8, 0), d(8, 1), Exchange::Bitstamp),
            Level::new(Side::Bid, d(9, 0), d(9, 1), Exchange::Bitstamp),
            Level::new(Side::Bid, d(10, 0), d(10, 1), Exchange::Bitstamp),
        ],
                asks: vec![
            Level::new(Side::Ask, d(10, 0), d(20, 0), Exchange::Bitstamp),
            Level::new(Side::Ask, d(30, 0), d(40, 0), Exchange::Bitstamp),
            Level::new(Side::Ask, d(50, 0), d(60, 0), Exchange::Bitstamp),
            Level::new(Side::Ask, d(70, 0), d(80, 0), Exchange::Bitstamp),
            Level::new(Side::Ask, d(90, 0), d(100, 0), Exchange::Bitstamp),
            Level::new(Side::Ask, d(110, 0), d(120, 0), Exchange::Bitstamp),
            Level::new(Side::Ask, d(130, 0), d(140, 0), Exchange::Bitstamp),
            Level::new(Side::Ask, d(150, 0), d(160, 0), Exchange::Bitstamp),
            Level::new(Side::Ask, d(170, 0), d(180, 0), Exchange::Bitstamp),
            Level::new(Side::Ask, d(190, 0), d(200, 0), Exchange::Bitstamp),
        ],
            },
            binance: OrderDepths::new(),
        }
    );
}

#[test]
fn test_merge() {
    let mut exchanges = Exchanges::new();
    let t1 = InputData {
        exchange: Exchange::Binance,
        bids: vec![
            Level::new(Side::Bid, d(10, 0), d(1, 0), Exchange::Bitstamp),
            Level::new(Side::Bid, d(9, 0), d(1, 0), Exchange::Bitstamp),
            Level::new(Side::Bid, d(8, 0), d(1, 0), Exchange::Bitstamp),
            Level::new(Side::Bid, d(7, 0), d(1, 0), Exchange::Bitstamp),
            Level::new(Side::Bid, d(6, 0), d(1, 0), Exchange::Bitstamp),
            Level::new(Side::Bid, d(5, 0), d(1, 0), Exchange::Bitstamp),
            Level::new(Side::Bid, d(4, 0), d(1, 0), Exchange::Bitstamp),
            Level::new(Side::Bid, d(3, 0), d(1, 0), Exchange::Bitstamp),
            Level::new(Side::Bid, d(2, 0), d(1, 0), Exchange::Bitstamp),
            Level::new(Side::Bid, d(1, 0), d(1, 0), Exchange::Bitstamp),
        ],
        asks: vec![
            Level::new(Side::Ask, d(11, 0), d(1, 0), Exchange::Bitstamp),
            Level::new(Side::Ask, d(12, 0), d(1, 0), Exchange::Bitstamp),
            Level::new(Side::Ask, d(13, 0), d(1, 0), Exchange::Bitstamp),
            Level::new(Side::Ask, d(14, 0), d(1, 0), Exchange::Bitstamp),
            Level::new(Side::Ask, d(15, 0), d(1, 0), Exchange::Bitstamp),
            Level::new(Side::Ask, d(16, 0), d(1, 0), Exchange::Bitstamp),
            Level::new(Side::Ask, d(17, 0), d(1, 0), Exchange::Bitstamp),
            Level::new(Side::Ask, d(18, 0), d(1, 0), Exchange::Bitstamp),
            Level::new(Side::Ask, d(19, 0), d(1, 0), Exchange::Bitstamp),
            Level::new(Side::Ask, d(20, 0), d(1, 0), Exchange::Bitstamp),
        ],
    };
    let t2 = InputData {
        exchange: Exchange::Bitstamp,
        bids: vec![
            Level::new(Side::Bid, d(105, 1), d(2, 0), Exchange::Binance),
            Level::new(Side::Bid, d(95, 1), d(2, 0), Exchange::Binance),
            Level::new(Side::Bid, d(85, 1), d(2, 0), Exchange::Binance),
            Level::new(Side::Bid, d(75, 1), d(2, 0), Exchange::Binance),
            Level::new(Side::Bid, d(65, 1), d(2, 0), Exchange::Binance),
            Level::new(Side::Bid, d(55, 1), d(2, 0), Exchange::Binance),
            Level::new(Side::Bid, d(45, 1), d(2, 0), Exchange::Binance),
            Level::new(Side::Bid, d(35, 1), d(2, 0), Exchange::Binance),
            Level::new(Side::Bid, d(25, 1), d(2, 0), Exchange::Binance),
            Level::new(Side::Bid, d(15, 1), d(2, 0), Exchange::Binance),
        ],
        asks: vec![
            Level::new(Side::Ask, d(115, 1), d(2, 0), Exchange::Binance),
            Level::new(Side::Ask, d(125, 1), d(2, 0), Exchange::Binance),
            Level::new(Side::Ask, d(135, 1), d(2, 0), Exchange::Binance),
            Level::new(Side::Ask, d(145, 1), d(2, 0), Exchange::Binance),
            Level::new(Side::Ask, d(155, 1), d(2, 0), Exchange::Binance),
            Level::new(Side::Ask, d(165, 1), d(2, 0), Exchange::Binance),
            Level::new(Side::Ask, d(175, 1), d(2, 0), Exchange::Binance),
            Level::new(Side::Ask, d(185, 1), d(2, 0), Exchange::Binance),
            Level::new(Side::Ask, d(195, 1), d(2, 0), Exchange::Binance),
            Level::new(Side::Ask, d(205, 1), d(2, 0), Exchange::Binance),
        ],
    };

    exchanges.update(t1);
    exchanges.update(t2);

    let out_tick = exchanges.to_tick();

    assert_eq!(
        out_tick,
        OutputData {
            spread: d(5, 1),
            bids: vec![
            Level::new(Side::Bid, d(105, 1), d(2, 0), Exchange::Binance),
            Level::new(Side::Bid, d(10, 0), d(1, 0), Exchange::Bitstamp),
            Level::new(Side::Bid, d(95, 1), d(2, 0), Exchange::Binance),
            Level::new(Side::Bid, d(9, 0), d(1, 0), Exchange::Bitstamp),
            Level::new(Side::Bid, d(85, 1), d(2, 0), Exchange::Binance),
            Level::new(Side::Bid, d(8, 0), d(1, 0), Exchange::Bitstamp),
            Level::new(Side::Bid, d(75, 1), d(2, 0), Exchange::Binance),
            Level::new(Side::Bid, d(7, 0), d(1, 0), Exchange::Bitstamp),
            Level::new(Side::Bid, d(65, 1), d(2, 0), Exchange::Binance),
            Level::new(Side::Bid, d(6, 0), d(1, 0), Exchange::Bitstamp),
        ],
            asks: vec![
            Level::new(Side::Ask, d(11, 0), d(1, 0), Exchange::Bitstamp),
            Level::new(Side::Ask, d(115, 1), d(2, 0), Exchange::Binance),
            Level::new(Side::Ask, d(12, 0), d(1, 0), Exchange::Bitstamp),
            Level::new(Side::Ask, d(125, 1), d(2, 0), Exchange::Binance),
            Level::new(Side::Ask, d(13, 0), d(1, 0), Exchange::Bitstamp),
            Level::new(Side::Ask, d(135, 1), d(2, 0), Exchange::Binance),
            Level::new(Side::Ask, d(14, 0), d(1, 0), Exchange::Bitstamp),
            Level::new(Side::Ask, d(145, 1), d(2, 0), Exchange::Binance),
            Level::new(Side::Ask, d(15, 0), d(1, 0), Exchange::Bitstamp),
            Level::new(Side::Ask, d(155, 1), d(2, 0), Exchange::Binance),
        ],
        }
    );
}

fn bid(price: Dec, amount: Dec, exchange: Exchange) -> Level {
    Level::new(Side::Bid, price, amount, exchange)
}

fn ask(price: Dec, amount: Dec, exchange: Exchange) -> Level {
    Level::new(Side::Ask, price, amount, exchange)
}

#[test]
fn merge_sorts_by_price_then_amount() {
    let a = vec![
        bid(d(3, 0), d(1, 0), Exchange::Bitstamp),
        bid(d(1, 0), d(5, 0), Exchange::Bitstamp),
    ];
    let b = vec![
        bid(d(20, 1), d(2, 0), Exchange::Binance),
        bid(d(3, 0), d(4, 0), Exchange::Binance),
    ];
    let merged = merge(a, b);
    assert_eq!(
        merged,
        vec![
            bid(d(1, 0), d(5, 0), Exchange::Bitstamp),
            bid(d(20, 1), d(2, 0), Exchange::Binance),
            bid(d(3, 0), d(1, 0), Exchange::Bitstamp),
            bid(d(3, 0), d(4, 0), Exchange::Binance),
        ]
    );
}

#[test]
fn merge_ranks_asks_of_one_price_by_descending_amount() {
    let a = vec![ask(d(7, 0), d(1, 0), Exchange::Bitstamp)];
    let b = vec![ask(d(7, 0), d(3, 0), Exchange::Binance), ask(d(6, 0), d(1, 0), Exchange::Binance)];
    let merged = merge(a, b);
    assert_eq!(
        merged,
        vec![
            ask(d(6, 0), d(1, 0), Exchange::Binance),
            ask(d(7, 0), d(3, 0), Exchange::Binance),
            ask(d(7, 0), d(1, 0), Exchange::Bitstamp),
        ]
    );
}

#[test]
fn merge_of_empty_lists_is_empty() {
    assert_eq!(merge(vec![], vec![]), Vec::<Level>::new());
}

#[test]
fn level_cmp_follows_the_book_order() {
    let low = bid(d(1, 0), d(1, 0), Exchange::Bitstamp);
    let high = bid(d(2, 0), d(1, 0), Exchange::Bitstamp);
    assert_eq!(low.cmp(&high), Ordering::Less);
    assert_eq!(high.cmp(&low), Ordering::Greater);
    let small_bid = bid(d(1, 0), d(1, 0), Exchange::Binance);
    let big_bid = bid(d(10, 1), d(2, 0), Exchange::Binance);
    assert_eq!(small_bid.cmp(&big_bid), Ordering::Less);
    let small_ask = ask(d(1, 0), d(1, 0), Exchange::Binance);
    let big_ask = ask(d(1, 0), d(2, 0), Exchange::Binance);
    assert_eq!(small_ask.cmp(&big_ask), Ordering::Greater);
    assert_eq!(small_ask.partial_cmp(&small_ask), Some(Ordering::Equal));
}

#[test]
fn to_tick_of_empty_books_is_empty_with_zero_spread() {
    let exchanges = Exchanges::new();
    let out = exchanges.to_tick();
    assert_eq!(out, OutputData::new());
    assert_eq!(out.spread.mantissa(), 0);
    assert_eq!(out.spread.scale(), 0);
}

#[test]
fn to_tick_with_one_side_empty_has_zero_spread() {
    let mut exchanges = Exchanges::new();
    exchanges.update(InputData {
        exchange: Exchange::Binance,
        bids: vec![bid(d(5, 0), d(1, 0), Exchange::Binance)],
        asks: vec![],
    });
    let out = exchanges.to_tick();
    assert_eq!(out.spread, d(0, 0));
    assert_eq!(out.bids, vec![bid(d(5, 0), d(1, 0), Exchange::Binance)]);
    assert!(out.asks.is_empty());
}

#[test]
fn to_tick_keeps_the_ten_best_of_each_side() {
    let mut exchanges = Exchanges::new();
    let bids: Vec<Level> = (1..=12).map(|p| bid(d(p, 0), d(1, 0), Exchange::Bitstamp)).collect();
    let asks: Vec<Level> = (1..=12).map(|p| ask(d(100 + p, 0), d(1, 0), Exchange::Bitstamp)).collect();
    exchanges.update(InputData { exchange: Exchange::Bitstamp, bids, asks });
    let out = exchanges.to_tick();
    let best_bids: Vec<Level> = (3..=12).rev().map(|p| bid(d(p, 0), d(1, 0), Exchange::Bitstamp)).collect();
    let best_asks: Vec<Level> = (1..=10).map(|p| ask(d(100 + p, 0), d(1, 0), Exchange::Bitstamp)).collect();
    assert_eq!(out.bids, best_bids);
    assert_eq!(out.asks, best_asks);
    assert_eq!(out.spread, d(89, 0));
}

#[test]
fn spread_can_be_negative_for_a_crossed_book() {
    let mut exchanges = Exchanges::new();
    exchanges.update(InputData {
        exchange: Exchange::Bitstamp,
        bids: vec![bid(d(105, 1), d(1, 0), Exchange::Bitstamp)],
        asks: vec![],
    });
    exchanges.update(InputData {
        exchange: Exchange::Binance,
        bids: vec![],
        asks: vec![ask(d(10, 0), d(1, 0), Exchange::Binance)],
    });
    let out = exchanges.to_tick();
    assert_eq!(out.spread.mantissa(), -5);
    assert_eq!(out.spread.scale(), 1);
}

#[test]
fn a_second_update_of_an_exchange_overrides_the_first() {
    let first = InputData {
        exchange: Exchange::Binance,
        bids: vec![bid(d(1, 0), d(1, 0), Exchange::Binance)],
        asks: vec![],
    };
    let second = InputData {
        exchange: Exchange::Binance,
        bids: vec![bid(d(2, 0), d(1, 0), Exchange::Binance)],
        asks: vec![ask(d(3, 0), d(1, 0), Exchange::Binance)],
    };
    let mut exchanges = Exchanges::new();
    exchanges.update(first);
    exchanges.update(second);
    assert_eq!(exchanges.binance.bids, vec![bid(d(2, 0), d(1, 0), Exchange::Binance)]);
    assert_eq!(exchanges.binance.asks, vec![ask(d(3, 0), d(1, 0), Exchange::Binance)]);
    assert_eq!(exchanges.bitstamp, OrderDepths::new());
}

#[test]
fn updates_of_different_exchanges_commute() {
    let make = |exchange: Exchange, p: i128| InputData {
        exchange,
        bids: vec![bid(d(p, 0), d(1, 0), exchange)],
        asks: vec![ask(d(p + 10, 0), d(1, 0), exchange)],
    };
    let mut one = Exchanges::new();
    one.update(make(Exchange::Bitstamp, 1));
    one.update(make(Exchange::Binance, 2));
    let mut other = Exchanges::new();
    other.update(make(Exchange::Binance, 2));
    other.update(make(Exchange::Bitstamp, 1));
    assert_eq!(one, other);
    assert_eq!(one.to_tick(), other.to_tick());
}

#[test]
fn best_bid_and_ask_are_the_extreme_prices_of_all_exchanges() {
    let mut exchanges = Exchanges::new();
    exchanges.update(InputData {
        exchange: Exchange::Bitstamp,
        bids: vec![bid(d(4, 0), d(1, 0), Exchange::Bitstamp), bid(d(9, 0), d(1, 0), Exchange::Bitstamp)],
        asks: vec![ask(d(30, 0), d(1, 0), Exchange::Bitstamp)],
    });
    exchanges.update(InputData {
        exchange: Exchange::Binance,
        bids: vec![bid(d(7, 0), d(1, 0), Exchange::Binance)],
        asks: vec![ask(d(12, 0), d(1, 0), Exchange::Binance), ask(d(40, 0), d(1, 0), Exchange::Binance)],
    });
    let out = exchanges.to_tick();
    assert_eq!(out.bids[0], bid(d(9, 0), d(1, 0), Exchange::Bitstamp));
    assert_eq!(out.asks[0], ask(d(12, 0), d(1, 0), Exchange::Binance));
    assert_eq!(out.spread, d(3, 0));
}

#[test]
fn try_to_tick_reports_an_overflowing_spread() {
    let max = d(79228162514264337593543950335, 0);
    let min = d(-79228162514264337593543950335, 0);
    let mut exchanges = Exchanges::new();
    exchanges.update(InputData {
        exchange: Exchange::Bitstamp,
        bids: vec![bid(max, d(1, 0), Exchange::Bitstamp)],
        asks: vec![ask(min, d(1, 0), Exchange::Bitstamp)],
    });
    assert!(exchanges.try_to_tick().is_none());
}

#[test]
fn output_data_new_is_empty() {
    let out = OutputData::new();
    assert_eq!(out.spread, d(0, 0));
    assert!(out.bids.is_empty());
    assert!(out.asks.is_empty());
}

#[test]
fn exchange_names() {
    assert_eq!(Exchange::Bitstamp.to_string(), "bitstamp");
    assert_eq!(Exchange::Binance.to_string(), "binance");
}

#[test]
fn to_tick_publishes_a_spread_that_rounds_to_the_limit_of_the_range() {
    let mut exchanges = Exchanges::new();
    exchanges.update(InputData {
        exchange: Exchange::Bitstamp,
        bids: vec![bid(d(-71305346262837903834189555302, 0), d(1, 0), Exchange::Bitstamp)],
        asks: vec![ask(d(79228162514264337593543950333, 1), d(1, 0), Exchange::Bitstamp)],
    });
    let out = exchanges.to_tick();
    assert_eq!(out.spread.mantissa(), 79228162514264337593543950335);
    assert_eq!(out.spread.scale(), 0);
    assert!(exchanges.try_to_tick().is_some());
}
