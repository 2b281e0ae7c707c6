use dex_indexer::candles::{build_candle, candle_bucket, unit_seconds, CandleUnit};
use dex_indexer::decimal::DecimalValue;
use dex_indexer::fanout::{
    apply_recent_trades, last_trade_data, recent_trades_trim, trade_datas, trades_envelope,
    trades_publish_data, FanoutStep, RecentTrim,
};
use dex_indexer::market::{MarketTrade, TradeData};
use sqlx::types::Decimal;
use std::str::FromStr;

fn dec(value: DecimalValue) -> Decimal {
    Decimal::from_i128_with_scale(value.mantissa(), value.scale())
}

fn value(text: &str) -> DecimalValue {
    let d = Decimal::from_str(text).unwrap();
    DecimalValue::new(d.mantissa(), d.scale()).unwrap()
}

fn trade(blocktime: u64, price: &str, amount: &str, buy: u8, order_id: Option<&str>) -> MarketTrade {
    MarketTrade {
        slug: "sol-usdc".to_string(),
        order_id: order_id.map(|s| s.to_string()),
        market_buy: buy,
        avg_price: value(price),
        amount: value(amount),
        timestamp: blocktime + 1,
        market_address: "address".to_string(),
        blocktime,
        index: 0,
        avg_price_lots: value("20"),
        amount_lots: value("50000"),
        slot: 5,
        transaction_signature: "sig".to_string(),
    }
}

#[test]
fn candle_of_three_trades_without_prior_candle() {
    let trades = vec![
        trade(60, "10", "1.5", 1, None),
        trade(61, "12", "2", 0, None),
        trade(62, "9", "0.25", 1, None),
    ];
    let candle = build_candle(&trades, CandleUnit::OneMinute, None).unwrap().unwrap();
    assert_eq!(candle.begin_ts, 60);
    assert_eq!(candle.end_ts, 120);
    assert_eq!(dec(candle.open), Decimal::from_str("10").unwrap());
    assert_eq!(dec(candle.high), Decimal::from_str("12").unwrap());
    assert_eq!(dec(candle.low), Decimal::from_str("9").unwrap());
    assert_eq!(dec(candle.close), Decimal::from_str("9").unwrap());
    assert_eq!(dec(candle.amount), Decimal::from_str("3.75").unwrap());
    assert_eq!(candle.unit, "1m");
    assert_eq!(candle.slug, "sol-usdc");
}

#[test]
fn open_is_the_stored_close_where_there_is_one() {
    let trades = vec![trade(125, "10", "1", 1, None)];
    let candle = build_candle(&trades, CandleUnit::OneMinute, Some(value("7.5"))).unwrap().unwrap();
    assert_eq!(dec(candle.open), Decimal::from_str("7.5").unwrap());
    assert_eq!(dec(candle.close), Decimal::from_str("10").unwrap());
    assert_eq!(candle.begin_ts, 120);
    // a stored close of zero is a stored close
    let candle = build_candle(&trades, CandleUnit::OneMinute, Some(value("0.00"))).unwrap().unwrap();
    assert_eq!(dec(candle.open), Decimal::from_str("0").unwrap());
    assert_eq!(dec(candle.low), Decimal::from_str("10").unwrap());
}

#[test]
fn one_trade_opens_and_closes_at_its_price() {
    let trades = vec![trade(1_700_000_123, "3.25", "4", 0, None)];
    for unit in CandleUnit::all() {
        let candle = build_candle(&trades, unit, None).unwrap().unwrap();
        assert_eq!(candle.open, candle.close);
        assert_eq!(candle.high, candle.low);
        assert_eq!(dec(candle.amount), Decimal::from_str("4").unwrap());
        assert_eq!(candle.begin_ts % unit.seconds(), 0);
        assert_eq!(candle.end_ts - candle.begin_ts, unit.seconds());
        assert!(candle.begin_ts <= 1_700_000_123 && 1_700_000_123 < candle.end_ts);
        assert_eq!(candle.unit, unit.label());
    }
}

#[test]
fn low_close_high_are_ordered_and_amounts_add_up() {
    let prices = ["5", "5.0", "4.99", "7", "6.5", "4.990", "8.25", "8.250", "1"];
    let mut trades = Vec::new();
    let mut total = Decimal::ZERO;
    for (i, price) in prices.iter().enumerate() {
        let amount = format!("{}.{}", i, i + 1);
        total += Decimal::from_str(&amount).unwrap();
        trades.push(trade(1000 + i as u64, price, &amount, 1, None));
        let candle = build_candle(&trades, CandleUnit::OneDay, None).unwrap().unwrap();
        assert!(dec(candle.low) <= dec(candle.close));
        assert!(dec(candle.close) <= dec(candle.high));
        assert!(dec(candle.low) <= dec(candle.open));
        assert!(dec(candle.open) <= dec(candle.high));
        for t in &trades {
            assert!(dec(candle.low) <= dec(t.avg_price));
            assert!(dec(t.avg_price) <= dec(candle.high));
        }
        assert_eq!(dec(candle.close), Decimal::from_str(price).unwrap());
        assert_eq!(dec(candle.amount), total);
    }
}

#[test]
fn every_trade_counts_for_the_bucket_of_the_first() {
    // the second trade lies a minute later and still counts for the first bucket
    let trades = vec![trade(59, "10", "1", 1, None), trade(130, "11", "1", 1, None)];
    let candle = build_candle(&trades, CandleUnit::OneMinute, None).unwrap().unwrap();
    assert_eq!(candle.begin_ts, 0);
    assert_eq!(candle.end_ts, 60);
    assert_eq!(dec(candle.close), Decimal::from_str("11").unwrap());
    assert_eq!(dec(candle.amount), Decimal::from_str("2").unwrap());
}

#[test]
fn candles_that_cannot_be_built() {
    assert!(build_candle(&Vec::new(), CandleUnit::OneMinute, None).unwrap().is_none());
    // the bucket would end beyond 64 bits
    let trades = vec![trade(u64::MAX - 2, "10", "1", 1, None)];
    assert!(build_candle(&trades, CandleUnit::OneMinute, None).is_err());
    assert!(candle_bucket(u64::MAX, CandleUnit::OneDay).is_none());
    // the amounts overflow
    let huge = "79228162514264337593543950335";
    let trades = vec![trade(60, "10", huge, 1, None), trade(61, "10", huge, 1, None)];
    assert!(build_candle(&trades, CandleUnit::OneMinute, None).is_err());
}

#[test]
fn units_and_buckets() {
    assert_eq!(unit_seconds("1m"), 60);
    assert_eq!(unit_seconds("15m"), 900);
    assert_eq!(unit_seconds("4h"), 14_400);
    assert_eq!(unit_seconds("1d"), 86_400);
    assert_eq!(unit_seconds("1w"), 60);
    assert_eq!(unit_seconds(""), 60);
    assert_eq!(CandleUnit::parse("15m"), Some(CandleUnit::FifteenMinutes));
    assert_eq!(CandleUnit::parse("15s"), None);
    assert_eq!(CandleUnit::parse("4h"), Some(CandleUnit::FourHours));
    assert_eq!(candle_bucket(0, CandleUnit::OneMinute), Some((0, 60)));
    assert_eq!(candle_bucket(899, CandleUnit::FifteenMinutes), Some((0, 900)));
    assert_eq!(candle_bucket(900, CandleUnit::FifteenMinutes), Some((900, 1800)));
    assert_eq!(candle_bucket(100_000, CandleUnit::FourHours), Some((86_400, 100_800)));
    assert_eq!(candle_bucket(100_000, CandleUnit::OneDay), Some((86_400, 172_800)));
}

fn entry(n: u64) -> TradeData {
    TradeData {
        price: DecimalValue::from_u64(n),
        amount: DecimalValue::from_u64(1),
        market_buy: true,
        timestamp: n,
    }
}

#[test]
fn recent_trades_are_trimmed_to_100() {
    // 98 entries, newest first: 98, 97, ..., 1
    let list: Vec<TradeData> = (1..=98u64).rev().map(entry).collect();
    let batch: Vec<TradeData> = (99..=103u64).map(entry).collect();
    assert_eq!(recent_trades_trim(list.len(), batch.len()), RecentTrim { pop: 3, push: 5 });
    let after = apply_recent_trades(list, &batch);
    assert_eq!(after.len(), 100);
    // the newest trade of the batch is at the head
    assert_eq!(after[0].timestamp, 103);
    assert_eq!(after[4].timestamp, 99);
    assert_eq!(after[5].timestamp, 98);
    // the three oldest entries are gone
    assert_eq!(after[99].timestamp, 4);
    for i in 0..100 {
        assert_eq!(after[i].timestamp, 103 - i as u64);
    }
}

#[test]
fn recent_trades_edges() {
    assert_eq!(recent_trades_trim(0, 0), RecentTrim { pop: 0, push: 0 });
    assert_eq!(recent_trades_trim(95, 5), RecentTrim { pop: 0, push: 5 });
    assert_eq!(recent_trades_trim(100, 1), RecentTrim { pop: 1, push: 1 });
    assert_eq!(recent_trades_trim(0, 101), RecentTrim { pop: 0, push: 100 });
    assert_eq!(recent_trades_trim(50, 120), RecentTrim { pop: 50, push: 100 });
    assert_eq!(recent_trades_trim(100, 100), RecentTrim { pop: 100, push: 100 });
    assert_eq!(recent_trades_trim(130, 10), RecentTrim { pop: 40, push: 10 });
    assert_eq!(recent_trades_trim(usize::MAX, usize::MAX), RecentTrim { pop: usize::MAX, push: 100 });
    let after = apply_recent_trades(Vec::new(), &vec![entry(1), entry(2)]);
    assert_eq!(after.iter().map(|e| e.timestamp).collect::<Vec<u64>>(), vec![2, 1]);
    let after = apply_recent_trades(vec![entry(9)], &Vec::new());
    assert_eq!(after.len(), 1);
    // a full list and a batch of exactly 100 keeps the batch alone
    let list: Vec<TradeData> = (1..=100u64).rev().map(entry).collect();
    let batch: Vec<TradeData> = (101..=200u64).map(entry).collect();
    let after = apply_recent_trades(list.clone(), &batch);
    assert_eq!(after.len(), 100);
    assert_eq!(after[0].timestamp, 200);
    assert_eq!(after[99].timestamp, 101);
    // of a batch of more than 100 the newest 100 are kept, and nothing else
    let batch: Vec<TradeData> = (101..=220u64).map(entry).collect();
    let after = apply_recent_trades(list, &batch);
    assert_eq!(after.len(), 100);
    assert_eq!(after[0].timestamp, 220);
    assert_eq!(after[99].timestamp, 121);
    // a batch of 101 on an empty list
    let batch: Vec<TradeData> = (1..=101u64).map(entry).collect();
    let after = apply_recent_trades(Vec::new(), &batch);
    assert_eq!(after.len(), 100);
    assert_eq!(after[0].timestamp, 101);
    assert_eq!(after[99].timestamp, 2);
}

#[test]
fn the_list_holds_the_newest_hundred_whatever_comes() {
    for held in [0usize, 1, 50, 99, 100] {
        for incoming in [0usize, 1, 2, 50, 99, 100, 101, 250] {
            let list: Vec<TradeData> = (1..=held as u64).rev().map(entry).collect();
            let batch: Vec<TradeData> =
                (held as u64 + 1..=(held + incoming) as u64).map(entry).collect();
            let after = apply_recent_trades(list, &batch);
            assert_eq!(after.len(), std::cmp::min(100, held + incoming));
            for (i, e) in after.iter().enumerate() {
                assert_eq!(e.timestamp, (held + incoming - i) as u64);
            }
            let trim = recent_trades_trim(held, incoming);
            assert_eq!(held - trim.pop + trim.push, after.len());
        }
    }
}

#[test]
fn a_batch_on_its_way_out() {
    let trades = vec![
        trade(60, "10", "1.5", 1, Some("42")),
        trade(61, "12", "2", 0, Some("43")),
    ];
    let datas = trade_datas(&trades);
    assert_eq!(datas.len(), 2);
    assert_eq!(datas[0].price, trades[0].avg_price);
    assert_eq!(datas[0].amount, trades[0].amount);
    assert!(datas[0].market_buy);
    assert!(!datas[1].market_buy);
    assert_eq!(datas[1].timestamp, 62);
    let last = last_trade_data(&trades).unwrap();
    assert_eq!(last.price, trades[1].avg_price);
    assert_eq!(last.timestamp, 62);
    assert!(!last.market_buy);
    assert!(last_trade_data(&Vec::new()).is_none());
    let publish = trades_publish_data(&trades);
    assert_eq!(publish.trades.len(), 2);
    assert_eq!(publish.trades[0].price_lots, trades[0].avg_price_lots);
    assert_eq!(publish.trades[0].amount_lots, trades[0].amount_lots);
    assert_eq!(publish.trades[1].price, trades[1].avg_price);
    let envelope = trades_envelope(&trades).unwrap();
    assert_eq!(envelope._type, "general");
    assert_eq!(envelope.market, "sol-usdc");
    assert_eq!(envelope.id, Some("42".to_string()));
    assert_eq!(envelope.data.trades.len(), 2);
    assert!(trades_envelope(&Vec::new()).is_none());
    let envelope = trades_envelope(&vec![trade(1, "1", "1", 1, None)]).unwrap();
    assert_eq!(envelope.id, None);
}

#[test]
fn fan_out_steps_run_in_order() {
    let mut step = FanoutStep::first();
    let mut seen = vec![step];
    while step != FanoutStep::Done {
        step = step.next(true);
        seen.push(step);
    }
    assert_eq!(
        seen,
        vec![
            FanoutStep::WriteLastTrade,
            FanoutStep::UpdateRecentTrades,
            FanoutStep::PublishTrades,
            FanoutStep::InsertTrades,
            FanoutStep::RefreshSummary,
            FanoutStep::UpdatePrices,
            FanoutStep::SpawnCandles,
            FanoutStep::Done,
        ]
    );
    // a failed write of the last trade is passed over; any other failure ends the fan-out
    assert_eq!(FanoutStep::WriteLastTrade.next(false), FanoutStep::UpdateRecentTrades);
    for step in [
        FanoutStep::UpdateRecentTrades,
        FanoutStep::PublishTrades,
        FanoutStep::InsertTrades,
        FanoutStep::RefreshSummary,
        FanoutStep::UpdatePrices,
        FanoutStep::SpawnCandles,
        FanoutStep::Done,
    ] {
        assert_eq!(step.next(false), FanoutStep::Done);
    }
}
