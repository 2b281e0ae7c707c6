use dex_indexer::decimal::DecimalValue;
use dex_indexer::events::{decode_event_queue, Event, EventView, Side};
use dex_indexer::openbook::ObMarketInfo;
use dex_indexer::pubkey::Pubkey;
use dex_indexer::slab::FeeTier;
use dex_indexer::trades::{
    as_maker_fill, extractor, fill_trade, process_fills, Fill, FilledOrderIds,
};
use openbook_dex::matching::Side as DexSide;
use openbook_dex::state::{
    strip_header, Event as DexEvent, EventQueueHeader as DexHeader, EventView as DexView, Queue,
};
use solana_sdk::account_info::AccountInfo;
use sqlx::types::Decimal;
use std::str::FromStr;

fn dec(value: DecimalValue) -> Decimal {
    Decimal::from_i128_with_scale(value.mantissa(), value.scale())
}

fn market() -> ObMarketInfo {
    ObMarketInfo {
        name: "sol-usdc".to_string(),
        address: Pubkey::new_from_array([1u8; 32]),
        base_mint: Pubkey::new_from_array([2u8; 32]),
        quote_mint: Pubkey::new_from_array([3u8; 32]),
        bids: Pubkey::new_from_array([4u8; 32]),
        asks: Pubkey::new_from_array([5u8; 32]),
        event_queue: Pubkey::new_from_array([6u8; 32]),
        base_decimals: 6,
        quote_decimals: 6,
        base_lot_size: 100,
        quote_lot_size: 10,
    }
}

fn fill_view(side: Side, maker: bool, paid: u64, rebate: u64, received: u64, id: u128) -> EventView {
    EventView::Fill {
        side,
        maker,
        native_qty_paid: paid,
        native_qty_received: received,
        native_fee_or_rebate: rebate,
        order_id: id,
        owner: [0; 4],
        owner_slot: 0,
        fee_tier: FeeTier::Base,
        client_order_id: None,
    }
}

fn out_view(id: u128) -> EventView {
    EventView::Out {
        side: Side::Bid,
        release_funds: true,
        native_qty_unlocked: 1,
        native_qty_still_locked: 0,
        order_id: id,
        owner: [0; 4],
        owner_slot: 0,
        client_order_id: None,
    }
}

#[test]
fn bid_fill_becomes_a_trade_once() {
    let events = vec![fill_view(Side::Bid, true, 1_000_000, 1_000, 500_000, 42)];
    let mut filled = FilledOrderIds::new();
    let trades = process_fills(&market(), &events, &mut filled, 77, 1_700_000_000, "sig").unwrap();
    assert_eq!(trades.len(), 1);
    let trade = &trades[0];
    assert_eq!(dec(trade.avg_price), Decimal::from_str("2.002").unwrap());
    assert_eq!(dec(trade.amount), Decimal::from_str("0.5").unwrap());
    assert_eq!(dec(trade.avg_price_lots), Decimal::from_str("20").unwrap());
    assert_eq!(dec(trade.amount_lots), Decimal::from_str("50000").unwrap());
    assert_eq!(trade.market_buy, 1);
    assert_eq!(trade.order_id, Some("42".to_string()));
    assert_eq!(trade.slug, "sol-usdc");
    assert_eq!(trade.market_address, market().address.to_base58());
    assert_eq!(trade.transaction_signature, "sig");
    assert_eq!(trade.slot, 77);
    assert_eq!(trade.timestamp, 1_700_000_000);
    assert_eq!(trade.blocktime, 1_700_000_000);
    assert_eq!(trade.index, 0);
    assert!(filled.contains(42));
    // the same queue delivered again brings no trade
    let again = process_fills(&market(), &events, &mut filled, 78, 1_700_000_001, "sig").unwrap();
    assert!(again.is_empty());
    assert!(filled.contains(42));
}

#[test]
fn ask_fill_is_priced_from_what_was_received() {
    // raw = received - rebate = 2_000_000 - 500_000; counter = paid = 3_000_000
    let events = vec![fill_view(Side::Ask, true, 3_000_000, 500_000, 2_000_000, 7)];
    let mut filled = FilledOrderIds::new();
    let trades = process_fills(&market(), &events, &mut filled, 1, 2, "s").unwrap();
    assert_eq!(trades.len(), 1);
    assert_eq!(dec(trades[0].avg_price), Decimal::from_str("0.5").unwrap());
    assert_eq!(dec(trades[0].amount), Decimal::from_str("3").unwrap());
    // 0.5 * 10^6 * 100 / 10^6 / 10 = 5
    assert_eq!(dec(trades[0].avg_price_lots), Decimal::from_str("5").unwrap());
    // 3 * 10^6 / 10 = 300000
    assert_eq!(dec(trades[0].amount_lots), Decimal::from_str("300000").unwrap());
    assert_eq!(trades[0].market_buy, 0);
    assert_eq!(trades[0].order_id, Some("7".to_string()));
}

#[test]
fn price_in_lots_rounds_midpoints_to_even() {
    // price 0.25 -> 0.25 * 10^6 * 100 / 10^6 / 10 = 2.5 -> 2
    let fill = Fill {
        side: Side::Bid,
        native_qty_paid: 250_000,
        native_qty_received: 1_000_000,
        native_fee_or_rebate: 0,
        order_id: 1,
    };
    let price = fill.compute_price(&market()).unwrap();
    assert_eq!(dec(price), Decimal::from_str("0.25").unwrap());
    assert_eq!(dec(Fill::compute_price_lots(price, &market())), Decimal::from_str("2").unwrap());
    // price 0.35 -> 3.5 -> 4
    let fill = Fill { native_qty_paid: 350_000, ..fill };
    let price = fill.compute_price(&market()).unwrap();
    assert_eq!(dec(Fill::compute_price_lots(price, &market())), Decimal::from_str("4").unwrap());
    assert_eq!(dec(fill.compute_size(&market())), Decimal::from_str("1").unwrap());
    assert_eq!(
        dec(Fill::compute_size_lots(fill.compute_size(&market()), &market())),
        Decimal::from_str("100000").unwrap()
    );
}

#[test]
fn only_new_maker_fills_become_trades() {
    let events = vec![
        fill_view(Side::Bid, false, 10, 0, 10, 1),
        out_view(2),
        fill_view(Side::Bid, true, 10, 0, 10, 3),
        fill_view(Side::Ask, true, 10, 0, 10, 4),
        fill_view(Side::Bid, true, 20, 0, 10, 3),
        fill_view(Side::Bid, true, 10, 0, 10, 1),
        fill_view(Side::Bid, true, 10, 0, 10, 9),
    ];
    let mut filled = FilledOrderIds::new();
    filled.insert(9);
    let trades = process_fills(&market(), &events, &mut filled, 5, 6, "s").unwrap();
    let ids: Vec<Option<String>> = trades.iter().map(|t| t.order_id.clone()).collect();
    assert_eq!(ids, vec![Some("3".to_string()), Some("4".to_string()), Some("1".to_string())]);
    // the first fill of order 3 is the one recorded
    assert_eq!(dec(trades[0].avg_price), Decimal::from_str("1").unwrap());
    for id in [1u128, 3, 4, 9] {
        assert!(filled.contains(id));
    }
    assert!(!filled.contains(2));
    assert!(process_fills(&market(), &events, &mut filled, 5, 6, "s").unwrap().is_empty());
}

#[test]
fn a_fill_without_a_price_records_nothing() {
    let events = vec![
        fill_view(Side::Bid, true, 10, 0, 10, 3),
        // nothing received: the price divides by zero
        fill_view(Side::Bid, true, 10, 0, 0, 4),
    ];
    let mut filled = FilledOrderIds::new();
    assert!(process_fills(&market(), &events, &mut filled, 5, 6, "s").is_err());
    assert!(!filled.contains(3));
    assert!(!filled.contains(4));
    // paid + rebate beyond 64 bits
    let fill = Fill {
        side: Side::Bid,
        native_qty_paid: u64::MAX,
        native_qty_received: 1,
        native_fee_or_rebate: 1,
        order_id: 1,
    };
    assert!(fill.compute_price(&market()).is_none());
    assert!(fill_trade(&market(), &fill, 1, 2, "s").is_err());
    // received - rebate below zero
    let fill = Fill { side: Side::Ask, native_qty_paid: 1, native_qty_received: 1, native_fee_or_rebate: 2, order_id: 1 };
    assert!(fill.compute_price(&market()).is_none());
    let mut bad = market();
    bad.base_decimals = 20;
    let fill = Fill { side: Side::Ask, native_qty_paid: 1, native_qty_received: 1, native_fee_or_rebate: 0, order_id: 1 };
    assert!(fill.compute_price(&bad).is_none());
}

#[test]
fn extractor_reads_price_amount_and_direction() {
    let view = fill_view(Side::Bid, false, 1_000_000, 1_000, 500_000, 42);
    let (price, amount, is_buy) = extractor(&market(), &view).unwrap();
    assert_eq!(dec(price), Decimal::from_str("2.002").unwrap());
    assert_eq!(dec(amount), Decimal::from_str("0.5").unwrap());
    assert!(is_buy);
    let view = fill_view(Side::Ask, true, 3_000_000, 500_000, 2_000_000, 7);
    let (_, _, is_buy) = extractor(&market(), &view).unwrap();
    assert!(!is_buy);
    assert!(extractor(&market(), &out_view(1)).is_none());
    assert!(extractor(&market(), &fill_view(Side::Bid, true, 1, 0, 0, 1)).is_none());
    assert!(as_maker_fill(&fill_view(Side::Bid, false, 1, 0, 1, 1)).is_none());
    assert!(as_maker_fill(&out_view(1)).is_none());
    assert_eq!(as_maker_fill(&fill_view(Side::Ask, true, 1, 2, 3, 4)).unwrap().order_id, 4);
}

fn event_bytes(flags: u8, fee_tier: u8, released: u64, paid: u64, fee: u64, id: u128, client: u64) -> [u8; 88] {
    let mut event = [0u8; 88];
    event[0] = flags;
    event[1] = 9;
    event[2] = fee_tier;
    event[8..16].copy_from_slice(&released.to_le_bytes());
    event[16..24].copy_from_slice(&paid.to_le_bytes());
    event[24..32].copy_from_slice(&fee.to_le_bytes());
    event[32..48].copy_from_slice(&id.to_le_bytes());
    for w in 0..4 {
        event[48 + 8 * w..56 + 8 * w].copy_from_slice(&(w as u64 + 1).to_le_bytes());
    }
    event[80..88].copy_from_slice(&client.to_le_bytes());
    event
}

fn queue(head: u64, count: u64, slots: &[[u8; 88]], slop: usize) -> Vec<u8> {
    let mut data = b"serum".to_vec();
    data.extend_from_slice(&0x11u64.to_le_bytes());
    data.extend_from_slice(&head.to_le_bytes());
    data.extend_from_slice(&count.to_le_bytes());
    data.extend_from_slice(&5u64.to_le_bytes());
    for slot in slots {
        data.extend_from_slice(slot);
    }
    data.extend(std::iter::repeat(0u8).take(slop));
    data.extend_from_slice(b"padding");
    data
}

#[test]
fn queue_is_read_around_the_ring() {
    let slots = [
        event_bytes(0x1 | 0x8, 1, 30, 40, 5, 100, 0),
        event_bytes(0x2 | 0x4 | 0x10, 0, 31, 41, 0, 101, 8),
        event_bytes(0x1 | 0x4, 7, 32, 42, 6, 102, 9),
    ];
    let data = queue(2, 2, &slots, 0);
    let views = decode_event_queue(&data).unwrap();
    assert_eq!(views.len(), 2);
    assert_eq!(
        views[0],
        EventView::Fill {
            side: Side::Bid,
            maker: false,
            native_qty_paid: 42,
            native_qty_received: 32,
            native_fee_or_rebate: 6,
            order_id: 102,
            owner: [1, 2, 3, 4],
            owner_slot: 9,
            fee_tier: FeeTier::Stable,
            client_order_id: Some(9),
        }
    );
    assert_eq!(
        views[1],
        EventView::Fill {
            side: Side::Ask,
            maker: true,
            native_qty_paid: 40,
            native_qty_received: 30,
            native_fee_or_rebate: 5,
            order_id: 100,
            owner: [1, 2, 3, 4],
            owner_slot: 9,
            fee_tier: FeeTier::_SRM2,
            client_order_id: None,
        }
    );
    let all = decode_event_queue(&queue(1, 3, &slots, 8)).unwrap();
    assert_eq!(all.len(), 3);
    assert!(matches!(all[0], EventView::Out { release_funds: true, side: Side::Bid, .. }));
    assert_eq!(decode_event_queue(&queue(0, 0, &[], 0)).unwrap().len(), 0);
}

#[test]
fn queues_that_do_not_read() {
    let slots = [event_bytes(0x1, 0, 1, 1, 0, 1, 0)];
    let good = queue(0, 1, &slots, 0);
    assert!(decode_event_queue(&good).is_some());
    // padding at either end
    let mut bad = good.clone();
    bad[0] = b'x';
    assert!(decode_event_queue(&bad).is_none());
    let mut bad = good.clone();
    let last = bad.len() - 1;
    bad[last] = b'x';
    assert!(decode_event_queue(&bad).is_none());
    // not whole words between the paddings
    assert!(decode_event_queue(&queue(0, 1, &slots, 3)).is_none());
    // too short for the header
    assert!(decode_event_queue(b"serumpadding").is_none());
    assert!(decode_event_queue(&[]).is_none());
    // more events than slots
    assert!(decode_event_queue(&queue(0, 2, &slots, 0)).is_none());
    assert!(decode_event_queue(&queue(0, 1, &[], 0)).is_none());
    // flags that no event carries
    for flags in [0x20u8, 0x40, 0x80, 0x1 | 0x2, 0x1 | 0x10, 0x2 | 0x8, 0x8] {
        let slots = [event_bytes(flags, 0, 1, 1, 0, 1, 0)];
        assert!(decode_event_queue(&queue(0, 1, &slots, 0)).is_none());
    }
    // a fill with a fee tier above 7
    let slots = [event_bytes(0x1, 8, 1, 1, 0, 1, 0)];
    assert!(decode_event_queue(&queue(0, 1, &slots, 0)).is_none());
    // an out event does not read its fee tier
    let slots = [event_bytes(0x2, 8, 1, 1, 0, 1, 0)];
    assert!(decode_event_queue(&queue(0, 1, &slots, 0)).is_some());
}

fn dex_views(data: &mut Vec<u8>) -> Option<Vec<EventView>> {
    let key = solana_sdk::pubkey::Pubkey::new_from_array([1u8; 32]);
    let mut lamports = 0u64;
    let info = AccountInfo::new(&key, false, false, &mut lamports, data, &key, false, 0);
    let (header, buf) = match strip_header::<DexHeader, DexEvent>(&info, false) {
        Ok(parts) => parts,
        Err(_) => return None,
    };
    let events = Queue::new(header, buf);
    let mut out = Vec::new();
    for event in events.iter() {
        let view = match event.as_view() {
            Ok(view) => view,
            Err(_) => return None,
        };
        out.push(match view {
            DexView::Fill {
                side,
                maker,
                native_qty_paid,
                native_qty_received,
                native_fee_or_rebate,
                order_id,
                owner,
                owner_slot,
                fee_tier,
                client_order_id,
            } => EventView::Fill {
                side: match side {
                    DexSide::Bid => Side::Bid,
                    DexSide::Ask => Side::Ask,
                },
                maker,
                native_qty_paid,
                native_qty_received,
                native_fee_or_rebate,
                order_id,
                owner,
                owner_slot,
                fee_tier: FeeTier::try_from(fee_tier as u8).unwrap(),
                client_order_id: client_order_id.map(|id| id.get()),
            },
            DexView::Out {
                side,
                release_funds,
                native_qty_unlocked,
                native_qty_still_locked,
                order_id,
                owner,
                owner_slot,
                client_order_id,
            } => EventView::Out {
                side: match side {
                    DexSide::Bid => Side::Bid,
                    DexSide::Ask => Side::Ask,
                },
                release_funds,
                native_qty_unlocked,
                native_qty_still_locked,
                order_id,
                owner,
                owner_slot,
                client_order_id: client_order_id.map(|id| id.get()),
            },
        });
    }
    Some(out)
}

#[test]
fn queue_reads_as_the_venues_own_decoder_reads_it() {
    // every combination of the five flags, with fee tiers inside and outside the range
    for flags in 0u8..0x20 {
        for fee_tier in [0u8, 3, 7, 8, 200] {
            let slots = [
                event_bytes(0x2, 0, 1, 2, 3, 4, 5),
                event_bytes(flags, fee_tier, 11, 12, 13, (7u128 << 70) | 5, 15),
                event_bytes(0x1 | 0x8 | 0x4, 2, 21, 22, 23, 24, 0),
            ];
            for (head, count) in [(0u64, 3u64), (1, 3), (2, 2), (1, 1), (0, 0), (2, 3)] {
                let data = queue(head, count, &slots, 16);
                let ours = decode_event_queue(&data);
                let theirs = dex_views(&mut data.clone());
                assert_eq!(ours, theirs);
            }
        }
    }
    // framing: the venue's decoder refuses what this one refuses
    let slots = [event_bytes(0x2, 0, 1, 2, 3, 4, 5)];
    let mut bad = queue(0, 1, &slots, 0);
    bad[2] = b'R';
    assert_eq!(decode_event_queue(&bad), dex_views(&mut bad.clone()));
    let odd = queue(0, 1, &slots, 5);
    assert_eq!(decode_event_queue(&odd), dex_views(&mut odd.clone()));
    let fine = queue(0, 1, &slots, 80);
    assert_eq!(decode_event_queue(&fine), dex_views(&mut fine.clone()));
    assert!(decode_event_queue(&fine).is_some());
}

#[test]
fn event_views_by_flag() {
    let event = Event {
        event_flags: 0x1 | 0x4 | 0x8,
        owner_slot: 1,
        fee_tier: 6,
        native_qty_released: 10,
        native_qty_paid: 20,
        native_fee_or_rebate: 3,
        order_id: 5,
        owner: [1, 2, 3, 4],
        client_order_id: 0,
    };
    assert_eq!(
        event.as_view(),
        Some(EventView::Fill {
            side: Side::Bid,
            maker: true,
            native_qty_paid: 20,
            native_qty_received: 10,
            native_fee_or_rebate: 3,
            order_id: 5,
            owner: [1, 2, 3, 4],
            owner_slot: 1,
            fee_tier: FeeTier::_MSRM,
            client_order_id: None,
        })
    );
    // no flag at all reads as an order leaving the ask side
    let event = Event { event_flags: 0, ..event };
    assert!(matches!(
        event.as_view(),
        Some(EventView::Out { side: Side::Ask, release_funds: false, .. })
    ));
    let event = Event { event_flags: 0x21, ..event };
    assert!(event.as_view().is_none());
}
