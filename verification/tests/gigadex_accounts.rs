use dex_indexer::gigadex::{
    convert_orders_data, orders_of_tree, parse_balances_account, parse_order_account,
    sort_orders, GdMarketInfo, GdMarketOrder, GdMarketOrderLog, GdMarketState, OrderTree,
    UserBalances,
};
use dex_indexer::pubkey::Pubkey;
use sqlx::types::Decimal;
use std::str::FromStr;

fn market() -> GdMarketInfo {
    GdMarketInfo {
        name: "bonk".to_string(),
        address: Pubkey::new_from_array([1u8; 32]),
        bids: Pubkey::new_from_array([2u8; 32]),
        asks: Pubkey::new_from_array([3u8; 32]),
        balances: Pubkey::new_from_array([4u8; 32]),
        buy_order_log: Pubkey::new_from_array([5u8; 32]),
        sell_order_log: Pubkey::new_from_array([6u8; 32]),
        base_decimals: 9,
        quote_decimals: 6,
        multiplier: 1_000_000,
    }
}

fn dec(value: dex_indexer::decimal::DecimalValue) -> Decimal {
    Decimal::from_i128_with_scale(value.mantissa(), value.scale())
}

fn order_tree(nodes: &[(usize, u64, u64, u64)]) -> Vec<u8> {
    let mut data = vec![0u8; 8 + 61_208];
    data[0..8].copy_from_slice(&[9u8; 8]);
    data[8..16].copy_from_slice(&77u64.to_le_bytes());
    data[16..24].copy_from_slice(&1u64.to_le_bytes());
    for (index, price, amount, uid) in nodes {
        let at = 24 + 56 * index;
        data[at..at + 8].copy_from_slice(&price.to_le_bytes());
        data[at + 8..at + 16].copy_from_slice(&amount.to_le_bytes());
        data[at + 16..at + 24].copy_from_slice(&uid.to_le_bytes());
        data[at + 48..at + 56].copy_from_slice(&3u64.to_le_bytes());
    }
    // the match state behind the nodes may hold anything
    for byte in data[24 + 56_000..].iter_mut() {
        *byte = 0xEE;
    }
    data
}

fn balances(num_users: u64, entries: &[(usize, u64, u64)]) -> Vec<u8> {
    let mut data = vec![0u8; 8 + 160_008];
    data[8..16].copy_from_slice(&num_users.to_le_bytes());
    for (index, lamports, lots) in entries {
        let at = 16 + 16 * index;
        data[at..at + 8].copy_from_slice(&lamports.to_le_bytes());
        data[at + 8..at + 16].copy_from_slice(&lots.to_le_bytes());
    }
    data
}

#[test]
fn order_tree_lists_occupied_nodes_in_node_order() {
    let data = order_tree(&[(0, 500, 10, 7), (1, 400, 0, 8), (5, 300, 1, 9), (999, 600, 2, 7)]);
    let orders = parse_order_account(&data).unwrap();
    assert_eq!(
        orders,
        vec![
            GdMarketOrder { uid: 7, price_lots: 500, amount_lots: 10 },
            GdMarketOrder { uid: 9, price_lots: 300, amount_lots: 1 },
            GdMarketOrder { uid: 7, price_lots: 600, amount_lots: 2 },
        ]
    );
    let tree = OrderTree::from_bytes(&data).unwrap();
    assert_eq!(tree.root_idx, 77);
    assert_eq!(tree.market_buy, 1);
    assert_eq!(tree.nodes.len(), 1000);
    assert_eq!(tree.nodes[0].height, 3);
    assert_eq!(tree.nodes[1].price, 400);
    assert_eq!(orders_of_tree(&tree), orders);
}

#[test]
fn order_tree_needs_its_exact_length() {
    let data = order_tree(&[]);
    assert_eq!(parse_order_account(&data).unwrap().len(), 0);
    assert!(parse_order_account(&data[..data.len() - 1]).is_none());
    let mut longer = data.clone();
    longer.push(0);
    assert!(parse_order_account(&longer).is_none());
    assert!(parse_order_account(&[]).is_none());
    assert!(OrderTree::from_bytes(&[0u8; 7]).is_none());
}

#[test]
fn balances_of_users_one_to_n() {
    // lamports / 10^6 and lots / 10^9; entry 0 is reserved
    let data = balances(2, &[(0, 99, 99), (1, 1_500_000, 2_000_000_000), (2, 1, 5), (3, 8, 8)]);
    let found = parse_balances_account(&data, &market()).unwrap();
    assert_eq!(found.len(), 2);
    assert_eq!(dec(found[0].lamports), Decimal::from_str("1.5").unwrap());
    assert_eq!(dec(found[0].lots), Decimal::from_str("2").unwrap());
    assert_eq!(dec(found[1].lamports), Decimal::from_str("0.000001").unwrap());
    assert_eq!(dec(found[1].lots), Decimal::from_str("0.000000005").unwrap());
    let table = UserBalances::from_bytes(&data).unwrap();
    assert_eq!(table.num_users, 2);
    assert_eq!(table.entries.len(), 10_000);
    assert_eq!(table.entries[3].lamports, 8);
}

#[test]
fn balances_edges() {
    assert_eq!(parse_balances_account(&balances(0, &[]), &market()).unwrap().len(), 0);
    assert_eq!(parse_balances_account(&balances(9_999, &[]), &market()).unwrap().len(), 9_999);
    // user 10,000 would lie outside the table
    assert!(parse_balances_account(&balances(10_000, &[]), &market()).is_none());
    assert!(parse_balances_account(&balances(u64::MAX, &[]), &market()).is_none());
    let data = balances(1, &[]);
    assert!(parse_balances_account(&data[..data.len() - 1], &market()).is_none());
    let mut unpriced = market();
    unpriced.quote_decimals = 25;
    assert!(parse_balances_account(&balances(1, &[]), &unpriced).is_none());
    assert!(parse_balances_account(&balances(0, &[]), &unpriced).is_some());
}

#[test]
fn trade_log_record() {
    let mut data = vec![1u8; 8];
    data.extend_from_slice(&1_000_000_000u64.to_le_bytes());
    data.extend_from_slice(&2_000_000u64.to_le_bytes());
    data.extend_from_slice(&17u64.to_le_bytes());
    data.extend_from_slice(&[0xFF; 5]);
    assert_eq!(
        GdMarketOrderLog::deserialize(&data),
        Some(GdMarketOrderLog {
            amount: 1_000_000_000,
            total_value_lamports: 2_000_000,
            counter: 17
        })
    );
    assert!(GdMarketOrderLog::deserialize(&data[..31]).is_none());
    assert!(GdMarketOrderLog::deserialize(&data[..32]).is_some());
}

#[test]
fn market_record_of_six_addresses() {
    let mut data = vec![0u8; 8];
    for key in 1..=6u8 {
        data.extend_from_slice(&[key; 32]);
    }
    let state = GdMarketState::deserialize(&data).unwrap();
    assert_eq!(state.mint.to_bytes(), [1u8; 32]);
    assert_eq!(state.balances.to_bytes(), [2u8; 32]);
    assert_eq!(state.wsol_vault.to_bytes(), [3u8; 32]);
    assert_eq!(state.lot_vault.to_bytes(), [4u8; 32]);
    assert_eq!(state.asks.to_bytes(), [5u8; 32]);
    assert_eq!(state.bids.to_bytes(), [6u8; 32]);
    assert!(GdMarketState::deserialize(&data[..199]).is_none());
}

#[test]
fn valid_accounts_of_a_market() {
    let market = market();
    for key in 2..=6u8 {
        assert!(market.is_valid_account(&Pubkey::new_from_array([key; 32])));
    }
    assert!(!market.is_valid_account(&Pubkey::new_from_array([1u8; 32])));
    assert!(!market.is_valid_account(&Pubkey::new_from_array([7u8; 32])));
}

#[test]
fn orders_in_readable_units() {
    // price 3_000_000 / 10^6 * 10^9 / 10^6 = 3000; amount 500_000_000 / 10^9 = 0.5
    let orders = vec![GdMarketOrder { uid: 1, price_lots: 3_000_000, amount_lots: 500_000_000 }];
    let data = convert_orders_data(&orders, &market()).unwrap();
    assert_eq!(data.len(), 1);
    assert_eq!(dec(data[0].price), Decimal::from_str("3000").unwrap());
    assert_eq!(dec(data[0].amount), Decimal::from_str("0.5").unwrap());
    assert_eq!(data[0].price_lots, 3_000_000);
    assert_eq!(data[0].amount_lots, 500_000_000);
    assert_eq!(convert_orders_data(&Vec::new(), &market()).unwrap().len(), 0);
    let mut unpriced = market();
    unpriced.base_decimals = 20;
    assert!(convert_orders_data(&orders, &unpriced).is_none());
}

#[test]
fn sort_orders_builds_both_sides() {
    let orders = vec![
        GdMarketOrder { uid: 1, price_lots: 99, amount_lots: 4 },
        GdMarketOrder { uid: 2, price_lots: 100, amount_lots: 5 },
        GdMarketOrder { uid: 3, price_lots: 98, amount_lots: 2 },
        GdMarketOrder { uid: 1, price_lots: 100, amount_lots: 3 },
        GdMarketOrder { uid: 4, price_lots: 98, amount_lots: 1 },
    ];
    let bids = sort_orders(&orders, &market(), 20, true).unwrap();
    let found: Vec<(u64, u64)> = bids.iter().map(|o| (o.price_lots, o.size_lots)).collect();
    assert_eq!(found, vec![(100, 8), (99, 4), (98, 3)]);
    let asks = sort_orders(&orders, &market(), 2, false).unwrap();
    let found: Vec<(u64, u64)> = asks.iter().map(|o| (o.price_lots, o.size_lots)).collect();
    assert_eq!(found, vec![(98, 3), (99, 4)]);
    // price 100 / 10^6 * 10^9 / 10^6 = 0.1
    assert_eq!(dec(bids[0].price), Decimal::from_str("0.1").unwrap());
    assert_eq!(dec(bids[0].amount), Decimal::from_str("0.000000008").unwrap());
}

#[test]
fn sort_orders_keeps_twenty_levels() {
    let mut orders = Vec::new();
    for price in 1..=25u64 {
        orders.push(GdMarketOrder { uid: price, price_lots: price, amount_lots: 1 });
        orders.push(GdMarketOrder { uid: price, price_lots: price, amount_lots: 2 });
    }
    let bids = sort_orders(&orders, &market(), 20, true).unwrap();
    assert_eq!(bids.len(), 20);
    assert_eq!(bids[0].price_lots, 25);
    assert_eq!(bids[19].price_lots, 6);
    for pair in bids.windows(2) {
        assert!(pair[0].price_lots > pair[1].price_lots);
    }
    for level in &bids {
        assert_eq!(level.size_lots, 3);
    }
    let asks = sort_orders(&orders, &market(), 20, false).unwrap();
    assert_eq!(asks.len(), 20);
    for pair in asks.windows(2) {
        assert!(pair[0].price_lots < pair[1].price_lots);
    }
    // a total beyond 64 bits cannot be priced
    let heavy = vec![
        GdMarketOrder { uid: 1, price_lots: 5, amount_lots: u64::MAX },
        GdMarketOrder { uid: 2, price_lots: 5, amount_lots: 1 },
    ];
    assert!(sort_orders(&heavy, &market(), 20, true).is_none());
}
