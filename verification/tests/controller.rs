use dex_indexer::account::{get_aum_usd_data, Account, AccountInfo, AccountUpdate};
use dex_indexer::gigadex::{GdMarketInfo, GdMarketState};
use dex_indexer::market::{generate_publish_data, generate_publish_uid_data, MarketConfig};
use dex_indexer::markets::{
    decimals_of, find_config, gd_market_info, market_keys, mint_decimals, ob_market_info,
    same_text, Venue,
};
use dex_indexer::openbook::{ObMarketInfo, ObMarketState};
use dex_indexer::pubkey::{array_to_pubkey, ParsePubkeyError, Pubkey};
use dex_indexer::subscribe::{
    find_gd_market, find_ob_market, market_config, on_stream_event, route_update,
    subscription_accounts, ConfigError, MarketInfoFields, Route, StreamAction, StreamEvent,
};
use dex_indexer::text::{
    keyed, parse_u8, u128_to_string, uid_orders_key, write_decimal, BALANCES_KEY, CHANNEL_NAME,
    LAST_TRADE_KEY, MARKETS_KEY, MARKET_INFO_KEY, ORDERBOOK_KEY, PRICES_KEY, RECENT_TRADES_KEY,
    SUMMARY_KEY,
};

fn fields() -> MarketInfoFields {
    MarketInfoFields {
        name: Some("SOL/USDC".to_string()),
        slug: Some("sol-usdc".to_string()),
        status: Some("active".to_string()),
        base_decimals: Some("9".to_string()),
        quote_decimals: Some("6".to_string()),
        gd_market_address: None,
        ob_market_address: Some("srmqPvymJeFKQ4zGQed1GFppgkRHL9kaELCbyksJtPX".to_string()),
    }
}

fn config(slug: &str, ob: Option<&str>, gd: Option<&str>) -> MarketConfig {
    MarketConfig {
        name: slug.to_uppercase(),
        slug: slug.to_string(),
        ob_market_address: ob.map(|s| s.to_string()),
        gd_market_address: gd.map(|s| s.to_string()),
        base_decimals: 9,
        quote_decimals: 6,
        status: "active".to_string(),
    }
}

fn key(byte: u8) -> Pubkey {
    Pubkey::new_from_array([byte; 32])
}

fn ob_market(first: u8) -> ObMarketInfo {
    ObMarketInfo {
        name: "ob".to_string(),
        address: key(first),
        base_mint: key(first + 1),
        quote_mint: key(first + 2),
        bids: key(first + 3),
        asks: key(first + 4),
        event_queue: key(first + 5),
        base_decimals: 9,
        quote_decimals: 6,
        base_lot_size: 100,
        quote_lot_size: 10,
    }
}

fn gd_market(first: u8) -> GdMarketInfo {
    GdMarketInfo {
        name: "gd".to_string(),
        address: key(first),
        bids: key(first + 1),
        asks: key(first + 2),
        balances: key(first + 3),
        buy_order_log: key(first + 4),
        sell_order_log: key(first + 5),
        base_decimals: 9,
        quote_decimals: 6,
        multiplier: 1_000_000,
    }
}

#[test]
fn market_configuration_from_cache_fields() {
    let config = market_config(fields()).unwrap().unwrap();
    assert_eq!(config.name, "SOL/USDC");
    assert_eq!(config.slug, "sol-usdc");
    assert_eq!(config.status, "active");
    assert_eq!(config.base_decimals, 9);
    assert_eq!(config.quote_decimals, 6);
    assert_eq!(config.gd_market_address, None);
    assert_eq!(
        config.ob_market_address,
        Some("srmqPvymJeFKQ4zGQed1GFppgkRHL9kaELCbyksJtPX".to_string())
    );
}

#[test]
fn market_configuration_errors() {
    // an entry without a name is passed over, whatever else it lacks
    let mut f = fields();
    f.name = None;
    f.slug = None;
    assert_eq!(market_config(f), Ok(None));
    for missing in 0..4 {
        let mut f = fields();
        match missing {
            0 => f.slug = None,
            1 => f.status = None,
            2 => f.base_decimals = None,
            _ => f.quote_decimals = None,
        }
        assert_eq!(market_config(f), Err(ConfigError::MissingField));
    }
    let mut f = fields();
    f.base_decimals = Some("nine".to_string());
    assert_eq!(market_config(f), Err(ConfigError::BadDecimals));
    let mut f = fields();
    f.quote_decimals = Some("256".to_string());
    assert_eq!(market_config(f), Err(ConfigError::BadDecimals));
}

#[test]
fn numbers_below_256_from_text() {
    for n in 0..=255u32 {
        assert_eq!(parse_u8(&n.to_string()), Some(n as u8));
        assert_eq!(parse_u8(&n.to_string()), u8::from_str_radix(&n.to_string(), 10).ok());
    }
    for text in ["", "+", "-", "-1", "256", "1000", "1 ", " 1", "1_0", "0x1", "+7", "007", "+0255", "++1", "١"] {
        assert_eq!(parse_u8(text), u8::from_str_radix(text, 10).ok());
    }
    assert_eq!(parse_u8("+7"), Some(7));
    assert_eq!(parse_u8("007"), Some(7));
    assert_eq!(parse_u8("256"), None);
}

#[test]
fn decimal_text_of_numbers() {
    assert_eq!(u128_to_string(0), "0");
    assert_eq!(u128_to_string(42), "42");
    assert_eq!(u128_to_string(1_000), "1000");
    assert_eq!(u128_to_string(u128::MAX), u128::MAX.to_string());
    let mut out = "id:".to_string();
    write_decimal(907, &mut out);
    assert_eq!(out, "id:907");
    assert_eq!(keyed("uid_bids", "sol-usdc"), "uid_bids:sol-usdc");
    assert_eq!(keyed("", ""), ":");
}

#[test]
fn keys_of_the_cache() {
    assert_eq!(uid_orders_key(true, "bonk"), "uid_bids:bonk");
    assert_eq!(uid_orders_key(false, "bonk"), "uid_asks:bonk");
    assert_eq!(keyed(BALANCES_KEY, "bonk"), "balances:bonk");
    assert_eq!(keyed(ORDERBOOK_KEY, "bonk"), "compressed_orderbook:bonk");
    assert_eq!(keyed(RECENT_TRADES_KEY, "addr"), "recent_trades:addr");
    assert_eq!(keyed(LAST_TRADE_KEY, "bonk"), "last_trade_data:bonk");
    assert_eq!(keyed(SUMMARY_KEY, "bonk"), "summary:bonk");
    assert_eq!(keyed(MARKET_INFO_KEY, "bonk"), "market_info:bonk");
    assert_eq!(MARKETS_KEY, "markets");
    assert_eq!(PRICES_KEY, "prices");
    assert_eq!(CHANNEL_NAME, "all_data");
}

#[test]
fn subscribed_accounts_market_by_market() {
    let obs = vec![ob_market(10), ob_market(20)];
    let gds = vec![gd_market(30)];
    let accounts = subscription_accounts(&obs, &gds);
    let expected: Vec<String> = [14u8, 13, 15, 24, 23, 25, 32, 31, 33, 34, 35]
        .iter()
        .map(|b| key(*b).to_base58())
        .collect();
    assert_eq!(accounts, expected);
    assert!(subscription_accounts(&Vec::new(), &Vec::new()).is_empty());
}

#[test]
fn updates_find_their_market() {
    let obs = vec![ob_market(10), ob_market(20), ob_market(10)];
    let gds = vec![gd_market(30), gd_market(40)];
    assert_eq!(find_ob_market(&obs, &key(13)), Some(0));
    assert_eq!(find_ob_market(&obs, &key(25)), Some(1));
    // the market's own address and its mints are not subscribed
    assert_eq!(find_ob_market(&obs, &key(10)), None);
    assert_eq!(find_ob_market(&obs, &key(11)), None);
    assert_eq!(find_ob_market(&obs, &key(31)), None);
    assert_eq!(find_gd_market(&gds, &key(31)), Some(0));
    assert_eq!(find_gd_market(&gds, &key(45)), Some(1));
    assert_eq!(find_gd_market(&gds, &key(30)), None);
    assert_eq!(find_gd_market(&gds, &key(13)), None);
    assert!(obs[0].is_valid_account(&key(15)));
    assert!(!obs[0].is_valid_account(&key(12)));
}

#[test]
fn an_update_goes_to_exactly_one_parser() {
    let obs = vec![ob_market(10), ob_market(20)];
    // the second market of the second venue shares its bids with an order-book market
    let mut shared = gd_market(40);
    shared.bids = key(23);
    let gds = vec![gd_market(30), shared];
    assert_eq!(route_update(&obs, &gds, &key(13)), Route::Ob(0));
    assert_eq!(route_update(&obs, &gds, &key(25)), Route::Ob(1));
    assert_eq!(route_update(&obs, &gds, &key(33)), Route::Gd(0));
    assert_eq!(route_update(&obs, &gds, &key(42)), Route::Gd(1));
    // an account that feeds markets of both venues goes to the order-book parser
    assert_eq!(route_update(&obs, &gds, &key(23)), Route::Ob(1));
    assert_eq!(route_update(&obs, &gds, &key(10)), Route::Unrouted);
    assert_eq!(route_update(&Vec::new(), &Vec::new(), &key(13)), Route::Unrouted);
    assert_eq!(route_update(&Vec::new(), &gds, &key(23)), Route::Gd(1));
}

#[test]
fn stream_events_and_what_follows() {
    assert_eq!(on_stream_event(StreamEvent::Account), StreamAction::Dispatch);
    assert_eq!(on_stream_event(StreamEvent::Other), StreamAction::Continue);
    assert_eq!(on_stream_event(StreamEvent::Error), StreamAction::Backoff(100));
    assert_eq!(on_stream_event(StreamEvent::Closed), StreamAction::Resubscribe);
}

#[test]
fn account_update_from_the_stream() {
    let update = AccountUpdate {
        is_startup: true,
        slot: 9,
        account: Some(AccountInfo {
            pubkey: vec![1u8; 32],
            lamports: 5,
            owner: vec![2u8; 32],
            executable: false,
            rent_epoch: 3,
            data: vec![7, 8, 9],
            write_version: 4,
            txn_signature: Some(vec![0, 0, 1, 2, 3]),
        }),
    };
    let account = Account::from_update(update.clone()).unwrap();
    assert!(account.is_startup);
    assert_eq!(account.slot, 9);
    assert_eq!(account.pubkey.to_bytes(), [1u8; 32]);
    assert_eq!(account.owner.to_bytes(), [2u8; 32]);
    assert_eq!(account.lamports, 5);
    assert_eq!(account.rent_epoch, 3);
    assert_eq!(account.data, vec![7, 8, 9]);
    assert_eq!(account.write_version, 4);
    assert_eq!(account.txn_signature, bs58::encode(vec![0u8, 0, 1, 2, 3]).into_string());
    assert_eq!(account.txn_signature, "11Ldp");
    let mut unsigned = update.clone();
    unsigned.account.as_mut().unwrap().txn_signature = None;
    assert_eq!(Account::from_update(unsigned).unwrap().txn_signature, "");
    let mut short = update.clone();
    short.account.as_mut().unwrap().pubkey = vec![1u8; 31];
    assert!(Account::from_update(short).is_none());
    let mut long = update.clone();
    long.account.as_mut().unwrap().owner = vec![1u8; 33];
    assert!(Account::from_update(long).is_none());
    let mut empty = update;
    empty.account = None;
    assert!(Account::from_update(empty).is_none());
}

#[test]
fn value_under_management() {
    let mut data = vec![0u8; 20];
    data[0] = 0x10;
    data[15] = 0x01;
    data[16] = 0xFF;
    assert_eq!(get_aum_usd_data(&data), Some((1u128 << 120) + 0x10));
    assert_eq!(get_aum_usd_data(&data[..16]), Some((1u128 << 120) + 0x10));
    assert_eq!(get_aum_usd_data(&data[..15]), None);
}

#[test]
fn venue_addresses_become_keys() {
    let a = key(1).to_base58();
    let b = key(2).to_base58();
    let c = key(3).to_base58();
    let markets = vec![
        config("one", Some(&a), None),
        config("two", None, Some(&b)),
        config("three", Some(&c), Some(&a)),
    ];
    let ob = market_keys(&markets, Venue::Openbook).unwrap();
    assert_eq!(ob.len(), 2);
    assert!(ob[0] == key(1) && ob[1] == key(3));
    let gd = market_keys(&markets, Venue::Gigadex).unwrap();
    assert!(gd.len() == 2 && gd[0] == key(2) && gd[1] == key(1));
    let bad = vec![config("one", Some(&a), None), config("bad", Some("not base58!"), None)];
    assert_eq!(market_keys(&bad, Venue::Openbook), Err(ParsePubkeyError::Invalid));
    assert!(market_keys(&bad, Venue::Gigadex).unwrap().is_empty());
    assert_eq!(find_config(&markets, Venue::Openbook, &c), Some(2));
    assert_eq!(find_config(&markets, Venue::Gigadex, &a), Some(2));
    assert_eq!(find_config(&markets, Venue::Gigadex, &c), None);
    // a market without an address for the venue counts as naming the empty text
    assert_eq!(find_config(&markets, Venue::Gigadex, ""), Some(0));
    assert!(same_text("abc", "abc"));
    assert!(!same_text("abc", "abd"));
    assert!(!same_text("abc", "ab"));
    assert!(same_text("", ""));
}

fn ob_state_bytes(own: u8, coin_lot: u64, pc_lot: u64) -> Vec<u8> {
    let mut data = b"serum".to_vec();
    let mut words = [0u64; 47];
    words[0] = 3;
    let set = |words: &mut [u64; 47], at: usize, byte: u8| {
        for k in 0..4 {
            words[at + k] = u64::from_le_bytes([byte; 8]);
        }
    };
    set(&mut words, 1, own);
    set(&mut words, 6, own + 1);
    set(&mut words, 10, own + 2);
    set(&mut words, 31, own + 5);
    set(&mut words, 35, own + 3);
    set(&mut words, 39, own + 4);
    words[43] = coin_lot;
    words[44] = pc_lot;
    words[45] = 22;
    for w in words {
        data.extend_from_slice(&w.to_le_bytes());
    }
    data.extend_from_slice(b"padding");
    data
}

#[test]
fn order_book_market_record_and_descriptor() {
    let data = ob_state_bytes(50, 1000, 10);
    let raw = ObMarketState::deserialize(&data).unwrap();
    assert_eq!(raw.account_flags, 3);
    assert_eq!(raw.coin_lot_size, 1000);
    assert_eq!(raw.pc_lot_size, 10);
    assert_eq!(raw.fee_rate_bps, 22);
    assert!(array_to_pubkey(raw.own_address) == key(50));
    assert!(ObMarketState::deserialize(&data[..380]).is_none());
    assert!(ObMarketState::deserialize(&data[..381]).is_some());
    let markets = vec![
        config("other", Some(&key(9).to_base58()), None),
        config("sol-usdc", Some(&key(50).to_base58()), None),
    ];
    let info = ob_market_info(&raw, &markets).unwrap();
    assert_eq!(info.name, "sol-usdc");
    assert!(info.address == key(50));
    assert!(info.base_mint == key(51));
    assert!(info.quote_mint == key(52));
    assert!(info.bids == key(53));
    assert!(info.asks == key(54));
    assert!(info.event_queue == key(55));
    assert_eq!((info.base_decimals, info.quote_decimals), (0, 0));
    assert_eq!((info.base_lot_size, info.quote_lot_size), (1000, 10));
    assert!(ob_market_info(&raw, &markets[..1].to_vec()).is_none());
}

#[test]
fn mint_accounts_hold_decimals() {
    let mut mint = vec![0u8; 82];
    mint[44] = 9;
    assert_eq!(mint_decimals(&mint), Some(9));
    assert_eq!(mint_decimals(&mint[..81]), None);
    let mints = vec![(key(1), 6u8), (key(2), 9), (key(1), 3)];
    assert_eq!(decimals_of(&mints, &key(1)), Some(6));
    assert_eq!(decimals_of(&mints, &key(2)), Some(9));
    assert_eq!(decimals_of(&mints, &key(3)), None);
}

#[test]
fn second_venue_descriptor_with_derived_logs() {
    let program = Pubkey::from_base58("833pSHchW8AWggrvx8394HHkH1cMHxdyYcDro8ABYUXC").unwrap();
    let address = key(60);
    let mut data = vec![0u8; 8];
    for k in 61..=66u8 {
        data.extend_from_slice(&[k; 32]);
    }
    let raw = GdMarketState::deserialize(&data).unwrap();
    let markets = vec![config("bonk", None, Some(&address.to_base58()))];
    let info = gd_market_info(&address, &raw, &markets, &program).unwrap();
    assert_eq!(info.name, "bonk");
    assert!(info.address == address);
    assert!(info.balances == key(62));
    assert!(info.asks == key(65));
    assert!(info.bids == key(66));
    assert_eq!((info.base_decimals, info.quote_decimals), (9, 6));
    assert_eq!(info.multiplier, 1_000_000);
    let their_program = solana_sdk::pubkey::Pubkey::new_from_array(program.to_bytes());
    let (buy, _) = solana_sdk::pubkey::Pubkey::find_program_address(
        &[&address.to_bytes(), b"buy_log_pda_seed"],
        &their_program,
    );
    let (sell, _) = solana_sdk::pubkey::Pubkey::find_program_address(
        &[&address.to_bytes(), b"sell_log_pda_seed"],
        &their_program,
    );
    assert_eq!(info.buy_order_log.to_bytes(), buy.to_bytes());
    assert_eq!(info.sell_order_log.to_bytes(), sell.to_bytes());
    assert!(info.buy_order_log != info.sell_order_log);
    assert!(gd_market_info(&key(61), &raw, &markets, &program).is_none());
}

#[test]
fn envelopes() {
    let all = generate_publish_data("sol-usdc", 5u8, Some("42".to_string()));
    assert_eq!(all._type, "general");
    assert_eq!(all.market, "sol-usdc");
    assert_eq!(all.data, 5);
    assert_eq!(all.id, Some("42".to_string()));
    let one = generate_publish_uid_data("bonk", "x", 17);
    assert_eq!(one._type, 17);
    assert_eq!(one.market, "bonk");
    assert_eq!(one.data, "x");
}
