//! Market descriptors: what the configured markets and the market accounts of
//! the two venues say together.

use crate::gigadex::{GdMarketInfo, GdMarketState};
use crate::market::MarketConfig;
use crate::openbook::{ObMarketInfo, ObMarketState};
use crate::pubkey::{
    array_to_pubkey, base58_text, derived_address, words_bytes, ParsePubkeyError, Pubkey,
};
use vstd::prelude::*;
use vstd::string::*;

verus! {

/// The multiplier of the prices of every market of the second venue.
pub const GD_PRICE_MULTIPLIER: u64 = 1_000_000;

/// Bytes of a token mint account.
pub const MINT_LEN: usize = 82;

/// Where a mint account holds the token's decimal exponent.
pub const MINT_DECIMALS_OFFSET: usize = 44;

/// The venue of a market account.
#[derive(Clone, Copy, Debug, PartialEq, Eq, Structural)]
pub enum Venue {
    Openbook,
    Gigadex,
}

/// The address text that a configuration names for a venue.
pub open spec fn venue_address(config: MarketConfig, venue: Venue) -> Option<String> {
    match venue {
        Venue::Openbook => config.ob_market_address,
        Venue::Gigadex => config.gd_market_address,
    }
}

/// The addresses of the market accounts of a venue: for each configuration
/// that names one, the address that its text stands for, in order; or the
/// error of the first text that is no address.
pub open spec fn venue_keys(markets: Seq<MarketConfig>, venue: Venue) -> Result<
    Seq<Seq<u8>>,
    ParsePubkeyError,
>
    decreases markets.len(),
{
    if markets.len() == 0 {
        Ok(Seq::empty())
    } else {
        match venue_keys(markets.drop_last(), venue) {
            Err(e) => Err(e),
            Ok(keys) => match venue_address(markets.last(), venue) {
                None => Ok(keys),
                Some(text) => match Pubkey::spec_from_base58(text@) {
                    Ok(key) => Ok(keys.push(key)),
                    Err(e) => Err(e),
                },
            },
        }
    }
}

/// An error among the first configurations is the error of all of them.
proof fn lemma_venue_keys_prefix(markets: Seq<MarketConfig>, venue: Venue, i: int)
    requires
        0 <= i <= markets.len(),
        venue_keys(markets.take(i), venue) is Err,
    ensures
        venue_keys(markets, venue) == venue_keys(markets.take(i), venue),
    decreases markets.len() - i,
{
    if i == markets.len() {
        assert(markets.take(i) =~= markets);
    } else {
        let next = markets.take(i + 1);
        assert(next.drop_last() =~= markets.take(i));
        lemma_venue_keys_prefix(markets, venue, i + 1);
    }
}

/// The bytes of each key.
pub open spec fn key_bytes(keys: Seq<Pubkey>) -> Seq<Seq<u8>> {
    Seq::new(keys.len(), |i: int| keys[i]@)
}

/// Reads the addresses of the market accounts of a venue from the
/// configurations.
pub fn market_keys(markets: &Vec<MarketConfig>, venue: Venue) -> (r: Result<
    Vec<Pubkey>,
    ParsePubkeyError,
>)
    ensures
        match r {
            Ok(keys) => venue_keys(markets@, venue) == Ok::<Seq<Seq<u8>>, ParsePubkeyError>(
                key_bytes(keys@),
            ),
            Err(e) => venue_keys(markets@, venue) == Err::<Seq<Seq<u8>>, ParsePubkeyError>(e),
        },
{
    let mut keys: Vec<Pubkey> = Vec::new();
    let mut i: usize = 0;
    assert(key_bytes(keys@) =~= Seq::<Seq<u8>>::empty());
    while i < markets.len()
        invariant
            i <= markets.len(),
            venue_keys(markets@.take(i as int), venue) == Ok::<Seq<Seq<u8>>, ParsePubkeyError>(
                key_bytes(keys@),
            ),
        decreases markets.len() - i,
    {
        let config = &markets[i];
        proof {
            let next = markets@.take(i + 1);
            assert(next.drop_last() =~= markets@.take(i as int));
            assert(next.last() == *config);
        }
        let address = match venue {
            Venue::Openbook => &config.ob_market_address,
            Venue::Gigadex => &config.gd_market_address,
        };
        match address {
            None => {},
            Some(text) => {
                match Pubkey::from_base58(text.as_str()) {
                    Ok(key) => {
                        let ghost before = key_bytes(keys@);
                        keys.push(key);
                        assert(key_bytes(keys@) =~= before.push(key@));
                    },
                    Err(e) => {
                        proof {
                            lemma_venue_keys_prefix(markets@, venue, i + 1);
                        }
                        return Err(e);
                    },
                }
            },
        }
        i = i + 1;
    }
    assert(markets@.take(i as int) =~= markets@);
    Ok(keys)
}

/// Whether the configuration names `address` for the venue.
pub open spec fn names_address(config: MarketConfig, venue: Venue, address: Seq<char>) -> bool {
    match venue_address(config, venue) {
        Some(text) => text@ == address,
        None => address.len() == 0,
    }
}

/// The first configuration that names the address for the venue. A
/// configuration that names no address for the venue counts as naming the
/// empty text.
pub fn find_config(markets: &Vec<MarketConfig>, venue: Venue, address: &str) -> (r: Option<usize>)
    ensures
        match r {
            Some(index) => index < markets@.len() && names_address(
                markets@[index as int],
                venue,
                address@,
            ) && forall|k: int|
                0 <= k < index ==> !names_address(#[trigger] markets@[k], venue, address@),
            None => forall|k: int|
                0 <= k < markets@.len() ==> !names_address(#[trigger] markets@[k], venue, address@),
        },
{
    let mut i: usize = 0;
    while i < markets.len()
        invariant
            i <= markets.len(),
            forall|k: int| 0 <= k < i ==> !names_address(#[trigger] markets@[k], venue, address@),
        decreases markets.len() - i,
    {
        let config = &markets[i];
        let named = match venue {
            Venue::Openbook => &config.ob_market_address,
            Venue::Gigadex => &config.gd_market_address,
        };
        let found = match named {
            Some(text) => same_text(text.as_str(), address),
            None => address.unicode_len() == 0,
        };
        if found {
            return Some(i);
        }
        i = i + 1;
    }
    None
}

/// Whether two texts are the same.
pub fn same_text(a: &str, b: &str) -> (r: bool)
    ensures
        r == (a@ == b@),
{
    let n = a.unicode_len();
    if n != b.unicode_len() {
        return false;
    }
    let mut i: usize = 0;
    while i < n
        invariant
            i <= n,
            n == a@.len(),
            n == b@.len(),
            forall|k: int| 0 <= k < i ==> a@[k] == b@[k],
        decreases n - i,
    {
        if a.get_char(i) != b.get_char(i) {
            return false;
        }
        i = i + 1;
    }
    assert(a@ =~= b@);
    true
}

/// Whether `info` describes the order-book market of record `raw`, named by
/// the configuration `config`: its accounts and lot sizes are those of the
/// record, and its decimal exponents are still to be read from its mints.
pub open spec fn describes_ob(info: ObMarketInfo, raw: ObMarketState, config: MarketConfig) -> bool {
    &&& info.name@ == config.slug@
    &&& info.address@ == words_bytes(raw.own_address@)
    &&& info.base_mint@ == words_bytes(raw.coin_mint@)
    &&& info.quote_mint@ == words_bytes(raw.pc_mint@)
    &&& info.bids@ == words_bytes(raw.bids@)
    &&& info.asks@ == words_bytes(raw.asks@)
    &&& info.event_queue@ == words_bytes(raw.event_q@)
    &&& info.base_decimals == 0
    &&& info.quote_decimals == 0
    &&& info.base_lot_size == raw.coin_lot_size
    &&& info.quote_lot_size == raw.pc_lot_size
}

/// Describes the order-book market of a market record: it is named by the
/// first configuration whose order-book address is the base58 text of the
/// record's own address. `None` where no configuration names it.
pub fn ob_market_info(raw: &ObMarketState, markets: &Vec<MarketConfig>) -> (r: Option<ObMarketInfo>)
    ensures
        match r {
            Some(info) => exists|index: int|
                0 <= index < markets@.len() && names_address(
                    #[trigger] markets@[index],
                    Venue::Openbook,
                    base58_text(words_bytes(raw.own_address@)),
                ) && (forall|k: int|
                    0 <= k < index ==> !names_address(
                        #[trigger] markets@[k],
                        Venue::Openbook,
                        base58_text(words_bytes(raw.own_address@)),
                    )) && describes_ob(info, *raw, markets@[index]),
            None => forall|k: int|
                0 <= k < markets@.len() ==> !names_address(
                    #[trigger] markets@[k],
                    Venue::Openbook,
                    base58_text(words_bytes(raw.own_address@)),
                ),
        },
{
    let address = array_to_pubkey(raw.own_address);
    let text = address.to_base58();
    match find_config(markets, Venue::Openbook, text.as_str()) {
        None => None,
        Some(index) => {
            let info = ObMarketInfo {
                name: markets[index].slug.clone(),
                address,
                base_mint: array_to_pubkey(raw.coin_mint),
                quote_mint: array_to_pubkey(raw.pc_mint),
                bids: array_to_pubkey(raw.bids),
                asks: array_to_pubkey(raw.asks),
                event_queue: array_to_pubkey(raw.event_q),
                base_decimals: 0,
                quote_decimals: 0,
                base_lot_size: raw.coin_lot_size,
                quote_lot_size: raw.pc_lot_size,
            };
            assert(describes_ob(info, *raw, markets@[index as int]));
            Some(info)
        },
    }
}

/// The decimal exponent of a token, read from its mint account. `None` for an
/// account that is too short to be a mint.
pub fn mint_decimals(data: &[u8]) -> (r: Option<u8>)
    ensures
        r == if data@.len() >= MINT_LEN {
            Some(data@[MINT_DECIMALS_OFFSET as int])
        } else {
            None
        },
{
    if data.len() < MINT_LEN {
        None
    } else {
        Some(data[MINT_DECIMALS_OFFSET])
    }
}

/// The exponent listed for `mint`; `None` where none is listed.
pub fn decimals_of(mints: &Vec<(Pubkey, u8)>, mint: &Pubkey) -> (r: Option<u8>)
    ensures
        match r {
            Some(d) => exists|k: int|
                0 <= k < mints@.len() && (#[trigger] mints@[k]).0@ == mint@ && mints@[k].1 == d
                    && forall|j: int| 0 <= j < k ==> (#[trigger] mints@[j]).0@ != mint@,
            None => forall|k: int| 0 <= k < mints@.len() ==> (#[trigger] mints@[k]).0@ != mint@,
        },
{
    let mut i: usize = 0;
    while i < mints.len()
        invariant
            i <= mints.len(),
            forall|k: int| 0 <= k < i ==> (#[trigger] mints@[k]).0@ != mint@,
        decreases mints.len() - i,
    {
        if mints[i].0 == *mint {
            return Some(mints[i].1);
        }
        i = i + 1;
    }
    None
}

/// Whether `info` describes the market of the second venue at `address` with
/// record `raw`, named by the configuration `config`.
pub open spec fn describes_gd(
    info: GdMarketInfo,
    address: Pubkey,
    raw: GdMarketState,
    config: MarketConfig,
    program: Pubkey,
) -> bool {
    &&& info.name@ == config.slug@
    &&& info.address@ == address@
    &&& info.base_decimals == config.base_decimals
    &&& info.quote_decimals == config.quote_decimals
    &&& info.asks@ == raw.asks@
    &&& info.bids@ == raw.bids@
    &&& info.balances@ == raw.balances@
    &&& derived_address(seq![address@, buy_log_seed()], program@) == Some(info.buy_order_log@)
    &&& derived_address(seq![address@, sell_log_seed()], program@) == Some(info.sell_order_log@)
    &&& info.multiplier == GD_PRICE_MULTIPLIER
}

/// The seed of the buy log's address.
pub open spec fn buy_log_seed() -> Seq<u8> {
    crate::text::BUY_LOG_PDA_SEED.spec_bytes()
}

/// The seed of the sell log's address.
pub open spec fn sell_log_seed() -> Seq<u8> {
    crate::text::SELL_LOG_PDA_SEED.spec_bytes()
}

/// Describes the market of the second venue at `address`: its accounts are
/// those of its record, its two trade logs are derived for `program` from the
/// market's address and the log's seed, and its name and decimal exponents
/// are those of the first configuration whose address for the venue is the
/// base58 text of `address`. `None` where no configuration names it, and
/// where a log address cannot be derived.
pub fn gd_market_info(
    address: &Pubkey,
    raw: &GdMarketState,
    markets: &Vec<MarketConfig>,
    program: &Pubkey,
) -> (r: Option<GdMarketInfo>)
    ensures
        r matches Some(info) ==> exists|index: int|
            0 <= index < markets@.len() && names_address(
                #[trigger] markets@[index],
                Venue::Gigadex,
                base58_text(address@),
            ) && (forall|k: int|
                0 <= k < index ==> !names_address(
                    #[trigger] markets@[k],
                    Venue::Gigadex,
                    base58_text(address@),
                )) && describes_gd(info, *address, *raw, markets@[index], *program),
        r is None ==> (forall|k: int|
            0 <= k < markets@.len() ==> !names_address(
                #[trigger] markets@[k],
                Venue::Gigadex,
                base58_text(address@),
            )) || derived_address(seq![address@, buy_log_seed()], program@) is None
            || derived_address(seq![address@, sell_log_seed()], program@) is None,
{
    let key = address.to_bytes();
    let buy_order_log = match Pubkey::derive(
        key.as_slice(),
        crate::text::BUY_LOG_PDA_SEED.as_bytes(),
        program,
    ) {
        Some(k) => k,
        None => {
            return None;
        },
    };
    let sell_order_log = match Pubkey::derive(
        key.as_slice(),
        crate::text::SELL_LOG_PDA_SEED.as_bytes(),
        program,
    ) {
        Some(k) => k,
        None => {
            return None;
        },
    };
    let text = address.to_base58();
    match find_config(markets, Venue::Gigadex, text.as_str()) {
        None => None,
        Some(index) => {
            let config = &markets[index];
            let info = GdMarketInfo {
                name: config.slug.clone(),
                address: *address,
                bids: raw.bids,
                asks: raw.asks,
                balances: raw.balances,
                buy_order_log,
                sell_order_log,
                base_decimals: config.base_decimals,
                quote_decimals: config.quote_decimals,
                multiplier: GD_PRICE_MULTIPLIER,
            };
            assert(describes_gd(info, *address, *raw, markets@[index as int], *program));
            Some(info)
        },
    }
}

} // verus!
