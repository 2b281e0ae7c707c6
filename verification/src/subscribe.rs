//! The decisions of the subscription controller: which markets are
//! configured, which accounts are subscribed, which market an update belongs
//! to, and what follows an event of the stream.

use crate::gigadex::GdMarketInfo;
use crate::market::MarketConfig;
use crate::openbook::ObMarketInfo;
use crate::pubkey::{base58_text, Pubkey};
use crate::text::{parse_u8, spec_parse_u8, DELAY_MILISEC};
use vstd::prelude::*;

verus! {

/// The fields of a market's entry in the cache, each as it was found.
#[derive(Clone, Debug)]
pub struct MarketInfoFields {
    pub name: Option<String>,
    pub slug: Option<String>,
    pub status: Option<String>,
    pub base_decimals: Option<String>,
    pub quote_decimals: Option<String>,
    pub gd_market_address: Option<String>,
    pub ob_market_address: Option<String>,
}

/// Why a market's entry cannot be read.
#[derive(Clone, Copy, Debug, PartialEq, Eq, Structural)]
pub enum ConfigError {
    /// The entry has a name and lacks the slug, the status or a decimal exponent.
    MissingField,
    /// A decimal exponent is no number below 256.
    BadDecimals,
}

/// What `market_config` owes for the fields of an entry: nothing for an entry
/// without a name; an error for a named entry that lacks a field or whose
/// exponents do not read; the exponents otherwise.
pub open spec fn config_outcome(fields: MarketInfoFields) -> Result<Option<(u8, u8)>, ConfigError> {
    if fields.name is None {
        Ok(None)
    } else if fields.base_decimals is None || fields.quote_decimals is None || fields.slug is None
        || fields.status is None {
        Err(ConfigError::MissingField)
    } else {
        match (
            spec_parse_u8(fields.base_decimals.unwrap()@),
            spec_parse_u8(fields.quote_decimals.unwrap()@),
        ) {
            (Some(base), Some(quote)) => Ok(Some((base, quote))),
            _ => Err(ConfigError::BadDecimals),
        }
    }
}

/// Reads one market's configuration from the fields of its cache entry. An
/// entry without a name is passed over.
pub fn market_config(fields: MarketInfoFields) -> (r: Result<Option<MarketConfig>, ConfigError>)
    ensures
        match r {
            Ok(None) => config_outcome(fields) == Ok::<Option<(u8, u8)>, ConfigError>(None),
            Ok(Some(config)) => config_outcome(fields) == Ok::<Option<(u8, u8)>, ConfigError>(
                Some((config.base_decimals, config.quote_decimals)),
            ) && Some(config.name) == fields.name && Some(config.slug) == fields.slug && Some(
                config.status,
            ) == fields.status && config.gd_market_address == fields.gd_market_address
                && config.ob_market_address == fields.ob_market_address,
            Err(e) => config_outcome(fields) == Err::<Option<(u8, u8)>, ConfigError>(e),
        },
{
    let name = match fields.name {
        Some(name) => name,
        None => {
            return Ok(None);
        },
    };
    let base_text = match fields.base_decimals {
        Some(text) => text,
        None => {
            return Err(ConfigError::MissingField);
        },
    };
    let quote_text = match fields.quote_decimals {
        Some(text) => text,
        None => {
            return Err(ConfigError::MissingField);
        },
    };
    let slug = match fields.slug {
        Some(slug) => slug,
        None => {
            return Err(ConfigError::MissingField);
        },
    };
    let status = match fields.status {
        Some(status) => status,
        None => {
            return Err(ConfigError::MissingField);
        },
    };
    let base_decimals = match parse_u8(base_text.as_str()) {
        Some(value) => value,
        None => {
            return Err(ConfigError::BadDecimals);
        },
    };
    let quote_decimals = match parse_u8(quote_text.as_str()) {
        Some(value) => value,
        None => {
            return Err(ConfigError::BadDecimals);
        },
    };
    Ok(
        Some(
            MarketConfig {
                name,
                slug,
                ob_market_address: fields.ob_market_address,
                gd_market_address: fields.gd_market_address,
                base_decimals,
                quote_decimals,
                status,
            },
        ),
    )
}

/// The accounts of an order-book market that are subscribed: asks, bids and
/// the event queue, as base58 text.
pub open spec fn ob_accounts(market: ObMarketInfo) -> Seq<Seq<char>> {
    seq![
        base58_text(market.asks@),
        base58_text(market.bids@),
        base58_text(market.event_queue@),
    ]
}

/// The accounts of a market of the second venue that are subscribed: asks,
/// bids, balances, buy log and sell log, as base58 text.
pub open spec fn gd_accounts(market: GdMarketInfo) -> Seq<Seq<char>> {
    seq![
        base58_text(market.asks@),
        base58_text(market.bids@),
        base58_text(market.balances@),
        base58_text(market.buy_order_log@),
        base58_text(market.sell_order_log@),
    ]
}

/// The accounts of all order-book markets, market by market.
pub open spec fn all_ob_accounts(markets: Seq<ObMarketInfo>) -> Seq<Seq<char>>
    decreases markets.len(),
{
    if markets.len() == 0 {
        Seq::empty()
    } else {
        all_ob_accounts(markets.drop_last()) + ob_accounts(markets.last())
    }
}

/// The accounts of all markets of the second venue, market by market.
pub open spec fn all_gd_accounts(markets: Seq<GdMarketInfo>) -> Seq<Seq<char>>
    decreases markets.len(),
{
    if markets.len() == 0 {
        Seq::empty()
    } else {
        all_gd_accounts(markets.drop_last()) + gd_accounts(markets.last())
    }
}

/// The texts of the strings.
pub open spec fn texts(accounts: Seq<String>) -> Seq<Seq<char>> {
    Seq::new(accounts.len(), |i: int| accounts[i]@)
}

/// The accounts to subscribe: those of every order-book market, then those of
/// every market of the second venue.
pub fn subscription_accounts(ob_markets: &Vec<ObMarketInfo>, gd_markets: &Vec<GdMarketInfo>) -> (r:
    Vec<String>)
    ensures
        texts(r@) == all_ob_accounts(ob_markets@) + all_gd_accounts(gd_markets@),
{
    let mut accounts: Vec<String> = Vec::new();
    let mut i: usize = 0;
    assert(texts(accounts@) =~= all_ob_accounts(ob_markets@.take(0)));
    while i < ob_markets.len()
        invariant
            i <= ob_markets.len(),
            texts(accounts@) == all_ob_accounts(ob_markets@.take(i as int)),
        decreases ob_markets.len() - i,
    {
        let market = &ob_markets[i];
        let ghost before = texts(accounts@);
        accounts.push(market.asks.to_base58());
        accounts.push(market.bids.to_base58());
        accounts.push(market.event_queue.to_base58());
        proof {
            let next = ob_markets@.take(i + 1);
            assert(next.drop_last() =~= ob_markets@.take(i as int));
            assert(next.last() == *market);
            assert(texts(accounts@) =~= before + ob_accounts(*market));
        }
        i = i + 1;
    }
    assert(ob_markets@.take(i as int) =~= ob_markets@);
    let ghost first = texts(accounts@);
    let mut j: usize = 0;
    assert(texts(accounts@) =~= first + all_gd_accounts(gd_markets@.take(0)));
    while j < gd_markets.len()
        invariant
            j <= gd_markets.len(),
            texts(accounts@) == first + all_gd_accounts(gd_markets@.take(j as int)),
        decreases gd_markets.len() - j,
    {
        let market = &gd_markets[j];
        let ghost before = texts(accounts@);
        accounts.push(market.asks.to_base58());
        accounts.push(market.bids.to_base58());
        accounts.push(market.balances.to_base58());
        accounts.push(market.buy_order_log.to_base58());
        accounts.push(market.sell_order_log.to_base58());
        proof {
            let next = gd_markets@.take(j + 1);
            assert(next.drop_last() =~= gd_markets@.take(j as int));
            assert(next.last() == *market);
            assert(texts(accounts@) =~= before + gd_accounts(*market));
            assert(texts(accounts@) =~= first + (all_gd_accounts(gd_markets@.take(j as int))
                + gd_accounts(*market)));
        }
        j = j + 1;
    }
    assert(gd_markets@.take(j as int) =~= gd_markets@);
    accounts
}

/// Whether `account` feeds the order-book market.
pub open spec fn feeds_ob(market: ObMarketInfo, account: Pubkey) -> bool {
    account@ == market.bids@ || account@ == market.asks@ || account@ == market.event_queue@
}

/// Whether `account` feeds the market of the second venue.
pub open spec fn feeds_gd(market: GdMarketInfo, account: Pubkey) -> bool {
    account@ == market.bids@ || account@ == market.asks@ || account@ == market.balances@
        || account@ == market.buy_order_log@ || account@ == market.sell_order_log@
}

/// The first order-book market that `account` feeds.
pub fn find_ob_market(markets: &Vec<ObMarketInfo>, account: &Pubkey) -> (r: Option<usize>)
    ensures
        match r {
            Some(index) => index < markets@.len() && feeds_ob(markets@[index as int], *account)
                && forall|k: int| 0 <= k < index ==> !feeds_ob(#[trigger] markets@[k], *account),
            None => forall|k: int| 0 <= k < markets@.len() ==> !feeds_ob(
                #[trigger] markets@[k],
                *account,
            ),
        },
{
    let mut i: usize = 0;
    while i < markets.len()
        invariant
            i <= markets.len(),
            forall|k: int| 0 <= k < i ==> !feeds_ob(#[trigger] markets@[k], *account),
        decreases markets.len() - i,
    {
        if markets[i].is_valid_account(account) {
            return Some(i);
        }
        i = i + 1;
    }
    None
}

/// The first market of the second venue that `account` feeds.
pub fn find_gd_market(markets: &Vec<GdMarketInfo>, account: &Pubkey) -> (r: Option<usize>)
    ensures
        match r {
            Some(index) => index < markets@.len() && feeds_gd(markets@[index as int], *account)
                && forall|k: int| 0 <= k < index ==> !feeds_gd(#[trigger] markets@[k], *account),
            None => forall|k: int| 0 <= k < markets@.len() ==> !feeds_gd(
                #[trigger] markets@[k],
                *account,
            ),
        },
{
    let mut i: usize = 0;
    while i < markets.len()
        invariant
            i <= markets.len(),
            forall|k: int| 0 <= k < i ==> !feeds_gd(#[trigger] markets@[k], *account),
        decreases markets.len() - i,
    {
        if markets[i].is_valid_account(account) {
            return Some(i);
        }
        i = i + 1;
    }
    None
}

/// The parser that an account update goes to.
#[derive(Clone, Copy, Debug, PartialEq, Eq, Structural)]
pub enum Route {
    /// The order-book market with this index.
    Ob(usize),
    /// The market of the second venue with this index.
    Gd(usize),
    /// No market is fed by the account.
    Unrouted,
}

/// Routes an account update to exactly one parser: to the first order-book
/// market that the account feeds; where there is none, to the first market of
/// the second venue that it feeds; and to none where no market is fed by it.
pub fn route_update(
    ob_markets: &Vec<ObMarketInfo>,
    gd_markets: &Vec<GdMarketInfo>,
    account: &Pubkey,
) -> (r: Route)
    ensures
        match r {
            Route::Ob(i) => i < ob_markets@.len() && feeds_ob(ob_markets@[i as int], *account)
                && forall|k: int| 0 <= k < i ==> !feeds_ob(#[trigger] ob_markets@[k], *account),
            Route::Gd(j) => (forall|k: int|
                0 <= k < ob_markets@.len() ==> !feeds_ob(#[trigger] ob_markets@[k], *account)) && j
                < gd_markets@.len() && feeds_gd(gd_markets@[j as int], *account) && forall|k: int|
                0 <= k < j ==> !feeds_gd(#[trigger] gd_markets@[k], *account),
            Route::Unrouted => (forall|k: int|
                0 <= k < ob_markets@.len() ==> !feeds_ob(#[trigger] ob_markets@[k], *account))
                && forall|k: int|
                0 <= k < gd_markets@.len() ==> !feeds_gd(#[trigger] gd_markets@[k], *account),
        },
{
    match find_ob_market(ob_markets, account) {
        Some(i) => Route::Ob(i),
        None => match find_gd_market(gd_markets, account) {
            Some(j) => Route::Gd(j),
            None => Route::Unrouted,
        },
    }
}

/// What the stream delivered.
#[derive(Clone, Copy, Debug, PartialEq, Eq, Structural)]
pub enum StreamEvent {
    /// An account update.
    Account,
    /// A message that is no account update.
    Other,
    /// An error of the stream.
    Error,
    /// The end of the stream.
    Closed,
}

/// What the controller does next.
#[derive(Clone, Copy, Debug, PartialEq, Eq, Structural)]
pub enum StreamAction {
    /// Hand the update to the parsers of the markets that it feeds.
    Dispatch,
    /// Read the next message.
    Continue,
    /// Wait the given number of milliseconds, then read on.
    Backoff(u64),
    /// Open the subscription again with the same request.
    Resubscribe,
}

/// Decides what follows an event of the stream: an update is dispatched, any
/// other message is passed over, an error is waited out for 100 ms, and a
/// closed stream is opened again.
pub fn on_stream_event(event: StreamEvent) -> (r: StreamAction)
    ensures
        r == match event {
            StreamEvent::Account => StreamAction::Dispatch,
            StreamEvent::Other => StreamAction::Continue,
            StreamEvent::Error => StreamAction::Backoff(DELAY_MILISEC),
            StreamEvent::Closed => StreamAction::Resubscribe,
        },
{
    match event {
        StreamEvent::Account => StreamAction::Dispatch,
        StreamEvent::Other => StreamAction::Continue,
        StreamEvent::Error => StreamAction::Backoff(DELAY_MILISEC),
        StreamEvent::Closed => StreamAction::Resubscribe,
    }
}

} // verus!
