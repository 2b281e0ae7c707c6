//! The records that the engine builds for the cache, the bus and the store.

use crate::decimal::DecimalValue;
use vstd::prelude::*;

verus! {

/// A market as the markets listing names it.
#[derive(Clone, Debug, PartialEq, Eq)]
pub struct Market {
    pub name: String,
    pub slug: String,
}

/// The markets listing.
#[derive(Clone, Debug, PartialEq, Eq)]
pub struct MarketsResponse {
    pub message: Vec<Market>,
}

/// One configured market: its slug and display name, its status, the venue
/// accounts that it is bound to, and the decimal exponents of its two tokens.
#[derive(Clone, Debug, PartialEq, Eq)]
pub struct MarketConfig {
    pub name: String,
    pub slug: String,
    pub ob_market_address: Option<String>,
    pub gd_market_address: Option<String>,
    pub base_decimals: u8,
    pub quote_decimals: u8,
    pub status: String,
}

/// One price level of a depth book: price and size in lots, and both in
/// human-readable units.
#[derive(Clone, Copy, Debug, PartialEq, Eq, Structural)]
pub struct MarketOrder {
    pub price: DecimalValue,
    pub amount: DecimalValue,
    pub price_lots: u64,
    pub size_lots: u64,
}

/// The depth book of a market: asks ascending, bids descending.
#[derive(Clone, Debug, PartialEq, Eq)]
pub struct MarketOrders {
    pub asks: Vec<MarketOrder>,
    pub bids: Vec<MarketOrder>,
}

/// A depth book with the slot of the account update that produced it.
#[derive(Clone, Debug, PartialEq, Eq)]
pub struct MarketSendData {
    pub order_book: MarketOrders,
    pub slot: u64,
}

/// One trade as it is stored.
#[derive(Clone, Debug, PartialEq, Eq)]
pub struct MarketTrade {
    pub slug: String,
    pub order_id: Option<String>,
    pub market_buy: u8,
    pub avg_price: DecimalValue,
    pub amount: DecimalValue,
    pub timestamp: u64,
    pub market_address: String,
    pub blocktime: u64,
    pub index: u64,
    pub avg_price_lots: DecimalValue,
    pub amount_lots: DecimalValue,
    pub slot: u64,
    pub transaction_signature: String,
}

/// One order-book event as it is stored.
#[derive(Clone, Debug, PartialEq, Eq)]
pub struct EventData {
    pub event: String,
    pub user: String,
    pub amount: DecimalValue,
    pub price: DecimalValue,
    pub tx: String,
    pub market: String,
    pub filled: bool,
}

/// One trade in the recent-trades list.
#[derive(Clone, Copy, Debug, PartialEq, Eq, Structural)]
pub struct TradeData {
    pub price: DecimalValue,
    pub amount: DecimalValue,
    pub market_buy: bool,
    pub timestamp: u64,
}

/// The last trade of a market.
#[derive(Clone, Copy, Debug, PartialEq, Eq, Structural)]
pub struct LastTradeData {
    pub price: DecimalValue,
    pub amount: DecimalValue,
    pub market_buy: bool,
    pub timestamp: u64,
}

/// One trade as it is broadcast.
#[derive(Clone, Copy, Debug, PartialEq, Eq, Structural)]
pub struct TradePublishData {
    pub amount: DecimalValue,
    pub price: DecimalValue,
    pub price_lots: DecimalValue,
    pub amount_lots: DecimalValue,
    pub market_buy: bool,
    pub timestamp: u64,
}

/// A batch of trades as it is broadcast.
#[derive(Clone, Debug, PartialEq, Eq)]
pub struct TradesPublishData {
    pub trades: Vec<TradePublishData>,
}

/// An envelope on the shared channel that every subscriber of a market reads.
#[derive(Clone, Debug)]
pub struct PublishAllData<F> {
    pub _type: String,
    pub market: String,
    pub data: F,
    pub id: Option<String>,
}

/// An envelope on the shared channel that is addressed to one user of a market.
#[derive(Clone, Debug)]
pub struct PublishUidData<F> {
    pub _type: u64,
    pub market: String,
    pub data: F,
}

/// The envelope for `data`, addressed to all subscribers of `market`.
pub fn generate_publish_data<F>(market: &str, data: F, id: Option<String>) -> (r: PublishAllData<F>)
    ensures
        r._type@ == "general"@,
        r.market@ == market@,
        r.data == data,
        r.id == id,
{
    PublishAllData { _type: "general".to_owned(), market: market.to_owned(), data, id }
}

/// The envelope for `data`, addressed to user `uid` of `market`.
pub fn generate_publish_uid_data<F>(market: &str, data: F, uid: u64) -> (r: PublishUidData<F>)
    ensures
        r._type == uid,
        r.market@ == market@,
        r.data == data,
{
    PublishUidData { _type: uid, market: market.to_owned(), data }
}

} // verus!
