//! What a batch of trades becomes on its way out: the entries of the
//! recent-trades list, the last trade, the broadcast, and the order of the
//! steps that carry them.

use crate::market::{
    LastTradeData, MarketTrade, PublishAllData, TradeData, TradePublishData, TradesPublishData,
};
use vstd::prelude::*;

verus! {

/// Most entries that the recent-trades list of a market keeps.
pub const RECENT_TRADES_CAP: usize = 100;

/// A trade as an entry of the recent-trades list.
pub open spec fn trade_data_of(trade: MarketTrade) -> TradeData {
    TradeData {
        price: trade.avg_price,
        amount: trade.amount,
        market_buy: trade.market_buy == 1,
        timestamp: trade.timestamp,
    }
}

/// A trade as it is broadcast.
pub open spec fn publish_data_of(trade: MarketTrade) -> TradePublishData {
    TradePublishData {
        amount: trade.amount,
        price: trade.avg_price,
        price_lots: trade.avg_price_lots,
        amount_lots: trade.amount_lots,
        market_buy: trade.market_buy == 1,
        timestamp: trade.timestamp,
    }
}

/// The trades as entries of the recent-trades list, in order.
pub fn trade_datas(trades: &Vec<MarketTrade>) -> (r: Vec<TradeData>)
    ensures
        r@ == Seq::new(trades@.len(), |i: int| trade_data_of(trades@[i])),
{
    let mut out: Vec<TradeData> = Vec::new();
    let mut i: usize = 0;
    while i < trades.len()
        invariant
            i <= trades.len(),
            out@.len() == i,
            forall|k: int| 0 <= k < i ==> out@[k] == trade_data_of(trades@[k]),
        decreases trades.len() - i,
    {
        let trade = &trades[i];
        out.push(
            TradeData {
                price: trade.avg_price,
                amount: trade.amount,
                market_buy: trade.market_buy == 1,
                timestamp: trade.timestamp,
            },
        );
        i = i + 1;
    }
    assert(out@ =~= Seq::new(trades@.len(), |i: int| trade_data_of(trades@[i])));
    out
}

/// The last trade of a batch; `None` for a batch without trades.
pub fn last_trade_data(trades: &Vec<MarketTrade>) -> (r: Option<LastTradeData>)
    ensures
        r is Some <==> trades@.len() > 0,
        r matches Some(last) ==> last.price == trades@.last().avg_price && last.amount
            == trades@.last().amount && last.market_buy == (trades@.last().market_buy == 1)
            && last.timestamp == trades@.last().timestamp,
{
    if trades.len() == 0 {
        return None;
    }
    let trade = &trades[trades.len() - 1];
    Some(
        LastTradeData {
            price: trade.avg_price,
            amount: trade.amount,
            market_buy: trade.market_buy == 1,
            timestamp: trade.timestamp,
        },
    )
}

/// The batch as it is broadcast.
pub fn trades_publish_data(trades: &Vec<MarketTrade>) -> (r: TradesPublishData)
    ensures
        r.trades@ == Seq::new(trades@.len(), |i: int| publish_data_of(trades@[i])),
{
    let mut out: Vec<TradePublishData> = Vec::new();
    let mut i: usize = 0;
    while i < trades.len()
        invariant
            i <= trades.len(),
            out@.len() == i,
            forall|k: int| 0 <= k < i ==> out@[k] == publish_data_of(trades@[k]),
        decreases trades.len() - i,
    {
        let trade = &trades[i];
        out.push(
            TradePublishData {
                amount: trade.amount,
                price: trade.avg_price,
                price_lots: trade.avg_price_lots,
                amount_lots: trade.amount_lots,
                market_buy: trade.market_buy == 1,
                timestamp: trade.timestamp,
            },
        );
        i = i + 1;
    }
    assert(out@ =~= Seq::new(trades@.len(), |i: int| publish_data_of(trades@[i])));
    TradesPublishData { trades: out }
}

/// The envelope that broadcasts a batch: addressed to the market of the first
/// trade, and identified by the order of the first trade where it has one.
/// `None` for a batch without trades.
pub fn trades_envelope(trades: &Vec<MarketTrade>) -> (r: Option<PublishAllData<TradesPublishData>>)
    ensures
        r is Some <==> trades@.len() > 0,
        r matches Some(envelope) ==> envelope._type@ == "general"@ && envelope.market@
            == trades@[0].slug@ && envelope.id == trades@[0].order_id && envelope.data.trades@
            == Seq::new(trades@.len(), |i: int| publish_data_of(trades@[i])),
{
    if trades.len() == 0 {
        return None;
    }
    let first = &trades[0];
    let id = match &first.order_id {
        Some(text) => Some(text.clone()),
        None => None,
    };
    Some(
        PublishAllData {
            _type: "general".to_owned(),
            market: first.slug.clone(),
            data: trades_publish_data(trades),
            id,
        },
    )
}

/// How many trades of a batch enter the recent-trades list: all of them, or
/// the newest 100 of a larger batch.
pub open spec fn push_count(batch: nat) -> nat {
    if batch > RECENT_TRADES_CAP {
        RECENT_TRADES_CAP as nat
    } else {
        batch
    }
}

/// How many entries leave the tail of the recent-trades list before a batch
/// is pushed: as many as the list exceeds the room that the batch leaves.
pub open spec fn trim_count(existing: nat, batch: nat) -> nat {
    let room = (RECENT_TRADES_CAP - push_count(batch)) as nat;
    if existing > room {
        (existing - room) as nat
    } else {
        0
    }
}

/// The recent-trades list, newest first, after a batch: the trades of the
/// batch, the last one first, before the entries held, cut to the newest 100.
pub open spec fn recent_after<T>(list: Seq<T>, batch: Seq<T>) -> Seq<T> {
    let all = batch.reverse() + list;
    if all.len() <= RECENT_TRADES_CAP {
        all
    } else {
        all.take(RECENT_TRADES_CAP as int)
    }
}

/// What the list is after `trim_count` entries were popped from its tail and
/// the newest `push_count` trades of the batch were pushed at its head one by
/// one, oldest first.
pub open spec fn trimmed_and_pushed<T>(list: Seq<T>, batch: Seq<T>) -> Seq<T> {
    batch.subrange(batch.len() - push_count(batch.len()), batch.len() as int).reverse()
        + list.take(list.len() - trim_count(list.len(), batch.len()))
}

/// The list never holds more than 100 entries: after a batch it holds the 100
/// newest of the batch and the entries held, or all of them where they are
/// fewer. After a batch with a trade its head is the last trade of the batch.
/// Popping `trim_count` entries and pushing the newest `push_count` trades
/// gives exactly that list.
pub proof fn lemma_recent_after<T>(list: Seq<T>, batch: Seq<T>)
    ensures
        recent_after(list, batch).len() <= RECENT_TRADES_CAP,
        recent_after(list, batch).len() == if list.len() + batch.len() <= RECENT_TRADES_CAP {
            list.len() + batch.len()
        } else {
            RECENT_TRADES_CAP as nat
        },
        list.len() + batch.len() <= RECENT_TRADES_CAP ==> recent_after(list, batch)
            == batch.reverse() + list,
        batch.len() > 0 ==> recent_after(list, batch)[0] == batch.last(),
        trimmed_and_pushed(list, batch) == recent_after(list, batch),
{
    let all = batch.reverse() + list;
    let pushed = push_count(batch.len());
    let kept = list.len() - trim_count(list.len(), batch.len());
    let newest = batch.subrange(batch.len() - pushed, batch.len() as int).reverse();
    let built = trimmed_and_pushed(list, batch);
    let wanted = recent_after(list, batch);
    assert(built.len() == wanted.len());
    assert forall|i: int| 0 <= i < built.len() implies built[i] == wanted[i] by {
        if i < pushed {
            assert(built[i] == newest[i]);
            assert(newest[i] == batch[batch.len() - 1 - i]);
            assert(all[i] == batch.reverse()[i]);
        } else {
            assert(built[i] == list[i - pushed]);
            assert(pushed == batch.len());
            assert(all[i] == list[i - batch.len()]);
        }
    }
    assert(built =~= wanted);
}

/// What is done to the recent-trades list for a batch: how many entries are
/// popped from its tail, and how many trades of the batch, its newest, are
/// pushed at its head.
#[derive(Clone, Copy, Debug, PartialEq, Eq, Structural)]
pub struct RecentTrim {
    pub pop: usize,
    pub push: usize,
}

/// Plans the update of a recent-trades list of `existing` entries for a batch
/// of `batch` trades, so that the list holds the newest 100 entries at most.
pub fn recent_trades_trim(existing: usize, batch: usize) -> (r: RecentTrim)
    ensures
        r.pop == trim_count(existing as nat, batch as nat),
        r.push == push_count(batch as nat),
{
    let push: usize = if batch > RECENT_TRADES_CAP {
        RECENT_TRADES_CAP
    } else {
        batch
    };
    let room: usize = RECENT_TRADES_CAP - push;
    let pop: usize = if existing > room {
        existing - room
    } else {
        0
    };
    RecentTrim { pop, push }
}

/// Applies a batch to a recent-trades list held in memory, newest first.
pub fn apply_recent_trades(list: Vec<TradeData>, batch: &Vec<TradeData>) -> (r: Vec<TradeData>)
    ensures
        r@ == recent_after(list@, batch@),
{
    let trim = recent_trades_trim(list.len(), batch.len());
    let keep: usize = list.len() - trim.pop;
    let first: usize = batch.len() - trim.push;
    let ghost newest = batch@.subrange(first as int, batch@.len() as int).reverse();
    let mut out: Vec<TradeData> = Vec::new();
    let mut i: usize = batch.len();
    while i > first
        invariant
            first <= i <= batch.len(),
            out@.len() == batch.len() - i,
            forall|k: int| 0 <= k < out@.len() ==> out@[k] == batch@[batch.len() - 1 - k],
        decreases i,
    {
        i = i - 1;
        out.push(batch[i]);
    }
    assert(out@ =~= newest);
    let mut j: usize = 0;
    while j < keep
        invariant
            j <= keep <= list.len(),
            out@ == newest + list@.take(j as int),
        decreases keep - j,
    {
        out.push(list[j]);
        assert(list@.take(j + 1) =~= list@.take(j as int).push(list@[j as int]));
        assert(out@ =~= newest + list@.take(j + 1));
        j = j + 1;
    }
    proof {
        if keep == 0 {
            assert(list@.take(0) =~= Seq::<TradeData>::empty());
        }
        lemma_recent_after(list@, batch@);
    }
    out
}

/// The steps that carry a batch of trades out, in the order in which they run.
#[derive(Clone, Copy, Debug, PartialEq, Eq, Structural)]
pub enum FanoutStep {
    /// Write the last trade of the market to the cache.
    WriteLastTrade,
    /// Trim the recent-trades list and push the batch at its head.
    UpdateRecentTrades,
    /// Broadcast the batch.
    PublishTrades,
    /// Insert the trades into the store.
    InsertTrades,
    /// Fetch the market's summary, cache it and broadcast it.
    RefreshSummary,
    /// Update the market's entry of the price table, write the table back and
    /// broadcast it.
    UpdatePrices,
    /// Start one candle insertion per unit, without waiting for them.
    SpawnCandles,
    /// Nothing is left to do.
    Done,
}

impl FanoutStep {
    /// The step that a batch starts with.
    pub fn first() -> (r: FanoutStep)
        ensures
            r == FanoutStep::WriteLastTrade,
    {
        FanoutStep::WriteLastTrade
    }

    /// The step that follows this one. A failure ends the fan-out, but for
    /// the write of the last trade, whose failure is passed over.
    pub open spec fn spec_next(self, succeeded: bool) -> FanoutStep {
        match self {
            FanoutStep::WriteLastTrade => FanoutStep::UpdateRecentTrades,
            FanoutStep::UpdateRecentTrades => if succeeded {
                FanoutStep::PublishTrades
            } else {
                FanoutStep::Done
            },
            FanoutStep::PublishTrades => if succeeded {
                FanoutStep::InsertTrades
            } else {
                FanoutStep::Done
            },
            FanoutStep::InsertTrades => if succeeded {
                FanoutStep::RefreshSummary
            } else {
                FanoutStep::Done
            },
            FanoutStep::RefreshSummary => if succeeded {
                FanoutStep::UpdatePrices
            } else {
                FanoutStep::Done
            },
            FanoutStep::UpdatePrices => if succeeded {
                FanoutStep::SpawnCandles
            } else {
                FanoutStep::Done
            },
            FanoutStep::SpawnCandles => FanoutStep::Done,
            FanoutStep::Done => FanoutStep::Done,
        }
    }

    /// The step to take after this one has run, given whether it succeeded.
    pub fn next(self, succeeded: bool) -> (r: FanoutStep)
        ensures
            r == self.spec_next(succeeded),
    {
        match self {
            FanoutStep::WriteLastTrade => FanoutStep::UpdateRecentTrades,
            FanoutStep::UpdateRecentTrades => if succeeded {
                FanoutStep::PublishTrades
            } else {
                FanoutStep::Done
            },
            FanoutStep::PublishTrades => if succeeded {
                FanoutStep::InsertTrades
            } else {
                FanoutStep::Done
            },
            FanoutStep::InsertTrades => if succeeded {
                FanoutStep::RefreshSummary
            } else {
                FanoutStep::Done
            },
            FanoutStep::RefreshSummary => if succeeded {
                FanoutStep::UpdatePrices
            } else {
                FanoutStep::Done
            },
            FanoutStep::UpdatePrices => if succeeded {
                FanoutStep::SpawnCandles
            } else {
                FanoutStep::Done
            },
            FanoutStep::SpawnCandles => FanoutStep::Done,
            FanoutStep::Done => FanoutStep::Done,
        }
    }
}

} // verus!
