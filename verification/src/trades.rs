//! Trades: their derivation from the fills of the order-book venue and from
//! the trade log of the second venue, the set of fills already recorded, and
//! what a batch of trades becomes on its way to the cache and the bus.

use crate::decimal::{
    decimal_product, decimal_quotient, decimal_rounded, div_or_zero, divide_integers,
    mul_or_zero, or_zero, pow10, pow10_u64, quotient_of, round, token_factor, DecimalValue,
    Unpriced, MAX_TOKEN_DECIMALS,
};
use crate::events::{EventView, Side};
use crate::gigadex::{
    base_lots_to_number, factor_of, price_lots_to_number, spec_base_lots_to_number,
    spec_price_lots_to_number, GdMarketInfo, GdMarketOrderLog,
};
use crate::market::MarketTrade;
use crate::openbook::ObMarketInfo;
use crate::pubkey::base58_text;
use crate::text::{decimal_text, u128_to_string};
use std::collections::HashSet;
use vstd::prelude::*;

verus! {

broadcast use vstd::std_specs::hash::group_hash_axioms;

/// One maker fill: what the resting order paid and received, the fee or
/// rebate, and the order's id.
#[derive(Clone, Copy, Debug, PartialEq, Eq, Structural)]
pub struct Fill {
    pub side: Side,
    pub native_qty_paid: u64,
    pub native_qty_received: u64,
    pub native_fee_or_rebate: u64,
    pub order_id: u128,
}

/// The maker fill that an event stands for; `None` for a taker fill and for
/// an event that is no fill.
pub open spec fn maker_fill(view: EventView) -> Option<Fill> {
    match view {
        EventView::Fill {
            side,
            maker,
            native_qty_paid,
            native_qty_received,
            native_fee_or_rebate,
            order_id,
            ..
        } => if maker {
            Some(Fill { side, native_qty_paid, native_qty_received, native_fee_or_rebate, order_id })
        } else {
            None
        },
        _ => None,
    }
}

/// Reads an event as a maker fill.
pub fn as_maker_fill(view: &EventView) -> (r: Option<Fill>)
    ensures
        r == maker_fill(*view),
{
    match view {
        EventView::Fill {
            side,
            maker,
            native_qty_paid,
            native_qty_received,
            native_fee_or_rebate,
            order_id,
            ..
        } => if *maker {
            Some(
                Fill {
                    side: *side,
                    native_qty_paid: *native_qty_paid,
                    native_qty_received: *native_qty_received,
                    native_fee_or_rebate: *native_fee_or_rebate,
                    order_id: *order_id,
                },
            )
        } else {
            None
        },
        _ => None,
    }
}

impl Fill {
    /// What was paid for the fill before fees: for a bid what was paid plus
    /// the rebate, for an ask what was received less the rebate.
    pub open spec fn raw_quantity(self) -> int {
        match self.side {
            Side::Bid => self.native_qty_paid + self.native_fee_or_rebate,
            Side::Ask => self.native_qty_received - self.native_fee_or_rebate,
        }
    }

    /// The quantity on the other side of the fill: for a bid what was
    /// received, for an ask what was paid.
    pub open spec fn counter_quantity(self) -> u64 {
        match self.side {
            Side::Bid => self.native_qty_received,
            Side::Ask => self.native_qty_paid,
        }
    }

    /// The price of the fill: the decimal quotient of
    /// `raw_quantity * 10^base_decimals` by
    /// `10^quote_decimals * counter_quantity`. `None` where an exponent is
    /// above 19, where the raw quantity does not fit in 64 bits, where one of
    /// the two integers needs more than 96 bits, and where the division gives
    /// none.
    pub open spec fn price(self, market: ObMarketInfo) -> Option<DecimalValue> {
        if market.base_decimals > MAX_TOKEN_DECIMALS || market.quote_decimals
            > MAX_TOKEN_DECIMALS {
            None
        } else if self.raw_quantity() < 0 || self.raw_quantity() > u64::MAX {
            None
        } else {
            quotient_of(
                self.raw_quantity() * pow10(market.base_decimals as nat),
                pow10(market.quote_decimals as nat) * self.counter_quantity(),
            )
        }
    }

    /// The price in lots: the price times the quote factor, times the base
    /// lot size, divided by the base factor, divided by the quote lot size,
    /// rounded to an integer; each step in decimal arithmetic and in this
    /// order, a step that gives none counted as zero.
    pub open spec fn price_lots(price: DecimalValue, market: ObMarketInfo) -> DecimalValue {
        let base_factor = factor_of(market.base_decimals);
        let quote_factor = factor_of(market.quote_decimals);
        let in_quote = or_zero(decimal_product(price, quote_factor));
        let in_lots = or_zero(
            decimal_product(in_quote, DecimalValue::from_parts(market.base_lot_size as int, 0)),
        );
        let per_base = or_zero(decimal_quotient(in_lots, base_factor));
        decimal_rounded(
            or_zero(
                decimal_quotient(per_base, DecimalValue::from_parts(market.quote_lot_size as int, 0)),
            ),
        )
    }

    /// The size of the fill: the counter quantity divided by the base factor,
    /// zero where the division gives none.
    pub open spec fn size(self, market: ObMarketInfo) -> DecimalValue {
        or_zero(
            decimal_quotient(
                DecimalValue::from_parts(self.counter_quantity() as int, 0),
                factor_of(market.base_decimals),
            ),
        )
    }

    /// The size in lots: the size times the quote factor, divided by the
    /// quote lot size; a step that gives none counted as zero.
    pub open spec fn size_lots(size: DecimalValue, market: ObMarketInfo) -> DecimalValue {
        or_zero(
            decimal_quotient(
                or_zero(decimal_product(size, factor_of(market.quote_decimals))),
                DecimalValue::from_parts(market.quote_lot_size as int, 0),
            ),
        )
    }

    /// 1 for a fill of a bid, 0 for a fill of an ask.
    pub open spec fn market_buy(self) -> u8 {
        match self.side {
            Side::Bid => 1,
            Side::Ask => 0,
        }
    }

    /// Computes the price of the fill.
    pub fn compute_price(&self, market: &ObMarketInfo) -> (r: Option<DecimalValue>)
        ensures
            r == self.price(*market),
    {
        if market.base_decimals > MAX_TOKEN_DECIMALS || market.quote_decimals
            > MAX_TOKEN_DECIMALS {
            return None;
        }
        let raw: u64 = match self.side {
            Side::Bid => match self.native_qty_paid.checked_add(self.native_fee_or_rebate) {
                Some(raw) => raw,
                None => {
                    return None;
                },
            },
            Side::Ask => match self.native_qty_received.checked_sub(self.native_fee_or_rebate) {
                Some(raw) => raw,
                None => {
                    return None;
                },
            },
        };
        let counter: u64 = match self.side {
            Side::Bid => self.native_qty_received,
            Side::Ask => self.native_qty_paid,
        };
        let base_factor: u128 = pow10_u64(market.base_decimals) as u128;
        let quote_factor: u128 = pow10_u64(market.quote_decimals) as u128;
        assert(raw * base_factor <= 0xffff_ffff_ffff_ffff * 0xffff_ffff_ffff_ffff)
            by (nonlinear_arith)
            requires
                raw <= 0xffff_ffff_ffff_ffff,
                base_factor <= 0xffff_ffff_ffff_ffff,
        ;
        assert(quote_factor * counter <= 0xffff_ffff_ffff_ffff * 0xffff_ffff_ffff_ffff)
            by (nonlinear_arith)
            requires
                counter <= 0xffff_ffff_ffff_ffff,
                quote_factor <= 0xffff_ffff_ffff_ffff,
        ;
        divide_integers(raw as u128 * base_factor, quote_factor * counter as u128)
    }

    /// Computes the price in lots of a fill with the given price.
    pub fn compute_price_lots(price: DecimalValue, market: &ObMarketInfo) -> (r: DecimalValue)
        requires
            market.base_decimals <= MAX_TOKEN_DECIMALS,
            market.quote_decimals <= MAX_TOKEN_DECIMALS,
        ensures
            r == Self::price_lots(price, *market),
    {
        let base_factor = token_factor(market.base_decimals);
        let quote_factor = token_factor(market.quote_decimals);
        let in_quote = mul_or_zero(price, quote_factor);
        let in_lots = mul_or_zero(in_quote, DecimalValue::from_u64(market.base_lot_size));
        let per_base = div_or_zero(in_lots, base_factor);
        round(div_or_zero(per_base, DecimalValue::from_u64(market.quote_lot_size)))
    }

    /// Computes the size of the fill.
    pub fn compute_size(&self, market: &ObMarketInfo) -> (r: DecimalValue)
        requires
            market.base_decimals <= MAX_TOKEN_DECIMALS,
        ensures
            r == self.size(*market),
    {
        let counter: u64 = match self.side {
            Side::Bid => self.native_qty_received,
            Side::Ask => self.native_qty_paid,
        };
        div_or_zero(DecimalValue::from_u64(counter), token_factor(market.base_decimals))
    }

    /// Computes the size in lots of a fill with the given size.
    pub fn compute_size_lots(size: DecimalValue, market: &ObMarketInfo) -> (r: DecimalValue)
        requires
            market.quote_decimals <= MAX_TOKEN_DECIMALS,
        ensures
            r == Self::size_lots(size, *market),
    {
        div_or_zero(
            mul_or_zero(size, token_factor(market.quote_decimals)),
            DecimalValue::from_u64(market.quote_lot_size),
        )
    }
}

/// What a fill says of a trade: its price, its size and whether it bought.
/// `None` for an event that is no fill and for a fill without a price.
pub open spec fn spec_extractor(market: ObMarketInfo, view: EventView) -> Option<
    (DecimalValue, DecimalValue, bool),
> {
    match view {
        EventView::Fill {
            side,
            native_qty_paid,
            native_qty_received,
            native_fee_or_rebate,
            order_id,
            ..
        } => {
            let fill = Fill {
                side,
                native_qty_paid,
                native_qty_received,
                native_fee_or_rebate,
                order_id,
            };
            match fill.price(market) {
                None => None,
                Some(price) => Some((price, fill.size(market), side == Side::Bid)),
            }
        },
        _ => None,
    }
}

/// Extracts price, amount and direction from a fill of either side, maker or
/// taker.
pub fn extractor(market: &ObMarketInfo, view: &EventView) -> (r: Option<
    (DecimalValue, DecimalValue, bool),
>)
    ensures
        r == spec_extractor(*market, *view),
{
    match view {
        EventView::Fill {
            side,
            native_qty_paid,
            native_qty_received,
            native_fee_or_rebate,
            order_id,
            ..
        } => {
            let fill = Fill {
                side: *side,
                native_qty_paid: *native_qty_paid,
                native_qty_received: *native_qty_received,
                native_fee_or_rebate: *native_fee_or_rebate,
                order_id: *order_id,
            };
            match fill.compute_price(market) {
                None => None,
                Some(price) => {
                    let is_buy = match side {
                        Side::Bid => true,
                        Side::Ask => false,
                    };
                    Some((price, fill.compute_size(market), is_buy))
                },
            }
        },
        _ => None,
    }
}

/// Whether `trade` is the record of `fill` on `market`, for an account update
/// at `slot` with transaction `signature`, taken at time `now`.
pub open spec fn is_fill_trade(
    trade: MarketTrade,
    market: ObMarketInfo,
    fill: Fill,
    slot: u64,
    now: u64,
    signature: Seq<char>,
) -> bool {
    &&& fill.price(market) == Some(trade.avg_price)
    &&& trade.amount == fill.size(market)
    &&& trade.avg_price_lots == Fill::price_lots(trade.avg_price, market)
    &&& trade.amount_lots == Fill::size_lots(trade.amount, market)
    &&& trade.market_buy == fill.market_buy()
    &&& trade.order_id matches Some(text) && text@ == decimal_text(fill.order_id as nat)
    &&& trade.slug@ == market.name@
    &&& trade.market_address@ == base58_text(market.address@)
    &&& trade.transaction_signature@ == signature
    &&& trade.timestamp == now
    &&& trade.blocktime == now
    &&& trade.index == 0
    &&& trade.slot == slot
}

/// Builds the record of a fill. `Err` where the fill has no price.
pub fn fill_trade(market: &ObMarketInfo, fill: &Fill, slot: u64, now: u64, signature: &str) -> (r:
    Result<MarketTrade, Unpriced>)
    ensures
        r is Ok <==> fill.price(*market) is Some,
        r matches Ok(trade) ==> is_fill_trade(trade, *market, *fill, slot, now, signature@),
{
    let price = match fill.compute_price(market) {
        Some(price) => price,
        None => {
            return Err(Unpriced);
        },
    };
    let size = fill.compute_size(market);
    let market_buy: u8 = match fill.side {
        Side::Bid => 1,
        Side::Ask => 0,
    };
    Ok(
        MarketTrade {
            slug: market.name.clone(),
            order_id: Some(u128_to_string(fill.order_id)),
            market_buy,
            avg_price: price,
            amount: size,
            timestamp: now,
            market_address: market.address.to_base58(),
            blocktime: now,
            index: 0,
            avg_price_lots: Fill::compute_price_lots(price, market),
            amount_lots: Fill::compute_size_lots(size, market),
            slot,
            transaction_signature: signature.to_owned(),
        },
    )
}

/// The ids of the fills, in order.
pub open spec fn fill_ids(fills: Seq<Fill>) -> Seq<u128> {
    Seq::new(fills.len(), |i: int| fills[i].order_id)
}

/// The fills that a queue brings anew: its maker fills, without those whose
/// order is recorded already and without a second fill of the same order.
pub open spec fn new_fills(events: Seq<EventView>, filled: Set<u128>) -> Seq<Fill>
    decreases events.len(),
{
    if events.len() == 0 {
        Seq::empty()
    } else {
        let before = new_fills(events.drop_last(), filled);
        match maker_fill(events.last()) {
            None => before,
            Some(fill) => if filled.contains(fill.order_id) || fill_ids(before).contains(
                fill.order_id,
            ) {
                before
            } else {
                before.push(fill)
            },
        }
    }
}

/// The new fills of a prefix of the queue open the new fills of the whole queue.
proof fn lemma_new_fills_prefix(events: Seq<EventView>, filled: Set<u128>, i: int)
    requires
        0 <= i <= events.len(),
    ensures
        new_fills(events.take(i), filled).len() <= new_fills(events, filled).len(),
        new_fills(events.take(i), filled) == new_fills(events, filled).take(
            new_fills(events.take(i), filled).len() as int,
        ),
    decreases events.len() - i,
{
    if i == events.len() {
        assert(events.take(i) =~= events);
        let all = new_fills(events, filled);
        assert(all.take(all.len() as int) =~= all);
    } else {
        lemma_new_fills_prefix(events, filled, i + 1);
        let next = events.take(i + 1);
        assert(next.drop_last() =~= events.take(i));
        let part = new_fills(events.take(i), filled);
        let more = new_fills(next, filled);
        let all = new_fills(events, filled);
        assert(part =~= more.take(part.len() as int));
        assert(part =~= all.take(part.len() as int));
    }
}

/// No order is recorded twice: the new fills of a queue carry pairwise
/// different order ids, none of which was recorded before; and once they are
/// recorded, the same queue brings nothing anew.
pub proof fn lemma_fills_recorded_once(events: Seq<EventView>, filled: Set<u128>)
    ensures
        forall|i: int, j: int|
            0 <= i < j < new_fills(events, filled).len() ==> (#[trigger] new_fills(
                events,
                filled,
            )[i]).order_id != (#[trigger] new_fills(events, filled)[j]).order_id,
        forall|i: int|
            0 <= i < new_fills(events, filled).len() ==> !filled.contains(
                (#[trigger] new_fills(events, filled)[i]).order_id,
            ),
        forall|e: int|
            0 <= e < events.len() && maker_fill(#[trigger] events[e]) is Some ==> filled.contains(
                maker_fill(events[e]).unwrap().order_id,
            ) || fill_ids(new_fills(events, filled)).contains(
                maker_fill(events[e]).unwrap().order_id,
            ),
    decreases events.len(),
{
    if events.len() > 0 {
        let head = events.drop_last();
        lemma_fills_recorded_once(head, filled);
        let before = new_fills(head, filled);
        let all = new_fills(events, filled);
        assert forall|i: int, j: int| 0 <= i < j < all.len() implies (#[trigger] all[i]).order_id != (
        #[trigger] all[j]).order_id by {
            if j < before.len() {
                assert(before[i].order_id != before[j].order_id);
            } else {
                assert(all[i] == before[i]);
                assert(fill_ids(before)[i] == before[i].order_id);
            }
        }
        assert forall|e: int| 0 <= e < events.len() && maker_fill(#[trigger] events[e]) is Some implies filled.contains(
            maker_fill(events[e]).unwrap().order_id,
        ) || fill_ids(all).contains(maker_fill(events[e]).unwrap().order_id) by {
            let id = maker_fill(events[e]).unwrap().order_id;
            if e < head.len() {
                assert(head[e] == events[e]);
                if fill_ids(before).contains(id) {
                    let k = choose|k: int| 0 <= k < before.len() && fill_ids(before)[k] == id;
                    assert(fill_ids(all)[k] == id);
                }
            } else {
                if fill_ids(before).contains(id) {
                    let k = choose|k: int| 0 <= k < before.len() && fill_ids(before)[k] == id;
                    assert(fill_ids(all)[k] == id);
                } else if !filled.contains(id) {
                    assert(fill_ids(all)[before.len() as int] == id);
                }
            }
        }
    }
}

/// A queue that is read again after its fills were recorded brings no fill anew.
pub proof fn lemma_second_delivery(events: Seq<EventView>, filled: Set<u128>, recorded: Set<u128>)
    requires
        forall|id: u128| filled.contains(id) ==> recorded.contains(id),
        forall|i: int|
            0 <= i < new_fills(events, filled).len() ==> recorded.contains(
                (#[trigger] new_fills(events, filled)[i]).order_id,
            ),
    ensures
        new_fills(events, recorded).len() == 0,
    decreases events.len(),
{
    if events.len() > 0 {
        let head = events.drop_last();
        let before = new_fills(head, filled);
        let all = new_fills(events, filled);
        assert forall|i: int| 0 <= i < before.len() implies recorded.contains(
            (#[trigger] before[i]).order_id,
        ) by {
            assert(all[i] == before[i]);
        }
        lemma_second_delivery(head, filled, recorded);
        match maker_fill(events.last()) {
            None => {},
            Some(fill) => {
                if !filled.contains(fill.order_id) {
                    if fill_ids(before).contains(fill.order_id) {
                        let k = choose|k: int|
                            0 <= k < before.len() && fill_ids(before)[k] == fill.order_id;
                        assert(before[k].order_id == fill.order_id);
                    } else {
                        assert(all[before.len() as int] == fill);
                    }
                }
            },
        }
    }
}

/// The orders whose fills were recorded in this run.
pub struct FilledOrderIds {
    ids: HashSet<u128>,
}

impl View for FilledOrderIds {
    type V = Set<u128>;

    closed spec fn view(&self) -> Set<u128> {
        self.ids@
    }
}

impl FilledOrderIds {
    /// No order recorded.
    pub fn new() -> (r: FilledOrderIds)
        ensures
            r@ == Set::<u128>::empty(),
    {
        FilledOrderIds { ids: HashSet::new() }
    }

    /// Whether a fill of the order was recorded.
    pub fn contains(&self, order_id: u128) -> (r: bool)
        ensures
            r == self@.contains(order_id),
    {
        self.ids.contains(&order_id)
    }

    /// Records the order.
    pub fn insert(&mut self, order_id: u128)
        ensures
            final(self)@ == old(self)@.insert(order_id),
    {
        self.ids.insert(order_id);
    }
}

/// Whether `id` is among `ids`.
fn holds_id(ids: &Vec<u128>, id: u128) -> (r: bool)
    ensures
        r == ids@.contains(id),
{
    let mut i: usize = 0;
    while i < ids.len()
        invariant
            i <= ids.len(),
            forall|k: int| 0 <= k < i ==> ids@[k] != id,
        decreases ids.len() - i,
    {
        if ids[i] == id {
            return true;
        }
        i = i + 1;
    }
    false
}

/// The set of the given ids.
pub open spec fn id_set(ids: Seq<u128>) -> Set<u128> {
    Set::new(|id: u128| ids.contains(id))
}

/// Derives the trades of an event queue: one for each maker fill whose order
/// was not recorded before, none for a second fill of the same order, for a
/// taker fill or for another event. The orders of the trades are recorded.
/// Where one of those fills has no price, nothing is recorded and `Err` is
/// returned.
pub fn process_fills(
    market: &ObMarketInfo,
    events: &Vec<EventView>,
    filled: &mut FilledOrderIds,
    slot: u64,
    now: u64,
    signature: &str,
) -> (r: Result<Vec<MarketTrade>, Unpriced>)
    ensures
        r is Ok <==> forall|k: int|
            0 <= k < new_fills(events@, old(filled)@).len() ==> (#[trigger] new_fills(
                events@,
                old(filled)@,
            )[k]).price(*market) is Some,
        r matches Ok(trades) ==> trades@.len() == new_fills(events@, old(filled)@).len()
            && forall|k: int|
            0 <= k < trades@.len() ==> is_fill_trade(
                #[trigger] trades@[k],
                *market,
                new_fills(events@, old(filled)@)[k],
                slot,
                now,
                signature@,
            ),
        r is Ok ==> final(filled)@ == old(filled)@.union(
            id_set(fill_ids(new_fills(events@, old(filled)@))),
        ),
        r is Err ==> final(filled)@ == old(filled)@,
{
    let mut trades: Vec<MarketTrade> = Vec::new();
    let mut taken: Vec<u128> = Vec::new();
    let mut i: usize = 0;
    while i < events.len()
        invariant
            i <= events.len(),
            *filled == *old(filled),
            taken@ == fill_ids(new_fills(events@.take(i as int), filled@)),
            trades@.len() == taken@.len(),
            forall|k: int|
                0 <= k < trades@.len() ==> is_fill_trade(
                    #[trigger] trades@[k],
                    *market,
                    new_fills(events@.take(i as int), filled@)[k],
                    slot,
                    now,
                    signature@,
                ),
        decreases events.len() - i,
    {
        proof {
            let next = events@.take(i + 1);
            assert(next.drop_last() =~= events@.take(i as int));
            assert(next.last() == events@[i as int]);
        }
        let ghost before = new_fills(events@.take(i as int), filled@);
        match as_maker_fill(&events[i]) {
            None => {},
            Some(fill) => {
                if filled.contains(fill.order_id) || holds_id(&taken, fill.order_id) {
                } else {
                    match fill_trade(market, &fill, slot, now, signature) {
                        Err(e) => {
                            proof {
                                lemma_new_fills_prefix(events@, filled@, i + 1);
                                let part = new_fills(events@.take(i + 1), filled@);
                                let all = new_fills(events@, filled@);
                                assert(part[before.len() as int] == fill);
                                assert(all[before.len() as int] == fill);
                            }
                            return Err(e);
                        },
                        Ok(trade) => {
                            trades.push(trade);
                            taken.push(fill.order_id);
                            assert(taken@ =~= fill_ids(before.push(fill)));
                        },
                    }
                }
            },
        }
        i = i + 1;
    }
    assert(events@.take(i as int) =~= events@);
    let ghost fresh = new_fills(events@, filled@);
    let mut j: usize = 0;
    while j < taken.len()
        invariant
            j <= taken.len(),
            taken@ == fill_ids(fresh),
            filled@ == old(filled)@.union(id_set(taken@.take(j as int))),
        decreases taken.len() - j,
    {
        filled.insert(taken[j]);
        proof {
            let grown = taken@.take(j + 1);
            let held = taken@.take(j as int);
            assert(grown =~= held.push(taken@[j as int]));
            assert forall|id: u128| id_set(grown).contains(id) <==> id_set(held).contains(id) || id
                == taken@[j as int] by {
                if held.contains(id) {
                    let k = choose|k: int| 0 <= k < held.len() && held[k] == id;
                    assert(grown[k] == id);
                }
                if id == taken@[j as int] {
                    assert(grown[j as int] == id);
                }
                if grown.contains(id) {
                    let k = choose|k: int| 0 <= k < grown.len() && grown[k] == id;
                    if k < j {
                        assert(held[k] == id);
                    }
                }
            }
            assert(filled@ =~= old(filled)@.union(id_set(grown)));
        }
        j = j + 1;
    }
    proof {
        assert(taken@.take(j as int) =~= taken@);
        assert(id_set(taken@.take(0)) =~= Set::<u128>::empty());
        assert forall|k: int| 0 <= k < fresh.len() implies (#[trigger] fresh[k]).price(
            *market,
        ) is Some by {
            assert(is_fill_trade(trades@[k], *market, fresh[k], slot, now, signature@));
        }
    }
    Ok(trades)
}

/// The price in lots of a log record: the decimal quotient of the lamports
/// paid by the amount traded.
pub open spec fn log_price_lots(log: GdMarketOrderLog) -> Option<DecimalValue> {
    quotient_of(log.total_value_lamports as int, log.amount as int)
}

/// Whether `trade` is the record of the trade that `log` reports on `market`.
pub open spec fn is_log_trade(
    trade: MarketTrade,
    market: GdMarketInfo,
    log: GdMarketOrderLog,
    is_buy_log: bool,
    slot: u64,
    now: u64,
    signature: Seq<char>,
) -> bool {
    &&& log_price_lots(log) == Some(trade.avg_price_lots)
    &&& spec_price_lots_to_number(
        trade.avg_price_lots,
        market.base_decimals,
        market.quote_decimals,
        0,
    ) == Some(trade.avg_price)
    &&& spec_base_lots_to_number(log.amount, market.base_decimals) == Some(trade.amount)
    &&& trade.amount_lots == DecimalValue::from_parts(log.amount as int, 0)
    &&& trade.market_buy == if is_buy_log {
        1u8
    } else {
        0u8
    }
    &&& trade.order_id is None
    &&& trade.slug@ == market.name@
    &&& trade.market_address@ == base58_text(market.address@)
    &&& trade.transaction_signature@ == signature
    &&& trade.timestamp == now
    &&& trade.blocktime == now
    &&& trade.index == 0
    &&& trade.slot == slot
}

/// Whether the trade of a log record can be priced on `market`.
pub open spec fn log_priced(log: GdMarketOrderLog, market: GdMarketInfo) -> bool {
    match log_price_lots(log) {
        None => false,
        Some(price_lots) => spec_price_lots_to_number(
            price_lots,
            market.base_decimals,
            market.quote_decimals,
            0,
        ) is Some && spec_base_lots_to_number(log.amount, market.base_decimals) is Some,
    }
}

/// Derives the trade that a record of the buy or the sell log reports. A
/// record with amount zero reports none. `Err` where the trade cannot be
/// priced.
pub fn log_trade(
    market: &GdMarketInfo,
    log: &GdMarketOrderLog,
    is_buy_log: bool,
    slot: u64,
    now: u64,
    signature: &str,
) -> (r: Result<Option<MarketTrade>, Unpriced>)
    ensures
        match r {
            Ok(None) => log.amount == 0,
            Ok(Some(trade)) => log.amount > 0 && is_log_trade(
                trade,
                *market,
                *log,
                is_buy_log,
                slot,
                now,
                signature@,
            ),
            Err(_) => log.amount > 0 && !log_priced(*log, *market),
        },
{
    if log.amount == 0 {
        return Ok(None);
    }
    let price_lots = match divide_integers(log.total_value_lamports as u128, log.amount as u128) {
        Some(v) => v,
        None => {
            return Err(Unpriced);
        },
    };
    let price = match price_lots_to_number(
        price_lots,
        market.base_decimals,
        market.quote_decimals,
        0,
    ) {
        Some(v) => v,
        None => {
            return Err(Unpriced);
        },
    };
    let amount = match base_lots_to_number(log.amount, market.base_decimals) {
        Some(v) => v,
        None => {
            return Err(Unpriced);
        },
    };
    let market_buy: u8 = if is_buy_log {
        1
    } else {
        0
    };
    Ok(
        Some(
            MarketTrade {
                slug: market.name.clone(),
                order_id: None,
                market_buy,
                avg_price: price,
                amount,
                timestamp: now,
                market_address: market.address.to_base58(),
                blocktime: now,
                index: 0,
                avg_price_lots: price_lots,
                amount_lots: DecimalValue::from_u64(log.amount),
                slot,
                transaction_signature: signature.to_owned(),
            },
        ),
    )
}

} // verus!
