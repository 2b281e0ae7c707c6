//! One account update, taken into the state of its market: what is decoded,
//! what changes, and what is to be written and published for it.

use crate::account::Account;
use crate::depth::depth_levels;
use crate::lists::copied;
use crate::events::{decode_event_queue, queue_readable, queue_views};
use crate::gigadex::{
    balances_of_table, balances_readable, book_levels, convert_orders_data, holds_balances,
    live_orders, order_data_of, parse_order_account, sort_orders, table_entries, table_users,
    tree_nodes, GdAsksData, GdBalance, GdBidsData, GdMarketInfo, GdMarketOrder,
    GdMarketOrderLog, GdOrderData, UserBalances, DISCRIMINATOR_LEN, ORDER_TREE_LEN,
    USERS_PER_MARKET, USER_BALANCES_LEN,
};
use crate::market::{
    generate_publish_data, generate_publish_uid_data, MarketOrder, MarketOrders, MarketSendData,
    MarketTrade, PublishAllData, PublishUidData,
};
use crate::openbook::ObMarketInfo;
use crate::pubkey::Pubkey;
use crate::reconcile::{
    bucketed, changed_balances, diff_uid_orders, distinct_uids, reconciled, reconcile_balances,
    UidBook, UidLists,
};
use crate::slab::{
    account_leaves, construct_levels, decoded, key_ordered, leaf_levels, lemma_leaves_ordered,
    read_leaves,
};
use crate::trades::{log_trade, new_fills, process_fills, FilledOrderIds};
use vstd::prelude::*;

verus! {

/// Levels kept per side of a depth book.
pub const GD_ORDER_DEPTH: usize = 20;

/// Why an account update was not taken.
#[derive(Clone, Copy, Debug, PartialEq, Eq, Structural)]
pub enum UpdateError {
    /// The account data does not decode.
    Malformed,
    /// A value has no readable form.
    Unpriced,
}

/// Which account of a market of the second venue an update belongs to.
#[derive(Clone, Copy, Debug, PartialEq, Eq, Structural)]
pub enum GdAccountKind {
    Bids,
    Asks,
    BuyLog,
    SellLog,
    Balances,
    Other,
}

/// The account of `market` that `account` is: its bids or asks first, then
/// its buy or sell log, then its balances.
pub open spec fn gd_account_kind(market: GdMarketInfo, account: Pubkey) -> GdAccountKind {
    if account@ == market.bids@ {
        GdAccountKind::Bids
    } else if account@ == market.asks@ {
        GdAccountKind::Asks
    } else if account@ == market.buy_order_log@ {
        GdAccountKind::BuyLog
    } else if account@ == market.sell_order_log@ {
        GdAccountKind::SellLog
    } else if account@ == market.balances@ {
        GdAccountKind::Balances
    } else {
        GdAccountKind::Other
    }
}

/// Tells which account of `market` an update belongs to.
pub fn classify_gd_account(market: &GdMarketInfo, account: &Pubkey) -> (r: GdAccountKind)
    ensures
        r == gd_account_kind(*market, *account),
{
    if *account == market.bids {
        GdAccountKind::Bids
    } else if *account == market.asks {
        GdAccountKind::Asks
    } else if *account == market.buy_order_log {
        GdAccountKind::BuyLog
    } else if *account == market.sell_order_log {
        GdAccountKind::SellLog
    } else if *account == market.balances {
        GdAccountKind::Balances
    } else {
        GdAccountKind::Other
    }
}

/// What the engine holds of a market of the second venue between updates: the
/// orders of each user on both sides, and each user's balance.
pub struct GdMarketBooks {
    pub prev_uid_bids: UidBook,
    pub prev_uid_asks: UidBook,
    pub prev_balances: Vec<GdBalance>,
}

impl GdMarketBooks {
    /// The state of a market before its first update: the orders of the two
    /// initial snapshots bucketed by user, and no balances.
    pub fn new(bids: &Vec<GdMarketOrder>, asks: &Vec<GdMarketOrder>) -> (r: GdMarketBooks)
        ensures
            r.prev_uid_bids.lists() == bucketed(bids@),
            r.prev_uid_asks.lists() == bucketed(asks@),
            r.prev_balances@.len() == 0,
    {
        GdMarketBooks {
            prev_uid_bids: UidBook::from_orders(bids),
            prev_uid_asks: UidBook::from_orders(asks),
            prev_balances: Vec::new(),
        }
    }
}

/// The orders of one user in readable units.
#[derive(Clone, Debug)]
pub struct UidOrdersData {
    pub uid: u64,
    pub orders: Vec<GdOrderData>,
}

/// What an update of the bids or the asks of a market brings: the events for
/// the users whose orders changed, the orders of every user for the cache,
/// and the slot.
#[derive(Clone, Debug)]
pub struct OrdersUpdate {
    pub is_bid: bool,
    pub events: Vec<UidOrdersData>,
    pub entries: Vec<UidOrdersData>,
    pub slot: u64,
}

/// What an update of the balances of a market brings: the users whose balance
/// changed, and the balance of every user for the cache, user `uid` at index
/// `uid - 1`.
#[derive(Clone, Debug)]
pub struct BalancesUpdate {
    pub changed: Vec<u64>,
    pub balances: Vec<GdBalance>,
    pub slot: u64,
}

/// What an account update of the second venue brings.
#[derive(Clone, Debug)]
pub enum GdUpdate {
    /// The orders of one side changed.
    Orders(OrdersUpdate),
    /// A trade log reported a trade, or an amount of zero and so none.
    Trade(Option<MarketTrade>),
    /// The balances changed.
    Balances(BalancesUpdate),
    /// The account is none of the market's.
    Ignored,
}

/// Whether every order of every list has a readable form.
pub open spec fn lists_convert(lists: UidLists, market: GdMarketInfo) -> bool {
    forall|i: int, k: int|
        0 <= i < lists.len() && 0 <= k < lists[i].1.len() ==> order_data_of(
            #[trigger] lists[i].1[k],
            market,
        ) is Some
}

/// Whether `data` holds the lists in readable units: the same users in the
/// same order, each with its orders converted in order.
pub open spec fn holds_lists(data: Seq<UidOrdersData>, lists: UidLists, market: GdMarketInfo)
    -> bool {
    &&& data.len() == lists.len()
    &&& forall|i: int|
        0 <= i < data.len() ==> (#[trigger] data[i]).uid == lists[i].0 && data[i].orders@.len()
            == lists[i].1.len()
    &&& forall|i: int, k: int|
        0 <= i < data.len() && 0 <= k < lists[i].1.len() ==> Some(
            #[trigger] data[i].orders@[k],
        ) == order_data_of(lists[i].1[k], market)
}

/// Converts the lists of a book or of its events into readable units.
fn convert_lists(book: &UidBook, market: &GdMarketInfo) -> (r: Option<Vec<UidOrdersData>>)
    ensures
        r is Some <==> lists_convert(book.lists(), *market),
        r matches Some(data) ==> holds_lists(data@, book.lists(), *market),
{
    let mut out: Vec<UidOrdersData> = Vec::new();
    let mut i: usize = 0;
    while i < book.len()
        invariant
            i <= book.lists().len(),
            out@.len() == i,
            forall|a: int|
                0 <= a < i ==> (#[trigger] out@[a]).uid == book.lists()[a].0 && out@[a].orders@.len()
                    == book.lists()[a].1.len(),
            forall|a: int, k: int|
                0 <= a < i && 0 <= k < book.lists()[a].1.len() ==> Some(
                    #[trigger] out@[a].orders@[k],
                ) == order_data_of(book.lists()[a].1[k], *market),
        decreases book.lists().len() - i,
    {
        let entry = book.entry(i);
        match convert_orders_data(&entry.orders, market) {
            None => {
                proof {
                    let k = choose|k: int|
                        0 <= k < entry.orders@.len() && !(order_data_of(
                            #[trigger] entry.orders@[k],
                            *market,
                        ) is Some);
                    assert(order_data_of(book.lists()[i as int].1[k], *market) is None);
                }
                return None;
            },
            Some(orders) => {
                out.push(UidOrdersData { uid: entry.uid, orders });
            },
        }
        i = i + 1;
    }
    proof {
        assert forall|a: int, k: int|
            0 <= a < book.lists().len() && 0 <= k < book.lists()[a].1.len() implies order_data_of(
            #[trigger] book.lists()[a].1[k],
            *market,
        ) is Some by {
            assert(Some(out@[a].orders@[k]) == order_data_of(book.lists()[a].1[k], *market));
        }
    }
    Some(out)
}

/// Whether an update of one side of a market can be taken: the account is an
/// order tree, the orders of every user and of every event have readable
/// forms, and the levels of the side can be priced.
pub open spec fn orders_update_fits(market: GdMarketInfo, data: Seq<u8>, is_bid: bool) -> bool {
    let orders = live_orders(tree_nodes(data));
    &&& data.len() == DISCRIMINATOR_LEN + ORDER_TREE_LEN
    &&& lists_convert(bucketed(orders), market)
    &&& forall|k: int|
        0 <= k < book_levels(orders, GD_ORDER_DEPTH as nat, is_bid).len()
            ==> crate::gigadex::priced_level(
            #[trigger] book_levels(orders, GD_ORDER_DEPTH as nat, is_bid)[k],
            market,
        ) is Some
}

/// Takes an update of the bids or the asks of a market: the orders are read
/// and bucketed by user, compared with the book held before, and made the
/// book; the side's depth levels replace those held. Where the update cannot
/// be taken, nothing changes.
pub fn apply_orders_update(
    market: &GdMarketInfo,
    data: &[u8],
    is_bid: bool,
    slot: u64,
    prev: &mut UidBook,
    levels: &mut Vec<MarketOrder>,
) -> (r: Result<OrdersUpdate, UpdateError>)
    ensures
        r is Ok <==> orders_update_fits(*market, data@, is_bid),
        r matches Ok(update) ==> {
            let orders = live_orders(tree_nodes(data@));
            &&& update.is_bid == is_bid
            &&& update.slot == slot
            &&& final(prev).lists() == bucketed(orders)
            &&& holds_lists(update.entries@, bucketed(orders), *market)
            &&& holds_lists(
                update.events@,
                reconciled(old(prev).lists(), bucketed(orders)),
                *market,
            )
            &&& final(levels)@.len() == book_levels(orders, GD_ORDER_DEPTH as nat, is_bid).len()
            &&& forall|k: int|
                0 <= k < final(levels)@.len() ==> Some(#[trigger] final(levels)@[k])
                    == crate::gigadex::priced_level(
                    book_levels(orders, GD_ORDER_DEPTH as nat, is_bid)[k],
                    *market,
                )
        },
        r matches Err(e) ==> *final(prev) == *old(prev) && *final(levels) == *old(levels) && (e
            == UpdateError::Malformed <==> data@.len() != DISCRIMINATOR_LEN + ORDER_TREE_LEN),
{
    let orders = match parse_order_account(data) {
        Some(orders) => orders,
        None => {
            return Err(UpdateError::Malformed);
        },
    };
    let cur = UidBook::from_orders(&orders);
    let entries = match convert_lists(&cur, market) {
        Some(entries) => entries,
        None => {
            return Err(UpdateError::Unpriced);
        },
    };
    let raw_events = diff_uid_orders(prev, &cur);
    let ghost wanted = reconciled(prev.lists(), cur.lists());
    let mut events: Vec<UidOrdersData> = Vec::new();
    let mut i: usize = 0;
    while i < raw_events.len()
        invariant
            i <= raw_events.len(),
            crate::reconcile::events_of(raw_events@) == wanted,
            distinct_uids(cur.lists()),
            distinct_uids(prev.lists()),
            wanted == reconciled(prev.lists(), cur.lists()),
            lists_convert(cur.lists(), *market),
            events@.len() == i,
            forall|a: int|
                0 <= a < i ==> (#[trigger] events@[a]).uid == wanted[a].0 && events@[a].orders@.len()
                    == wanted[a].1.len(),
            forall|a: int, k: int|
                0 <= a < i && 0 <= k < wanted[a].1.len() ==> Some(#[trigger] events@[a].orders@[k])
                    == order_data_of(wanted[a].1[k], *market),
        decreases raw_events.len() - i,
    {
        let event = &raw_events[i];
        assert(crate::reconcile::events_of(raw_events@)[i as int] == (event.uid, event.orders@));
        proof {
            crate::reconcile::lemma_reconciled(prev.lists(), cur.lists(), event.uid);
            crate::reconcile::lemma_entry_of_uid(wanted, i as int);
            if crate::reconcile::has_uid(cur.lists(), event.uid) {
                let j = crate::reconcile::index_of_uid(cur.lists(), event.uid);
                assert forall|k: int| 0 <= k < event.orders@.len() implies order_data_of(
                    #[trigger] event.orders@[k],
                    *market,
                ) is Some by {
                    assert(order_data_of(cur.lists()[j].1[k], *market) is Some);
                }
            }
        }
        // The orders of an event are orders of the current book, or none: they convert.
        let data = match convert_orders_data(&event.orders, market) {
            Some(data) => data,
            None => {
                assert(false);
                Vec::new()
            },
        };
        events.push(UidOrdersData { uid: event.uid, orders: data });
        i = i + 1;
    }
    let book = match sort_orders(&orders, market, GD_ORDER_DEPTH, is_bid) {
        Some(book) => book,
        None => {
            return Err(UpdateError::Unpriced);
        },
    };
    *prev = cur;
    *levels = book;
    Ok(OrdersUpdate { is_bid, events, entries, slot })
}

/// Takes an account update of a market of the second venue.
///
/// An update of the bids or asks is reconciled with the book held for that
/// side and replaces the side's depth levels. An update of the buy or sell
/// log is read as a trade, at time `now`. An update of the balances is
/// compared with the balances held and replaces them. An update of any other
/// account is ignored. Where the update cannot be taken, nothing changes.
pub fn parse_gigadex_account(
    market: &GdMarketInfo,
    account: &Account,
    books: &mut GdMarketBooks,
    market_orders: &mut MarketOrders,
    now: u64,
) -> (r: Result<GdUpdate, UpdateError>)
    ensures
        r is Err ==> *final(books) == *old(books) && *final(market_orders) == *old(market_orders),
        match gd_account_kind(*market, account.pubkey) {
            GdAccountKind::Bids => {
                &&& final(books).prev_uid_asks == old(books).prev_uid_asks
                &&& final(books).prev_balances == old(books).prev_balances
                &&& final(market_orders).asks == old(market_orders).asks
                &&& r is Ok <==> orders_update_fits(*market, account.data@, true)
                &&& r matches Ok(update) ==> update matches GdUpdate::Orders(orders)
                    && orders.is_bid && orders.slot == account.slot && final(books).prev_uid_bids.lists() == bucketed(live_orders(tree_nodes(account.data@)))
                    && holds_lists(
                    orders.entries@,
                    bucketed(live_orders(tree_nodes(account.data@))),
                    *market,
                ) && holds_lists(
                    orders.events@,
                    reconciled(
                        old(books).prev_uid_bids.lists(),
                        bucketed(live_orders(tree_nodes(account.data@))),
                    ),
                    *market,
                ) && holds_levels(
                    final(market_orders).bids@,
                    live_orders(tree_nodes(account.data@)),
                    true,
                    *market,
                )
            },
            GdAccountKind::Asks => {
                &&& final(books).prev_uid_bids == old(books).prev_uid_bids
                &&& final(books).prev_balances == old(books).prev_balances
                &&& final(market_orders).bids == old(market_orders).bids
                &&& r is Ok <==> orders_update_fits(*market, account.data@, false)
                &&& r matches Ok(update) ==> update matches GdUpdate::Orders(orders)
                    && !orders.is_bid && orders.slot == account.slot && final(books).prev_uid_asks.lists() == bucketed(live_orders(tree_nodes(account.data@)))
                    && holds_lists(
                    orders.entries@,
                    bucketed(live_orders(tree_nodes(account.data@))),
                    *market,
                ) && holds_lists(
                    orders.events@,
                    reconciled(
                        old(books).prev_uid_asks.lists(),
                        bucketed(live_orders(tree_nodes(account.data@))),
                    ),
                    *market,
                ) && holds_levels(
                    final(market_orders).asks@,
                    live_orders(tree_nodes(account.data@)),
                    false,
                    *market,
                )
            },
            GdAccountKind::BuyLog => log_outcome(r, *market, *account, true, now) && *final(books)
                == *old(books) && *final(market_orders) == *old(market_orders),
            GdAccountKind::SellLog => log_outcome(r, *market, *account, false, now) && *final(books) == *old(books) && *final(market_orders) == *old(market_orders),
            GdAccountKind::Balances => {
                &&& final(books).prev_uid_bids == old(books).prev_uid_bids
                &&& final(books).prev_uid_asks == old(books).prev_uid_asks
                &&& *final(market_orders) == *old(market_orders)
                &&& balances_outcome(r, *market, *account, old(books).prev_balances@)
                &&& r matches Ok(GdUpdate::Balances(update)) ==> update.balances@ == final(books).prev_balances@
            },
            GdAccountKind::Other => r matches Ok(GdUpdate::Ignored) && *final(books) == *old(books)
                && *final(market_orders) == *old(market_orders),
        },
{
    match classify_gd_account(market, &account.pubkey) {
        GdAccountKind::Bids => {
            match apply_orders_update(
                market,
                account.data.as_slice(),
                true,
                account.slot,
                &mut books.prev_uid_bids,
                &mut market_orders.bids,
            ) {
                Ok(update) => Ok(GdUpdate::Orders(update)),
                Err(e) => Err(e),
            }
        },
        GdAccountKind::Asks => {
            match apply_orders_update(
                market,
                account.data.as_slice(),
                false,
                account.slot,
                &mut books.prev_uid_asks,
                &mut market_orders.asks,
            ) {
                Ok(update) => Ok(GdUpdate::Orders(update)),
                Err(e) => Err(e),
            }
        },
        GdAccountKind::BuyLog => read_log_trade(market, account, true, now),
        GdAccountKind::SellLog => read_log_trade(market, account, false, now),
        GdAccountKind::Balances => {
            let table = match UserBalances::from_bytes(account.data.as_slice()) {
                Some(table) => table,
                None => {
                    return Err(UpdateError::Malformed);
                },
            };
            if table.num_users >= USERS_PER_MARKET as u64 {
                return Err(UpdateError::Malformed);
            }
            proof {
                assert(table.entries@ =~= table_entries(account.data@));
            }
            match balances_of_table(&table, market) {
                None => Err(UpdateError::Unpriced),
                Some(balances) => {
                    let held = copied(&balances);
                    let changed = reconcile_balances(&mut books.prev_balances, balances);
                    Ok(
                        GdUpdate::Balances(
                            BalancesUpdate { changed, balances: held, slot: account.slot },
                        ),
                    )
                },
            }
        },
        GdAccountKind::Other => Ok(GdUpdate::Ignored),
    }
}

/// What an update of the balances owes: an account of another length than a
/// balance table, or one that counts users beyond its table, is malformed; a
/// balance without a readable form makes the update unpriced; otherwise the
/// balances of users `1..=num_users` are returned with the users whose
/// balance differs from the one held before.
pub open spec fn balances_outcome(
    r: Result<GdUpdate, UpdateError>,
    market: GdMarketInfo,
    account: Account,
    held: Seq<GdBalance>,
) -> bool {
    let users = table_users(account.data@);
    let entries = table_entries(account.data@);
    if account.data@.len() != DISCRIMINATOR_LEN + USER_BALANCES_LEN || users >= USERS_PER_MARKET {
        r == Err::<GdUpdate, UpdateError>(UpdateError::Malformed)
    } else if !balances_readable(users, entries, market) {
        r == Err::<GdUpdate, UpdateError>(UpdateError::Unpriced)
    } else {
        r matches Ok(GdUpdate::Balances(update)) && update.slot == account.slot && holds_balances(
            update.balances@,
            users,
            entries,
            market,
        ) && update.changed@ == changed_balances(
            held,
            update.balances@,
            update.balances@.len() as int,
        )
    }
}

/// Whether `levels` holds the depth levels of one side of a book, priced.
pub open spec fn holds_levels(
    levels: Seq<MarketOrder>,
    orders: Seq<GdMarketOrder>,
    is_bid: bool,
    market: GdMarketInfo,
) -> bool {
    &&& levels.len() == book_levels(orders, GD_ORDER_DEPTH as nat, is_bid).len()
    &&& forall|k: int|
        0 <= k < levels.len() ==> Some(#[trigger] levels[k]) == crate::gigadex::priced_level(
            book_levels(orders, GD_ORDER_DEPTH as nat, is_bid)[k],
            market,
        )
}

/// What an update of a trade log owes: an account too short for a log record
/// is malformed; a record with amount zero gives no trade; any other record
/// gives its trade, or is unpriced.
pub open spec fn log_outcome(
    r: Result<GdUpdate, UpdateError>,
    market: GdMarketInfo,
    account: Account,
    is_buy_log: bool,
    now: u64,
) -> bool {
    let log = GdMarketOrderLog::decoded(account.data@);
    if account.data@.len() < DISCRIMINATOR_LEN + crate::gigadex::ORDER_LOG_LEN {
        r == Err::<GdUpdate, UpdateError>(UpdateError::Malformed)
    } else if log.amount == 0 {
        r matches Ok(GdUpdate::Trade(None))
    } else if crate::trades::log_priced(log, market) {
        r matches Ok(GdUpdate::Trade(Some(trade))) && crate::trades::is_log_trade(
            trade,
            market,
            log,
            is_buy_log,
            account.slot,
            now,
            account.txn_signature@,
        )
    } else {
        r == Err::<GdUpdate, UpdateError>(UpdateError::Unpriced)
    }
}

/// Reads the trade of an update of a trade log.
fn read_log_trade(market: &GdMarketInfo, account: &Account, is_buy_log: bool, now: u64) -> (r:
    Result<GdUpdate, UpdateError>)
    ensures
        log_outcome(r, *market, *account, is_buy_log, now),
{
    let log = match GdMarketOrderLog::deserialize(account.data.as_slice()) {
        Some(log) => log,
        None => {
            return Err(UpdateError::Malformed);
        },
    };
    match log_trade(market, &log, is_buy_log, account.slot, now, account.txn_signature.as_str()) {
        Ok(trade) => Ok(GdUpdate::Trade(trade)),
        Err(_) => Err(UpdateError::Unpriced),
    }
}

/// What an account update of the order-book venue brings.
#[derive(Clone, Debug)]
pub enum ObUpdate {
    /// The event queue brought these trades.
    Trades(Vec<MarketTrade>),
    /// The depth levels of one side were replaced.
    Book { is_bid: bool },
}

/// Whether `levels` holds the depth levels of the leaves of one side, priced.
pub open spec fn holds_ob_levels(
    levels: Seq<MarketOrder>,
    leaves: Seq<crate::slab::LeafNode>,
    market: ObMarketInfo,
) -> bool {
    &&& levels.len() == depth_levels(leaf_levels(leaves), GD_ORDER_DEPTH as nat).len()
    &&& forall|k: int|
        0 <= k < levels.len() ==> Some(#[trigger] levels[k]) == crate::slab::priced_level(
            depth_levels(leaf_levels(leaves), GD_ORDER_DEPTH as nat)[k],
            market,
        )
}

/// Whether every depth level of the leaves can be priced.
pub open spec fn ob_levels_priced(leaves: Seq<crate::slab::LeafNode>, market: ObMarketInfo) -> bool {
    forall|k: int|
        0 <= k < depth_levels(leaf_levels(leaves), GD_ORDER_DEPTH as nat).len()
            ==> crate::slab::priced_level(
            #[trigger] depth_levels(leaf_levels(leaves), GD_ORDER_DEPTH as nat)[k],
            market,
        ) is Some
}

/// What reading one side of an order book owes: a slab that does not decode
/// or whose tree is malformed is an error, and so is a level without a price;
/// otherwise the side's 20 best levels, priced.
pub open spec fn ob_orders_outcome(
    r: Result<Vec<MarketOrder>, UpdateError>,
    data: Seq<u8>,
    is_bid: bool,
    market: ObMarketInfo,
) -> bool {
    match account_leaves(data, is_bid) {
        None => r == Err::<Vec<MarketOrder>, UpdateError>(UpdateError::Malformed),
        Some(leaves) => if ob_levels_priced(leaves, market) {
            r matches Ok(levels) && holds_ob_levels(levels@, leaves, market)
        } else {
            r == Err::<Vec<MarketOrder>, UpdateError>(UpdateError::Unpriced)
        },
    }
}

/// Reads one side of an order book from its account: the leaves of its slab,
/// descending for the bids and ascending for the asks, reduced to the 20 best
/// price levels.
pub fn parse_ob_orders(data: &[u8], is_bid: bool, market: &ObMarketInfo) -> (r: Result<
    Vec<MarketOrder>,
    UpdateError,
>)
    ensures
        ob_orders_outcome(r, data@, is_bid, *market),
{
    let leaves = match read_leaves(data, is_bid) {
        Some(leaves) => leaves,
        None => {
            return Err(UpdateError::Malformed);
        },
    };
    match construct_levels(leaves, market, GD_ORDER_DEPTH) {
        Some(levels) => Ok(levels),
        None => Err(UpdateError::Unpriced),
    }
}

/// Takes an account update of a market of the order-book venue.
///
/// An update of the event queue is read for the maker fills that were not
/// recorded before; each becomes a trade, at time `now`, and is recorded. An
/// update of any other account is read as the slab of one side of the book,
/// the bids where it is the market's bids account and the asks otherwise, and
/// replaces that side's depth levels. Where the update cannot be taken,
/// nothing changes.
pub fn parse_openbook_account(
    market: &ObMarketInfo,
    account: &Account,
    market_orders: &mut MarketOrders,
    filled_order_ids: &mut FilledOrderIds,
    now: u64,
) -> (r: Result<ObUpdate, UpdateError>)
    ensures
        r is Err ==> final(filled_order_ids)@ == old(filled_order_ids)@ && *final(market_orders)
            == *old(market_orders),
        account.pubkey@ == market.event_queue@ ==> {
            let fills = new_fills(queue_views(account.data@), old(filled_order_ids)@);
            &&& *final(market_orders) == *old(market_orders)
            &&& r is Ok <==> queue_readable(account.data@) && forall|k: int|
                0 <= k < fills.len() ==> (#[trigger] fills[k]).price(*market) is Some
            &&& r matches Err(e) ==> (e == UpdateError::Malformed <==> !queue_readable(
                account.data@,
            ))
            &&& r matches Ok(update) ==> update matches ObUpdate::Trades(trades) && trades@.len()
                == fills.len() && (forall|k: int|
                0 <= k < trades@.len() ==> crate::trades::is_fill_trade(
                    #[trigger] trades@[k],
                    *market,
                    fills[k],
                    account.slot,
                    now,
                    account.txn_signature@,
                )) && final(filled_order_ids)@ == old(filled_order_ids)@.union(
                crate::trades::id_set(crate::trades::fill_ids(fills)),
            )
        },
        account.pubkey@ != market.event_queue@ ==> {
            let is_bid = account.pubkey@ == market.bids@;
            &&& final(filled_order_ids)@ == old(filled_order_ids)@
            &&& is_bid ==> final(market_orders).asks == old(market_orders).asks
            &&& !is_bid ==> final(market_orders).bids == old(market_orders).bids
            &&& r matches Ok(update) ==> update == (ObUpdate::Book { is_bid })
            &&& ob_orders_outcome(
                match r {
                    Ok(_) => Ok(
                        if is_bid {
                            final(market_orders).bids
                        } else {
                            final(market_orders).asks
                        },
                    ),
                    Err(e) => Err(e),
                },
                account.data@,
                is_bid,
                *market,
            )
        },
{
    if account.pubkey == market.event_queue {
        let events = match decode_event_queue(account.data.as_slice()) {
            Some(events) => events,
            None => {
                return Err(UpdateError::Malformed);
            },
        };
        match process_fills(
            market,
            &events,
            filled_order_ids,
            account.slot,
            now,
            account.txn_signature.as_str(),
        ) {
            Ok(trades) => Ok(ObUpdate::Trades(trades)),
            Err(_) => Err(UpdateError::Unpriced),
        }
    } else {
        let is_bid = account.pubkey == market.bids;
        match parse_ob_orders(account.data.as_slice(), is_bid, market) {
            Err(e) => Err(e),
            Ok(levels) => {
                if is_bid {
                    market_orders.bids = levels;
                } else {
                    market_orders.asks = levels;
                }
                Ok(ObUpdate::Book { is_bid })
            },
        }
    }
}

/// What is published for the depth book of a market: the book with its slot,
/// in an envelope to all subscribers of the market.
pub fn publish_trades_data(market: &str, market_state: &MarketOrders, slot: u64) -> (r:
    PublishAllData<MarketSendData>)
    ensures
        r._type@ == "general"@,
        r.market@ == market@,
        r.id is None,
        r.data.slot == slot,
        r.data.order_book.asks@ == market_state.asks@,
        r.data.order_book.bids@ == market_state.bids@,
{
    let send_data = MarketSendData {
        order_book: MarketOrders {
            asks: copied(&market_state.asks),
            bids: copied(&market_state.bids),
        },
        slot,
    };
    generate_publish_data(market, send_data, None)
}

/// The orders of one user on one side, as they are published.
#[derive(Clone, Debug)]
pub enum GdSideData {
    Bids(GdBidsData),
    Asks(GdAsksData),
}

/// What is published to user `uid` of `market` for its orders on one side:
/// the orders with the slot, as bids or as asks.
pub fn build_order_data(is_bid: bool, market: &str, uid: u64, orders: &Vec<GdOrderData>, slot: u64)
    -> (r: PublishUidData<GdSideData>)
    ensures
        r._type == uid,
        r.market@ == market@,
        match r.data {
            GdSideData::Bids(bids) => is_bid && bids.uid_bids@ == orders@ && bids.slot == slot,
            GdSideData::Asks(asks) => !is_bid && asks.uid_asks@ == orders@ && asks.slot == slot,
        },
{
    let data = if is_bid {
        GdSideData::Bids(GdBidsData { uid_bids: copied(orders), slot })
    } else {
        GdSideData::Asks(GdAsksData { uid_asks: copied(orders), slot })
    };
    generate_publish_uid_data(market, data, uid)
}

/// The side of an order book that an update leaves, read from a slab whose
/// tree is a search tree, holds at most 20 levels, and its prices are strictly
/// monotone: descending for the bids, ascending for the asks.
pub proof fn lemma_ob_side_monotone(
    data: Seq<u8>,
    is_bid: bool,
    market: ObMarketInfo,
    levels: Vec<MarketOrder>,
)
    requires
        ob_orders_outcome(Ok(levels), data, is_bid, market),
        key_ordered(
            decoded(data).spec_nodes(),
            decoded(data).spec_header().root_node,
            decoded(data).spec_nodes().len(),
        ),
    ensures
        levels@.len() <= GD_ORDER_DEPTH,
        is_bid ==> forall|i: int, j: int|
            0 <= i < j < levels@.len() ==> (#[trigger] levels@[i]).price_lots > (
            #[trigger] levels@[j]).price_lots,
        !is_bid ==> forall|i: int, j: int|
            0 <= i < j < levels@.len() ==> (#[trigger] levels@[i]).price_lots < (
            #[trigger] levels@[j]).price_lots,
{
    let leaves = account_leaves(data, is_bid).unwrap();
    lemma_leaves_ordered(decoded(data), is_bid);
    crate::slab::lemma_depth_book(leaves, market, GD_ORDER_DEPTH as nat, levels@);
}

/// The side of a book of the second venue that an update leaves holds at most
/// 20 levels, and its prices are strictly monotone: descending for the bids,
/// ascending for the asks.
pub proof fn lemma_gd_side_monotone(
    levels: Seq<MarketOrder>,
    orders: Seq<GdMarketOrder>,
    is_bid: bool,
    market: GdMarketInfo,
)
    requires
        holds_levels(levels, orders, is_bid, market),
    ensures
        levels.len() <= GD_ORDER_DEPTH,
        is_bid ==> forall|i: int, j: int|
            0 <= i < j < levels.len() ==> (#[trigger] levels[i]).price_lots > (
            #[trigger] levels[j]).price_lots,
        !is_bid ==> forall|i: int, j: int|
            0 <= i < j < levels.len() ==> (#[trigger] levels[i]).price_lots < (
            #[trigger] levels[j]).price_lots,
{
    crate::gigadex::lemma_depth_book(orders, market, GD_ORDER_DEPTH as nat, is_bid, levels);
}

} // verus!
