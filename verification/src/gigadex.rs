//! The second venue: its market descriptor, its order tree, its balance table
//! and its trade log, each read from account data; and the conversion of its
//! lots into readable units.

use crate::bytes::{le_u64, read_u64};
use crate::decimal::{
    checked_div, checked_mul, decimal_product, decimal_quotient, divide_by, divide_integers,
    lemma_quotient_by_scale, lemma_quotient_of_scale, pow10, pow10_u64, quotient_by,
    quotient_of, token_factor, DecimalValue, MAX_TOKEN_DECIMALS,
};
use crate::depth::{
    aggregate_levels, arrange, arranged, depth_levels, holds_totals,
    lemma_arranged_levels_monotone, lemma_arranged_levels_totals, lemma_total_at_nonnegative,
    total_at, Level, LevelTotal,
};
use crate::market::MarketOrder;
use crate::pubkey::Pubkey;
use vstd::prelude::*;

verus! {

/// Nodes of an order tree.
pub const ORDERBOOK_DEPTH: usize = 1000;

/// Fill records kept per market order.
pub const MAX_FILLS_PER_MARKET_ORDER: usize = 64;

/// Entries of a balance table.
pub const USERS_PER_MARKET: usize = 10_000;

/// Bytes that precede every record of this venue in its account.
pub const DISCRIMINATOR_LEN: usize = 8;

/// Bytes of one node of the order tree: seven words.
pub const NODE_LEN: usize = 56;

/// Bytes of one fill record: three words.
pub const FILLED_ORDER_LEN: usize = 24;

/// Bytes of one node change record: seven words.
pub const NODE_DELTA_LEN: usize = 56;

/// Bytes of one entry of the balance table: two words.
pub const ENTRY_LEN: usize = 16;

/// Bytes of the order tree record: root index and side, the nodes, the number
/// of orders, the current signer, the remaining amount and the number of
/// fills, the fills, the number of node changes, the node changes, and the
/// amount cancelled.
pub const ORDER_TREE_LEN: usize = 16 + NODE_LEN * ORDERBOOK_DEPTH + 8 + 32 + 16 + FILLED_ORDER_LEN
    * MAX_FILLS_PER_MARKET_ORDER + 8 + NODE_DELTA_LEN * MAX_FILLS_PER_MARKET_ORDER + 8;

/// Bytes of the balance table record: the number of users, and the entries.
pub const USER_BALANCES_LEN: usize = 8 + ENTRY_LEN * USERS_PER_MARKET;

/// Bytes of the market record: six addresses.
pub const GD_MARKET_STATE_LEN: usize = 192;

/// Bytes of a trade log record.
pub const ORDER_LOG_LEN: usize = 24;

/// A market of the venue: its accounts, the decimal exponents of its tokens
/// and the multiplier of its prices.
#[derive(Clone, Debug)]
pub struct GdMarketInfo {
    pub name: String,
    pub address: Pubkey,
    pub bids: Pubkey,
    pub asks: Pubkey,
    pub balances: Pubkey,
    pub buy_order_log: Pubkey,
    pub sell_order_log: Pubkey,
    pub base_decimals: u8,
    pub quote_decimals: u8,
    pub multiplier: u64,
}

impl GdMarketInfo {
    /// Whether `account` is one of the five accounts that this market is fed
    /// from: bids, asks, balances, buy log, sell log.
    pub fn is_valid_account(&self, account: &Pubkey) -> (r: bool)
        ensures
            r == (account@ == self.bids@ || account@ == self.asks@ || account@ == self.balances@
                || account@ == self.buy_order_log@ || account@ == self.sell_order_log@),
    {
        *account == self.bids || *account == self.asks || *account == self.balances || *account
            == self.buy_order_log || *account == self.sell_order_log
    }
}

/// The market record as the venue stores it.
#[derive(Clone, Copy, Debug)]
pub struct GdMarketState {
    pub mint: Pubkey,
    pub balances: Pubkey,
    pub wsol_vault: Pubkey,
    pub lot_vault: Pubkey,
    pub asks: Pubkey,
    pub bids: Pubkey,
}

/// Reads the address held by the 32 bytes at `at`.
fn read_pubkey(data: &[u8], at: usize) -> (r: Pubkey)
    requires
        at + 32 <= data.len(),
    ensures
        r@ == data@.subrange(at as int, at + 32),
{
    let mut bytes: [u8; 32] = [0u8; 32];
    let mut i: usize = 0;
    while i < 32
        invariant
            i <= 32,
            at + 32 <= data.len(),
            forall|k: int| 0 <= k < i ==> bytes@[k] == data@[at + k],
        decreases 32 - i,
    {
        bytes[i] = data[at + i];
        i = i + 1;
    }
    assert(bytes@ =~= data@.subrange(at as int, at + 32));
    Pubkey::new_from_array(bytes)
}

impl GdMarketState {
    /// Whether `state` is the record that `data` holds behind its discriminator.
    pub open spec fn decodes(state: GdMarketState, data: Seq<u8>) -> bool {
        &&& state.mint@ == data.subrange(8, 40)
        &&& state.balances@ == data.subrange(40, 72)
        &&& state.wsol_vault@ == data.subrange(72, 104)
        &&& state.lot_vault@ == data.subrange(104, 136)
        &&& state.asks@ == data.subrange(136, 168)
        &&& state.bids@ == data.subrange(168, 200)
    }

    /// Reads the market record of a market account, behind the 8-byte
    /// discriminator; what comes after the record is not read. `None` where
    /// the account is too short to hold it.
    pub fn deserialize(data: &[u8]) -> (r: Option<GdMarketState>)
        ensures
            r is Some <==> data@.len() >= DISCRIMINATOR_LEN + GD_MARKET_STATE_LEN,
            r matches Some(state) ==> Self::decodes(state, data@),
    {
        if data.len() < DISCRIMINATOR_LEN + GD_MARKET_STATE_LEN {
            return None;
        }
        Some(
            GdMarketState {
                mint: read_pubkey(data, 8),
                balances: read_pubkey(data, 40),
                wsol_vault: read_pubkey(data, 72),
                lot_vault: read_pubkey(data, 104),
                asks: read_pubkey(data, 136),
                bids: read_pubkey(data, 168),
            },
        )
    }
}

/// One resting order of one user.
#[derive(Clone, Copy, Debug, PartialEq, Eq, Structural)]
pub struct GdMarketOrder {
    pub uid: u64,
    pub price_lots: u64,
    pub amount_lots: u64,
}

/// One fill of a market order, as the venue records it.
#[derive(Clone, Copy, Debug, PartialEq, Eq, Structural)]
pub struct FilledOrder {
    pub price: u64,
    pub amount: u64,
    pub uid: u64,
}

/// One node of the order tree. A node with amount zero is vacant.
#[derive(Clone, Copy, Debug, PartialEq, Eq, Structural)]
pub struct Node {
    pub price: u64,
    pub amount: u64,
    pub uid: u64,
    pub left: u64,
    pub right: u64,
    pub next: u64,
    pub height: u64,
}

/// One change of a node, as the venue records it.
#[derive(Clone, Copy, Debug, PartialEq, Eq, Structural)]
pub struct NodeDeltaLog {
    pub key: u64,
    pub is_delete: u64,
    pub is_insert: u64,
    pub is_delta: u64,
    pub amount: u64,
    pub uid: u64,
    pub price: u64,
}

/// The part of an order tree that the engine reads: the root index, the side,
/// and the 1000 nodes. The match state that follows them in the record is
/// bookkeeping of the venue and is not read.
#[derive(Clone, Debug)]
pub struct OrderTree {
    pub root_idx: u64,
    pub market_buy: u64,
    pub nodes: Vec<Node>,
}

/// The node that starts at byte `at`.
pub open spec fn node_at(data: Seq<u8>, at: int) -> Node {
    Node {
        price: le_u64(data, at) as u64,
        amount: le_u64(data, at + 8) as u64,
        uid: le_u64(data, at + 16) as u64,
        left: le_u64(data, at + 24) as u64,
        right: le_u64(data, at + 32) as u64,
        next: le_u64(data, at + 40) as u64,
        height: le_u64(data, at + 48) as u64,
    }
}

/// Where node `index` of an order tree starts in its account.
pub open spec fn tree_node_offset(index: int) -> int {
    DISCRIMINATOR_LEN + 16 + NODE_LEN * index
}

impl OrderTree {
    /// Whether `tree` is what an order-tree account `data` holds.
    pub open spec fn decodes(tree: OrderTree, data: Seq<u8>) -> bool {
        &&& tree.root_idx == le_u64(data, 8)
        &&& tree.market_buy == le_u64(data, 16)
        &&& tree.nodes@.len() == ORDERBOOK_DEPTH
        &&& forall|i: int|
            0 <= i < ORDERBOOK_DEPTH ==> #[trigger] tree.nodes@[i] == node_at(
                data,
                tree_node_offset(i),
            )
    }

    /// Reads an order-tree account: an 8-byte discriminator and the record,
    /// nothing more and nothing less. `None` for any other length.
    pub fn from_bytes(data: &[u8]) -> (r: Option<OrderTree>)
        ensures
            r is Some <==> data@.len() == DISCRIMINATOR_LEN + ORDER_TREE_LEN,
            r matches Some(tree) ==> Self::decodes(tree, data@),
    {
        if data.len() != DISCRIMINATOR_LEN + ORDER_TREE_LEN {
            return None;
        }
        let root_idx = read_u64(data, 8);
        let market_buy = read_u64(data, 16);
        let mut nodes: Vec<Node> = Vec::new();
        let mut i: usize = 0;
        while i < ORDERBOOK_DEPTH
            invariant
                i <= ORDERBOOK_DEPTH,
                data@.len() == DISCRIMINATOR_LEN + ORDER_TREE_LEN,
                nodes@.len() == i,
                forall|k: int| 0 <= k < i ==> #[trigger] nodes@[k] == node_at(data@, tree_node_offset(k)),
            decreases ORDERBOOK_DEPTH - i,
        {
            let at: usize = DISCRIMINATOR_LEN + 16 + NODE_LEN * i;
            let node = Node {
                price: read_u64(data, at),
                amount: read_u64(data, at + 8),
                uid: read_u64(data, at + 16),
                left: read_u64(data, at + 24),
                right: read_u64(data, at + 32),
                next: read_u64(data, at + 40),
                height: read_u64(data, at + 48),
            };
            nodes.push(node);
            i = i + 1;
        }
        Some(OrderTree { root_idx, market_buy, nodes })
    }
}

/// One entry of the balance table: what a user can claim, in lamports and in lots.
#[derive(Clone, Copy, Debug, PartialEq, Eq, Structural)]
pub struct Entry {
    pub lamports: u64,
    pub lots: u64,
}

/// The balance table: the number of users, and 10,000 entries. Entry 0 is
/// reserved; user `uid` has entry `uid`.
#[derive(Clone, Debug)]
pub struct UserBalances {
    pub num_users: u64,
    pub entries: Vec<Entry>,
}

/// The entry that starts at byte `at`.
pub open spec fn entry_at(data: Seq<u8>, at: int) -> Entry {
    Entry { lamports: le_u64(data, at) as u64, lots: le_u64(data, at + 8) as u64 }
}

/// Where entry `index` of a balance table starts in its account.
pub open spec fn balance_entry_offset(index: int) -> int {
    DISCRIMINATOR_LEN + 8 + 16 * index
}

impl UserBalances {
    /// Whether `table` is what a balance account `data` holds.
    pub open spec fn decodes(table: UserBalances, data: Seq<u8>) -> bool {
        &&& table.num_users == le_u64(data, 8)
        &&& table.entries@.len() == USERS_PER_MARKET
        &&& forall|i: int|
            0 <= i < USERS_PER_MARKET ==> #[trigger] table.entries@[i] == entry_at(
                data,
                balance_entry_offset(i),
            )
    }

    /// Reads a balance account: an 8-byte discriminator and the table, nothing
    /// more and nothing less. `None` for any other length.
    pub fn from_bytes(data: &[u8]) -> (r: Option<UserBalances>)
        ensures
            r is Some <==> data@.len() == DISCRIMINATOR_LEN + USER_BALANCES_LEN,
            r matches Some(table) ==> Self::decodes(table, data@),
    {
        if data.len() != DISCRIMINATOR_LEN + USER_BALANCES_LEN {
            return None;
        }
        let num_users = read_u64(data, 8);
        let mut entries: Vec<Entry> = Vec::new();
        let mut i: usize = 0;
        while i < USERS_PER_MARKET
            invariant
                i <= USERS_PER_MARKET,
                data@.len() == DISCRIMINATOR_LEN + USER_BALANCES_LEN,
                entries@.len() == i,
                forall|k: int|
                    0 <= k < i ==> #[trigger] entries@[k] == entry_at(data@, balance_entry_offset(k)),
            decreases USERS_PER_MARKET - i,
        {
            let at: usize = DISCRIMINATOR_LEN + 8 + 16 * i;
            entries.push(Entry { lamports: read_u64(data, at), lots: read_u64(data, at + 8) });
            i = i + 1;
        }
        Some(UserBalances { num_users, entries })
    }
}

/// What a user can claim, in readable units.
#[derive(Clone, Copy, Debug, PartialEq, Eq, Structural)]
pub struct GdBalance {
    pub lamports: DecimalValue,
    pub lots: DecimalValue,
}

/// One record of a trade log: the amount traded in lots, what was paid for it
/// in lamports, and the log's counter.
#[derive(Clone, Copy, Debug, PartialEq, Eq, Structural)]
pub struct GdMarketOrderLog {
    pub amount: u64,
    pub total_value_lamports: u64,
    pub counter: u64,
}

impl GdMarketOrderLog {
    /// The record that a trade-log account `data` holds behind its discriminator.
    pub open spec fn decoded(data: Seq<u8>) -> GdMarketOrderLog {
        GdMarketOrderLog {
            amount: le_u64(data, 8) as u64,
            total_value_lamports: le_u64(data, 16) as u64,
            counter: le_u64(data, 24) as u64,
        }
    }

    /// Reads the record of a trade-log account, behind the 8-byte
    /// discriminator; what comes after the record is not read. `None` where
    /// the account is too short to hold it.
    pub fn deserialize(data: &[u8]) -> (r: Option<GdMarketOrderLog>)
        ensures
            r == if data@.len() >= DISCRIMINATOR_LEN + ORDER_LOG_LEN {
                Some(Self::decoded(data@))
            } else {
                None
            },
    {
        if data.len() < DISCRIMINATOR_LEN + ORDER_LOG_LEN {
            return None;
        }
        Some(
            GdMarketOrderLog {
                amount: read_u64(data, 8),
                total_value_lamports: read_u64(data, 16),
                counter: read_u64(data, 24),
            },
        )
    }
}

/// One order of a user in readable units and in lots.
#[derive(Clone, Copy, Debug, PartialEq, Eq, Structural)]
pub struct GdOrderData {
    pub amount: DecimalValue,
    pub price: DecimalValue,
    pub price_lots: u64,
    pub amount_lots: u64,
}

/// The asks of one user at a slot.
#[derive(Clone, Debug)]
pub struct GdAsksData {
    pub uid_asks: Vec<GdOrderData>,
    pub slot: u64,
}

/// The bids of one user at a slot.
#[derive(Clone, Debug)]
pub struct GdBidsData {
    pub uid_bids: Vec<GdOrderData>,
    pub slot: u64,
}

/// The balance of one user at a slot.
#[derive(Clone, Copy, Debug, PartialEq, Eq, Structural)]
pub struct GdBalanceData {
    pub claimable_balance: GdBalance,
    pub slot: u64,
}

/// The order that an occupied node holds.
pub open spec fn order_of(node: Node) -> GdMarketOrder {
    GdMarketOrder { uid: node.uid, price_lots: node.price, amount_lots: node.amount }
}

/// The orders of the occupied nodes, in node order: a node is occupied where
/// its amount is above zero.
pub open spec fn live_orders(nodes: Seq<Node>) -> Seq<GdMarketOrder>
    decreases nodes.len(),
{
    if nodes.len() == 0 {
        Seq::empty()
    } else {
        let before = live_orders(nodes.drop_last());
        if nodes.last().amount > 0 {
            before.push(order_of(nodes.last()))
        } else {
            before
        }
    }
}

/// The nodes that an order-tree account of the right length holds.
pub open spec fn tree_nodes(data: Seq<u8>) -> Seq<Node> {
    Seq::new(ORDERBOOK_DEPTH as nat, |i: int| node_at(data, tree_node_offset(i)))
}

/// The orders of a tree, in node order.
pub fn orders_of_tree(tree: &OrderTree) -> (r: Vec<GdMarketOrder>)
    ensures
        r@ == live_orders(tree.nodes@),
{
    let mut orders: Vec<GdMarketOrder> = Vec::new();
    let mut i: usize = 0;
    while i < tree.nodes.len()
        invariant
            i <= tree.nodes.len(),
            orders@ == live_orders(tree.nodes@.take(i as int)),
        decreases tree.nodes.len() - i,
    {
        let node = tree.nodes[i];
        proof {
            let next = tree.nodes@.take(i + 1);
            assert(next.drop_last() =~= tree.nodes@.take(i as int));
            assert(next.last() == node);
        }
        if node.amount > 0 {
            orders.push(
                GdMarketOrder { uid: node.uid, price_lots: node.price, amount_lots: node.amount },
            );
        }
        i = i + 1;
    }
    assert(tree.nodes@.take(i as int) =~= tree.nodes@);
    orders
}

/// Reads the resting orders of an order-tree account: one order for each node
/// with an amount above zero, in node order, unsorted. `None` unless the
/// account has the length of a discriminator and an order tree.
pub fn parse_order_account(data: &[u8]) -> (r: Option<Vec<GdMarketOrder>>)
    ensures
        r is Some <==> data@.len() == DISCRIMINATOR_LEN + ORDER_TREE_LEN,
        r matches Some(orders) ==> orders@ == live_orders(tree_nodes(data@)),
{
    match OrderTree::from_bytes(data) {
        None => None,
        Some(tree) => {
            assert(tree.nodes@ =~= tree_nodes(data@));
            Some(orders_of_tree(&tree))
        },
    }
}

/// The readable amount of `lots`: the decimal quotient of `lots` by
/// `10^base_decimals`. `None` where the exponent is above 19 and where the
/// division gives none.
pub open spec fn spec_base_lots_to_number(lots: u64, base_decimals: u8) -> Option<DecimalValue> {
    if base_decimals > MAX_TOKEN_DECIMALS {
        None
    } else {
        quotient_of(lots as int, pow10(base_decimals as nat) as int)
    }
}

/// Converts an amount in lots into a readable amount.
pub fn base_lots_to_number(lots: u64, base_decimals: u8) -> (r: Option<DecimalValue>)
    ensures
        r == spec_base_lots_to_number(lots, base_decimals),
{
    if base_decimals > MAX_TOKEN_DECIMALS {
        return None;
    }
    divide_integers(lots as u128, pow10_u64(base_decimals) as u128)
}

/// The factor of a token with `decimals` places, as a specification value.
pub open spec fn factor_of(decimals: u8) -> DecimalValue {
    DecimalValue::from_parts(pow10(decimals as nat) as int, 0)
}

/// A price scaled by the base factor and divided by the quote factor, with
/// the power of ten that the two factors share cancelled: the price times
/// `10^(base_decimals - quote_decimals)` where the base has no fewer
/// decimals, and divided by `10^(quote_decimals - base_decimals)` otherwise,
/// in decimal arithmetic.
pub open spec fn scaled_price(start: Option<DecimalValue>, base_decimals: u8, quote_decimals: u8)
    -> Option<DecimalValue> {
    match start {
        None => None,
        Some(value) => if base_decimals >= quote_decimals {
            decimal_product(value, factor_of((base_decimals - quote_decimals) as u8))
        } else {
            decimal_quotient(value, factor_of((quote_decimals - base_decimals) as u8))
        },
    }
}

/// The readable price of `lots`: with a multiplier above zero,
/// `lots / multiplier * 10^base_decimals / 10^quote_decimals`; with a
/// multiplier of zero, `lots * 10^base_decimals / 10^quote_decimals`. The
/// division by the multiplier is taken in lowest terms, and the two factors
/// as one power of ten. `None` where an exponent is above 19 and where a step
/// gives none.
pub open spec fn spec_price_lots_to_number(
    lots: DecimalValue,
    base_decimals: u8,
    quote_decimals: u8,
    multiplier: u64,
) -> Option<DecimalValue> {
    if base_decimals > MAX_TOKEN_DECIMALS || quote_decimals > MAX_TOKEN_DECIMALS {
        None
    } else if multiplier > 0 {
        scaled_price(quotient_by(lots, multiplier as nat), base_decimals, quote_decimals)
    } else {
        scaled_price(Some(lots), base_decimals, quote_decimals)
    }
}

/// Scales a price by the base factor and divides it by the quote factor.
pub fn scale_price(start: Option<DecimalValue>, base_decimals: u8, quote_decimals: u8) -> (r:
    Option<DecimalValue>)
    requires
        base_decimals <= MAX_TOKEN_DECIMALS,
        quote_decimals <= MAX_TOKEN_DECIMALS,
    ensures
        r == scaled_price(start, base_decimals, quote_decimals),
{
    match start {
        None => None,
        Some(value) => if base_decimals >= quote_decimals {
            checked_mul(value, token_factor(base_decimals - quote_decimals))
        } else {
            checked_div(value, token_factor(quote_decimals - base_decimals))
        },
    }
}

/// Converts a price in lots into a readable price.
pub fn price_lots_to_number(
    lots: DecimalValue,
    base_decimals: u8,
    quote_decimals: u8,
    multiplier: u64,
) -> (r: Option<DecimalValue>)
    ensures
        r == spec_price_lots_to_number(lots, base_decimals, quote_decimals, multiplier),
{
    if base_decimals > MAX_TOKEN_DECIMALS || quote_decimals > MAX_TOKEN_DECIMALS {
        return None;
    }
    if multiplier > 0 {
        let per_unit = divide_by(lots, multiplier);
        scale_price(per_unit, base_decimals, quote_decimals)
    } else {
        scale_price(Some(lots), base_decimals, quote_decimals)
    }
}

/// The readable price does not change where lots and multiplier are scaled by
/// the same number.
pub proof fn lemma_price_rescaling(
    mantissa: int,
    scale: nat,
    base_decimals: u8,
    quote_decimals: u8,
    multiplier: u64,
    k: nat,
)
    requires
        k > 0,
        multiplier > 0,
        k * multiplier <= u64::MAX,
        DecimalValue::representable(k * mantissa, scale),
    ensures
        spec_price_lots_to_number(
            DecimalValue::from_parts(k * mantissa, scale),
            base_decimals,
            quote_decimals,
            (k * multiplier) as u64,
        ) == spec_price_lots_to_number(
            DecimalValue::from_parts(mantissa, scale),
            base_decimals,
            quote_decimals,
            multiplier,
        ),
{
    lemma_quotient_by_scale(mantissa, scale, multiplier as nat, k);
    assert(k * multiplier > 0) by (nonlinear_arith)
        requires
            k > 0,
            multiplier > 0,
    ;
}

/// The readable price does not change where both tokens have one decimal more.
pub proof fn lemma_price_decimals_shift(
    lots: DecimalValue,
    base_decimals: u8,
    quote_decimals: u8,
    multiplier: u64,
)
    requires
        base_decimals < MAX_TOKEN_DECIMALS,
        quote_decimals < MAX_TOKEN_DECIMALS,
    ensures
        spec_price_lots_to_number(
            lots,
            (base_decimals + 1) as u8,
            (quote_decimals + 1) as u8,
            multiplier,
        ) == spec_price_lots_to_number(lots, base_decimals, quote_decimals, multiplier),
{
}

/// The readable amount does not change where the lots are ten times as many
/// and the token has one decimal more.
pub proof fn lemma_amount_rescaling(lots: u64, base_decimals: u8)
    requires
        10 * lots <= u64::MAX,
        base_decimals < MAX_TOKEN_DECIMALS,
    ensures
        spec_base_lots_to_number((10 * lots) as u64, (base_decimals + 1) as u8)
            == spec_base_lots_to_number(lots, base_decimals),
{
    let factor = pow10(base_decimals as nat) as int;
    crate::decimal::lemma_pow10_monotonic((base_decimals + 1) as nat, 19);
    crate::decimal::lemma_pow10_19();
    assert(pow10((base_decimals + 1) as nat) == 10 * factor);
    lemma_quotient_of_scale(lots as int, factor, 10);
}

/// A user's balance in readable units: lamports by the quote factor, lots by
/// the base factor. `None` where a conversion gives none.
pub open spec fn balance_of(entry: Entry, market: GdMarketInfo) -> Option<GdBalance> {
    match (
        spec_base_lots_to_number(entry.lamports, market.quote_decimals),
        spec_base_lots_to_number(entry.lots, market.base_decimals),
    ) {
        (Some(lamports), Some(lots)) => Some(GdBalance { lamports, lots }),
        _ => None,
    }
}

/// Whether the balances of a table can be read for `market`: the user count
/// leaves entry 0 and stays inside the table, and every user's balance
/// converts.
pub open spec fn balances_readable(num_users: u64, entries: Seq<Entry>, market: GdMarketInfo)
    -> bool {
    &&& num_users < USERS_PER_MARKET
    &&& forall|uid: int| 1 <= uid <= num_users ==> balance_of(#[trigger] entries[uid], market) is Some
}

/// Whether `balances` holds the balances of users `1..=num_users`, user `uid`
/// at index `uid - 1`.
pub open spec fn holds_balances(
    balances: Seq<GdBalance>,
    num_users: u64,
    entries: Seq<Entry>,
    market: GdMarketInfo,
) -> bool {
    &&& balances.len() == num_users
    &&& forall|i: int|
        0 <= i < balances.len() ==> Some(#[trigger] balances[i]) == balance_of(
            entries[i + 1],
            market,
        )
}

/// The balances of the users of a table, user `uid` at index `uid - 1`.
/// `None` for a table that does not hold 10,000 entries, for a user count
/// that does not stay inside the table, and where a balance does not convert.
pub fn balances_of_table(table: &UserBalances, market: &GdMarketInfo) -> (r: Option<Vec<GdBalance>>)
    ensures
        r is Some <==> table.entries@.len() == USERS_PER_MARKET && balances_readable(
            table.num_users,
            table.entries@,
            *market,
        ),
        r matches Some(balances) ==> holds_balances(
            balances@,
            table.num_users,
            table.entries@,
            *market,
        ),
{
    if table.entries.len() != USERS_PER_MARKET {
        return None;
    }
    if table.num_users >= USERS_PER_MARKET as u64 {
        return None;
    }
    let count: usize = table.num_users as usize;
    let mut balances: Vec<GdBalance> = Vec::new();
    let mut i: usize = 0;
    while i < count
        invariant
            i <= count,
            count == table.num_users,
            count < USERS_PER_MARKET,
            table.entries@.len() == USERS_PER_MARKET,
            balances@.len() == i,
            forall|k: int|
                0 <= k < i ==> Some(#[trigger] balances@[k]) == balance_of(
                    table.entries@[k + 1],
                    *market,
                ),
        decreases count - i,
    {
        let entry = table.entries[i + 1];
        let lamports = base_lots_to_number(entry.lamports, market.quote_decimals);
        let lots = base_lots_to_number(entry.lots, market.base_decimals);
        match (lamports, lots) {
            (Some(lamports), Some(lots)) => {
                balances.push(GdBalance { lamports, lots });
            },
            _ => {
                assert(balance_of(table.entries@[i + 1], *market) is None);
                return None;
            },
        }
        i = i + 1;
    }
    proof {
        assert forall|uid: int| 1 <= uid <= table.num_users implies balance_of(
            #[trigger] table.entries@[uid],
            *market,
        ) is Some by {
            assert(Some(balances@[uid - 1]) == balance_of(table.entries@[uid - 1 + 1], *market));
        }
    }
    Some(balances)
}

/// The user count that a balance account holds.
pub open spec fn table_users(data: Seq<u8>) -> u64 {
    le_u64(data, 8) as u64
}

/// The entries that a balance account of the right length holds.
pub open spec fn table_entries(data: Seq<u8>) -> Seq<Entry> {
    Seq::new(USERS_PER_MARKET as nat, |i: int| entry_at(data, balance_entry_offset(i)))
}

/// Reads the balances of a balance account: for each user `1..=num_users`
/// the claimable lamports and lots in readable units, user `uid` at index
/// `uid - 1`. `None` unless the account has the length of a discriminator and
/// a balance table, the user count stays inside the table, and every balance
/// converts.
pub fn parse_balances_account(data: &[u8], market: &GdMarketInfo) -> (r: Option<Vec<GdBalance>>)
    ensures
        r is Some <==> data@.len() == DISCRIMINATOR_LEN + USER_BALANCES_LEN && balances_readable(
            table_users(data@),
            table_entries(data@),
            *market,
        ),
        r matches Some(balances) ==> holds_balances(
            balances@,
            table_users(data@),
            table_entries(data@),
            *market,
        ),
{
    match UserBalances::from_bytes(data) {
        None => None,
        Some(table) => {
            assert(table.entries@ =~= table_entries(data@));
            balances_of_table(&table, market)
        },
    }
}

/// One order with its readable price and amount; `None` where a conversion
/// gives none.
pub open spec fn order_data_of(order: GdMarketOrder, market: GdMarketInfo) -> Option<GdOrderData> {
    match (
        spec_price_lots_to_number(
            DecimalValue::from_parts(order.price_lots as int, 0),
            market.base_decimals,
            market.quote_decimals,
            market.multiplier,
        ),
        spec_base_lots_to_number(order.amount_lots, market.base_decimals),
    ) {
        (Some(price), Some(amount)) => Some(
            GdOrderData {
                amount,
                price,
                price_lots: order.price_lots,
                amount_lots: order.amount_lots,
            },
        ),
        _ => None,
    }
}

/// Gives each order its readable price and amount, in order. `None` where an
/// order does not convert.
pub fn convert_orders_data(orders: &Vec<GdMarketOrder>, market: &GdMarketInfo) -> (r: Option<
    Vec<GdOrderData>,
>)
    ensures
        r is Some <==> forall|k: int|
            0 <= k < orders@.len() ==> order_data_of(#[trigger] orders@[k], *market) is Some,
        r matches Some(out) ==> out@.len() == orders@.len() && forall|k: int|
            0 <= k < out@.len() ==> Some(#[trigger] out@[k]) == order_data_of(orders@[k], *market),
{
    let mut out: Vec<GdOrderData> = Vec::new();
    let mut i: usize = 0;
    while i < orders.len()
        invariant
            i <= orders.len(),
            out@.len() == i,
            forall|k: int|
                0 <= k < i ==> Some(#[trigger] out@[k]) == order_data_of(orders@[k], *market),
        decreases orders.len() - i,
    {
        let order = orders[i];
        let price = price_lots_to_number(
            DecimalValue::from_u64(order.price_lots),
            market.base_decimals,
            market.quote_decimals,
            market.multiplier,
        );
        let amount = base_lots_to_number(order.amount_lots, market.base_decimals);
        match (price, amount) {
            (Some(price), Some(amount)) => {
                out.push(
                    GdOrderData {
                        amount,
                        price,
                        price_lots: order.price_lots,
                        amount_lots: order.amount_lots,
                    },
                );
            },
            _ => {
                assert(order_data_of(orders@[i as int], *market) is None);
                return None;
            },
        }
        i = i + 1;
    }
    proof {
        assert forall|k: int| 0 <= k < orders@.len() implies order_data_of(
            #[trigger] orders@[k],
            *market,
        ) is Some by {
            assert(Some(out@[k]) == order_data_of(orders@[k], *market));
        }
    }
    Some(out)
}

/// Each order as a resting order of the book: its price and its amount.
pub open spec fn order_levels(orders: Seq<GdMarketOrder>) -> Seq<Level> {
    Seq::new(
        orders.len(),
        |i: int| Level { price_lots: orders[i].price_lots, size_lots: orders[i].amount_lots },
    )
}

/// A level with its readable price and amount; `None` where its total does
/// not fit in 64 bits or a conversion gives none.
pub open spec fn priced_level(level: LevelTotal, market: GdMarketInfo) -> Option<MarketOrder> {
    if level.size > u64::MAX {
        None
    } else {
        match (
            spec_price_lots_to_number(
                DecimalValue::from_parts(level.price as int, 0),
                market.base_decimals,
                market.quote_decimals,
                market.multiplier,
            ),
            spec_base_lots_to_number(level.size as u64, market.base_decimals),
        ) {
            (Some(price), Some(amount)) => Some(
                MarketOrder {
                    price,
                    amount,
                    price_lots: level.price,
                    size_lots: level.size as u64,
                },
            ),
            _ => None,
        }
    }
}

/// The levels of one side of the book: the orders arranged best price first,
/// then reduced to `depth` levels.
pub open spec fn book_levels(orders: Seq<GdMarketOrder>, depth: nat, is_bid: bool) -> Seq<
    LevelTotal,
> {
    depth_levels(arranged(order_levels(orders), is_bid), depth)
}

fn levels_of_orders(orders: &Vec<GdMarketOrder>) -> (r: Vec<Level>)
    ensures
        r@ == order_levels(orders@),
{
    let mut entries: Vec<Level> = Vec::new();
    let mut i: usize = 0;
    while i < orders.len()
        invariant
            i <= orders.len(),
            entries@.len() == i,
            forall|k: int| 0 <= k < i ==> entries@[k] == order_levels(orders@)[k],
        decreases orders.len() - i,
    {
        let order = orders[i];
        entries.push(Level { price_lots: order.price_lots, size_lots: order.amount_lots });
        i = i + 1;
    }
    assert(entries@ =~= order_levels(orders@));
    entries
}

/// Builds one side of a depth book from the unsorted orders of an order tree:
/// the orders are sorted by price, descending for bids and ascending for
/// asks, and reduced to at most `depth` levels, each with the total amount at
/// its price, in lots and in readable units. `None` where a level cannot be
/// priced.
pub fn sort_orders(orders: &Vec<GdMarketOrder>, market: &GdMarketInfo, depth: usize, is_bid: bool)
    -> (r: Option<Vec<MarketOrder>>)
    ensures
        r is Some <==> forall|k: int|
            0 <= k < book_levels(orders@, depth as nat, is_bid).len() ==> priced_level(
                #[trigger] book_levels(orders@, depth as nat, is_bid)[k],
                *market,
            ) is Some,
        r matches Some(book) ==> book@.len() == book_levels(orders@, depth as nat, is_bid).len()
            && forall|k: int|
            0 <= k < book@.len() ==> Some(#[trigger] book@[k]) == priced_level(
                book_levels(orders@, depth as nat, is_bid)[k],
                *market,
            ),
{
    let entries = levels_of_orders(orders);
    let ordered = arrange(&entries, is_bid);
    let ghost totals = book_levels(orders@, depth as nat, is_bid);
    let levels = match aggregate_levels(&ordered, depth) {
        Some(levels) => levels,
        None => {
            proof {
                let k = choose|k: int| 0 <= k < totals.len() && !((#[trigger] totals[k]).size <= u64::MAX);
                assert(priced_level(totals[k], *market) is None);
            }
            return None;
        },
    };
    let mut book: Vec<MarketOrder> = Vec::new();
    let mut i: usize = 0;
    while i < levels.len()
        invariant
            i <= levels.len(),
            book@.len() == i,
            totals == book_levels(orders@, depth as nat, is_bid),
            holds_totals(levels@, totals),
            forall|k: int| 0 <= k < i ==> Some(#[trigger] book@[k]) == priced_level(totals[k], *market),
        decreases levels.len() - i,
    {
        let level = levels[i];
        let price = price_lots_to_number(
            DecimalValue::from_u64(level.price_lots),
            market.base_decimals,
            market.quote_decimals,
            market.multiplier,
        );
        let amount = base_lots_to_number(level.size_lots, market.base_decimals);
        match (price, amount) {
            (Some(price), Some(amount)) => {
                book.push(
                    MarketOrder {
                        price,
                        amount,
                        price_lots: level.price_lots,
                        size_lots: level.size_lots,
                    },
                );
            },
            _ => {
                assert(priced_level(totals[i as int], *market) is None);
                return None;
            },
        }
        i = i + 1;
    }
    proof {
        assert forall|k: int| 0 <= k < totals.len() implies priced_level(
            #[trigger] totals[k],
            *market,
        ) is Some by {
            assert(Some(book@[k]) == priced_level(totals[k], *market));
        }
    }
    Some(book)
}

/// One side of a depth book, as `sort_orders` builds it, never holds more than
/// `depth` levels; its prices are strictly monotone, descending for bids and
/// ascending for asks; and each level holds the total amount of the orders at
/// its price.
pub proof fn lemma_depth_book(
    orders: Seq<GdMarketOrder>,
    market: GdMarketInfo,
    depth: nat,
    is_bid: bool,
    book: Seq<MarketOrder>,
)
    requires
        book.len() == book_levels(orders, depth, is_bid).len(),
        forall|k: int|
            0 <= k < book.len() ==> Some(#[trigger] book[k]) == priced_level(
                book_levels(orders, depth, is_bid)[k],
                market,
            ),
    ensures
        book.len() <= depth,
        is_bid ==> forall|i: int, j: int|
            0 <= i < j < book.len() ==> (#[trigger] book[i]).price_lots > (
            #[trigger] book[j]).price_lots,
        !is_bid ==> forall|i: int, j: int|
            0 <= i < j < book.len() ==> (#[trigger] book[i]).price_lots < (
            #[trigger] book[j]).price_lots,
        forall|k: int|
            0 <= k < book.len() ==> (#[trigger] book[k]).size_lots == total_at(
                order_levels(orders),
                book[k].price_lots,
            ),
{
    let totals = book_levels(orders, depth, is_bid);
    lemma_arranged_levels_monotone(order_levels(orders), is_bid, depth);
    lemma_arranged_levels_totals(order_levels(orders), is_bid, depth);
    assert forall|k: int| 0 <= k < book.len() implies (#[trigger] book[k]).size_lots == total_at(
        order_levels(orders),
        book[k].price_lots,
    ) by {
        assert(Some(book[k]) == priced_level(totals[k], market));
        assert(totals[k] == depth_levels(arranged(order_levels(orders), is_bid), depth)[k]);
        assert(totals[k].size == total_at(order_levels(orders), totals[k].price));
        lemma_total_at_nonnegative(order_levels(orders), totals[k].price);
    }
    assert forall|i: int, j: int| 0 <= i < j < book.len() implies (is_bid ==> (
    #[trigger] book[i]).price_lots > (#[trigger] book[j]).price_lots) && (!is_bid
        ==> book[i].price_lots < book[j].price_lots) by {
        assert(Some(book[i]) == priced_level(totals[i], market));
        assert(Some(book[j]) == priced_level(totals[j], market));
        if is_bid {
            assert(totals[i].price > totals[j].price);
        } else {
            assert(totals[i].price < totals[j].price);
        }
    }
}

} // verus!
