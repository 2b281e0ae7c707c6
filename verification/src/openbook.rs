//! The order-book venue's market descriptor.

use crate::bytes::{le_u64, read_u64, read_words4};
use crate::pubkey::Pubkey;
use vstd::prelude::*;

verus! {

/// Bytes that precede the market record in its account.
pub const OB_MARKET_PREFIX: usize = 5;

/// Bytes of the market record: 47 words of 64 bits.
pub const OB_MARKET_STATE_LEN: usize = 376;

/// A market of the order-book venue: its accounts, the decimal exponents of
/// its tokens and its lot sizes.
#[derive(Clone, Debug)]
pub struct ObMarketInfo {
    pub name: String,
    pub address: Pubkey,
    pub base_mint: Pubkey,
    pub quote_mint: Pubkey,
    pub bids: Pubkey,
    pub asks: Pubkey,
    pub event_queue: Pubkey,
    pub base_decimals: u8,
    pub quote_decimals: u8,
    pub base_lot_size: u64,
    pub quote_lot_size: u64,
}

impl ObMarketInfo {
    /// Whether `account` is one of the three accounts that this market is fed
    /// from: its bids, its asks, its event queue.
    pub fn is_valid_account(&self, account: &Pubkey) -> (r: bool)
        ensures
            r == (account@ == self.bids@ || account@ == self.asks@ || account@
                == self.event_queue@),
    {
        *account == self.bids || *account == self.asks || *account == self.event_queue
    }
}

/// The market record as the venue stores it: 47 little-endian words, keys as
/// four words each.
#[derive(Clone, Copy, Debug)]
pub struct ObMarketState {
    pub account_flags: u64,
    pub own_address: [u64; 4],
    pub vault_signer_nonce: u64,
    pub coin_mint: [u64; 4],
    pub pc_mint: [u64; 4],
    pub coin_vault: [u64; 4],
    pub coin_deposits_total: u64,
    pub coin_fees_accrued: u64,
    pub pc_vault: [u64; 4],
    pub pc_deposits_total: u64,
    pub pc_fees_accrued: u64,
    pub pc_dust_threshold: u64,
    pub req_q: [u64; 4],
    pub event_q: [u64; 4],
    pub bids: [u64; 4],
    pub asks: [u64; 4],
    pub coin_lot_size: u64,
    pub pc_lot_size: u64,
    pub fee_rate_bps: u64,
    pub referrer_rebates_accrued: u64,
}

/// The four words that start at word `index` of a record that starts at `at`.
pub open spec fn words_at(s: Seq<u8>, at: int, index: int) -> Seq<u64> {
    Seq::new(4, |k: int| le_u64(s, at + 8 * (index + k)) as u64)
}

impl ObMarketState {
    /// Whether `state` is the record held by `data` from byte `at` on.
    pub open spec fn decodes(state: ObMarketState, data: Seq<u8>, at: int) -> bool {
        &&& state.account_flags == le_u64(data, at)
        &&& state.own_address@ == words_at(data, at, 1)
        &&& state.vault_signer_nonce == le_u64(data, at + 8 * 5)
        &&& state.coin_mint@ == words_at(data, at, 6)
        &&& state.pc_mint@ == words_at(data, at, 10)
        &&& state.coin_vault@ == words_at(data, at, 14)
        &&& state.coin_deposits_total == le_u64(data, at + 8 * 18)
        &&& state.coin_fees_accrued == le_u64(data, at + 8 * 19)
        &&& state.pc_vault@ == words_at(data, at, 20)
        &&& state.pc_deposits_total == le_u64(data, at + 8 * 24)
        &&& state.pc_fees_accrued == le_u64(data, at + 8 * 25)
        &&& state.pc_dust_threshold == le_u64(data, at + 8 * 26)
        &&& state.req_q@ == words_at(data, at, 27)
        &&& state.event_q@ == words_at(data, at, 31)
        &&& state.bids@ == words_at(data, at, 35)
        &&& state.asks@ == words_at(data, at, 39)
        &&& state.coin_lot_size == le_u64(data, at + 8 * 43)
        &&& state.pc_lot_size == le_u64(data, at + 8 * 44)
        &&& state.fee_rate_bps == le_u64(data, at + 8 * 45)
        &&& state.referrer_rebates_accrued == le_u64(data, at + 8 * 46)
    }

    /// Reads the market record of a market account: it follows a prefix of 5
    /// bytes; what comes after the record is not read. `None` where the
    /// account is too short to hold it.
    pub fn deserialize(data: &[u8]) -> (r: Option<ObMarketState>)
        ensures
            r is Some <==> data@.len() >= OB_MARKET_PREFIX + OB_MARKET_STATE_LEN,
            r matches Some(state) ==> Self::decodes(state, data@, OB_MARKET_PREFIX as int),
    {
        if data.len() < OB_MARKET_PREFIX + OB_MARKET_STATE_LEN {
            return None;
        }
        let at: usize = OB_MARKET_PREFIX;
        let state = ObMarketState {
            account_flags: read_u64(data, at),
            own_address: read_key_words(data, at, 1),
            vault_signer_nonce: read_u64(data, at + 8 * 5),
            coin_mint: read_key_words(data, at, 6),
            pc_mint: read_key_words(data, at, 10),
            coin_vault: read_key_words(data, at, 14),
            coin_deposits_total: read_u64(data, at + 8 * 18),
            coin_fees_accrued: read_u64(data, at + 8 * 19),
            pc_vault: read_key_words(data, at, 20),
            pc_deposits_total: read_u64(data, at + 8 * 24),
            pc_fees_accrued: read_u64(data, at + 8 * 25),
            pc_dust_threshold: read_u64(data, at + 8 * 26),
            req_q: read_key_words(data, at, 27),
            event_q: read_key_words(data, at, 31),
            bids: read_key_words(data, at, 35),
            asks: read_key_words(data, at, 39),
            coin_lot_size: read_u64(data, at + 8 * 43),
            pc_lot_size: read_u64(data, at + 8 * 44),
            fee_rate_bps: read_u64(data, at + 8 * 45),
            referrer_rebates_accrued: read_u64(data, at + 8 * 46),
        };
        Some(state)
    }
}

/// Reads the four words that start at word `index` of a record that starts at `at`.
fn read_key_words(data: &[u8], at: usize, index: usize) -> (r: [u64; 4])
    requires
        at + 8 * (index + 4) <= data.len(),
    ensures
        r@ == words_at(data@, at as int, index as int),
{
    let r = read_words4(data, at + 8 * index);
    assert(r@ =~= words_at(data@, at as int, index as int));
    r
}

} // verus!
