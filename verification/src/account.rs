//! Account updates as the stream delivers them.

use crate::bytes::{le_u128, read_u128};
use crate::pubkey::{base58_text, encode_base58, Pubkey};
use vstd::prelude::*;

verus! {

/// The account of an update as the stream carries it: keys and signature as
/// byte strings of whatever length.
#[derive(Clone, Debug)]
pub struct AccountInfo {
    pub pubkey: Vec<u8>,
    pub lamports: u64,
    pub owner: Vec<u8>,
    pub executable: bool,
    pub rent_epoch: u64,
    pub data: Vec<u8>,
    pub write_version: u64,
    pub txn_signature: Option<Vec<u8>>,
}

/// An update as the stream carries it.
#[derive(Clone, Debug)]
pub struct AccountUpdate {
    pub is_startup: bool,
    pub slot: u64,
    pub account: Option<AccountInfo>,
}

/// One account update: the account's address, owner and data at a slot, and
/// the base58 text of the signature of the transaction that wrote it.
#[derive(Clone, Debug)]
pub struct Account {
    pub is_startup: bool,
    pub slot: u64,
    pub pubkey: Pubkey,
    pub lamports: u64,
    pub owner: Pubkey,
    pub executable: bool,
    pub rent_epoch: u64,
    pub data: Vec<u8>,
    pub write_version: u64,
    pub txn_signature: String,
}

/// The bytes of a signature; none where there is no signature.
pub open spec fn signature_bytes(signature: Option<Vec<u8>>) -> Seq<u8> {
    match signature {
        Some(bytes) => bytes@,
        None => Seq::empty(),
    }
}

impl Account {
    /// Whether `account` is what `update` carries.
    pub open spec fn carries(account: Account, update: AccountUpdate) -> bool {
        let info = update.account.unwrap();
        &&& account.is_startup == update.is_startup
        &&& account.slot == update.slot
        &&& account.pubkey@ == info.pubkey@
        &&& account.lamports == info.lamports
        &&& account.owner@ == info.owner@
        &&& account.executable == info.executable
        &&& account.rent_epoch == info.rent_epoch
        &&& account.data@ == info.data@
        &&& account.write_version == info.write_version
        &&& account.txn_signature@ == base58_text(signature_bytes(info.txn_signature))
    }

    /// Reads an update of the stream. `None` where the update carries no
    /// account, and where the account's address or owner is not 32 bytes long.
    pub fn from_update(update: AccountUpdate) -> (r: Option<Account>)
        ensures
            r is Some <==> update.account is Some && update.account.unwrap().pubkey@.len() == 32
                && update.account.unwrap().owner@.len() == 32,
            r matches Some(account) ==> Self::carries(account, update),
    {
        let is_startup = update.is_startup;
        let slot = update.slot;
        let info = match update.account {
            Some(info) => info,
            None => {
                return None;
            },
        };
        let pubkey = match Pubkey::from_slice(info.pubkey.as_slice()) {
            Some(key) => key,
            None => {
                return None;
            },
        };
        let owner = match Pubkey::from_slice(info.owner.as_slice()) {
            Some(key) => key,
            None => {
                return None;
            },
        };
        let txn_signature = match &info.txn_signature {
            Some(bytes) => encode_base58(bytes.as_slice()),
            None => {
                let empty: Vec<u8> = Vec::new();
                encode_base58(empty.as_slice())
            },
        };
        Some(
            Account {
                is_startup,
                slot,
                pubkey,
                lamports: info.lamports,
                owner,
                executable: info.executable,
                rent_epoch: info.rent_epoch,
                data: info.data,
                write_version: info.write_version,
                txn_signature,
            },
        )
    }
}

/// The value under management that a fund account holds: the 128-bit
/// little-endian integer of its first 16 bytes. `None` for a shorter account.
pub fn get_aum_usd_data(account_data: &[u8]) -> (r: Option<u128>)
    ensures
        r is Some <==> account_data@.len() >= 16,
        r matches Some(value) ==> value == le_u128(account_data@, 0),
{
    if account_data.len() < 16 {
        return None;
    }
    Some(read_u128(account_data, 0))
}

} // verus!
