//! Account addresses: 32 bytes, written in base58.

use crate::bytes::byte_of;
use vstd::prelude::*;
use vstd::std_specs::cmp::PartialEqSpecImpl;
use vstd::string::*;

verus! {

/// Longest base58 text, in bytes, that is tried as an address.
pub const MAX_BASE58_LEN: usize = 44;

/// The address of an account.
#[derive(Clone, Copy, Debug, Eq, Hash)]
pub struct Pubkey {
    bytes: [u8; 32],
}

/// Why a text is not an address.
#[derive(Clone, Copy, Debug, PartialEq, Eq, Structural)]
pub enum ParsePubkeyError {
    /// The text is too long, or it does not decode to 32 bytes.
    WrongSize,
    /// The text is not base58.
    Invalid,
}

impl View for Pubkey {
    type V = Seq<u8>;

    closed spec fn view(&self) -> Seq<u8> {
        self.bytes@
    }
}

impl PartialEq for Pubkey {
    fn eq(&self, other: &Pubkey) -> (r: bool) {
        let mut i: usize = 0;
        while i < 32
            invariant
                i <= 32,
                forall|j: int| 0 <= j < i ==> self.bytes@[j] == other.bytes@[j],
            decreases 32 - i,
        {
            if self.bytes[i] != other.bytes[i] {
                return false;
            }
            i = i + 1;
        }
        assert(self.bytes@ =~= other.bytes@);
        true
    }
}

impl PartialEqSpecImpl for Pubkey {
    open spec fn obeys_eq_spec() -> bool {
        true
    }

    open spec fn eq_spec(&self, other: &Pubkey) -> bool {
        self@ == other@
    }
}

/// The text that base58 encoding gives for a byte string.
pub uninterp spec fn base58_text(bytes: Seq<u8>) -> Seq<char>;

/// The bytes that base58 decoding gives for a text, `None` where the text is
/// not base58.
pub uninterp spec fn base58_bytes(text: Seq<char>) -> Option<Seq<u8>>;

/// The address that program-address derivation gives for a list of seeds and a
/// program, `None` where the derivation finds none.
pub uninterp spec fn derived_address(seeds: Seq<Seq<u8>>, program: Seq<u8>) -> Option<Seq<u8>>;

/// The error of `bs58::decode`: why a text is not base58. It is carried
/// through unread.
#[verifier::external_type_specification]
#[verifier::external_body]
pub struct ExBase58DecodeError(bs58::decode::Error);

/// Calls `bs58::encode(..).into_string()`: the base58 text of the bytes, in the
/// Bitcoin alphabet. The contract only names the result.
#[verifier::external_body]
pub(crate) fn encode_base58(bytes: &[u8]) -> (r: String)
    ensures
        r@ == base58_text(bytes@),
{
    bs58::encode(bytes).into_string()
}

/// Calls `bs58::decode(..).into_vec()`: the bytes that the text stands for, or
/// the crate's error where the text is not base58. The contract only names the
/// result.
#[verifier::external_body]
pub(crate) fn decode_base58(text: &str) -> (r: Result<Vec<u8>, bs58::decode::Error>)
    ensures
        r is Ok <==> base58_bytes(text@) is Some,
        r matches Ok(v) ==> base58_bytes(text@) == Some(v@),
{
    bs58::decode(text).into_vec()
}

/// Calls `Pubkey::try_find_program_address` of `solana_sdk` with the two seeds
/// and the program: the derived address, without its bump seed, or `None`.
/// The contract only names the result.
#[verifier::external_body]
pub(crate) fn find_program_address(seed_a: &[u8], seed_b: &[u8], program: &[u8; 32]) -> (r: Option<
    [u8; 32],
>)
    ensures
        r is Some <==> derived_address(seq![seed_a@, seed_b@], program@) is Some,
        r matches Some(a) ==> derived_address(seq![seed_a@, seed_b@], program@) == Some(a@),
{
    let program = solana_sdk::pubkey::Pubkey::new_from_array(*program);
    match solana_sdk::pubkey::Pubkey::try_find_program_address(&[seed_a, seed_b], &program) {
        Some((address, _)) => Some(address.to_bytes()),
        None => None,
    }
}

/// The 32 bytes that four 64-bit words stand for: each word little-endian, the
/// words in order.
pub open spec fn words_bytes(words: Seq<u64>) -> Seq<u8> {
    Seq::new(32, |i: int| byte_of(words[i / 8] as int, i % 8) as u8)
}

impl Pubkey {
    /// The address with the given bytes.
    pub fn new_from_array(bytes: [u8; 32]) -> (r: Pubkey)
        ensures
            r@ == bytes@,
    {
        Pubkey { bytes }
    }

    /// The address whose bytes are all zero.
    pub fn zero() -> (r: Pubkey)
        ensures
            r@ == Seq::new(32, |i: int| 0u8),
    {
        let r = Pubkey { bytes: [0u8; 32] };
        assert(r.bytes@ =~= Seq::new(32, |i: int| 0u8));
        r
    }

    /// The address held by a byte string; `None` unless it has exactly 32 bytes.
    pub fn from_slice(bytes: &[u8]) -> (r: Option<Pubkey>)
        ensures
            r is Some <==> bytes@.len() == 32,
            r matches Some(k) ==> k@ == bytes@,
    {
        if bytes.len() != 32 {
            return None;
        }
        let mut out: [u8; 32] = [0u8; 32];
        let mut i: usize = 0;
        while i < 32
            invariant
                i <= 32,
                bytes@.len() == 32,
                forall|j: int| 0 <= j < i ==> out@[j] == bytes@[j],
            decreases 32 - i,
        {
            out[i] = bytes[i];
            i = i + 1;
        }
        assert(out@ =~= bytes@);
        Some(Pubkey { bytes: out })
    }

    /// The 32 bytes of the address.
    pub fn to_bytes(&self) -> (r: [u8; 32])
        ensures
            r@ == self@,
            self@.len() == 32,
    {
        self.bytes
    }

    /// The base58 text of the address.
    pub fn to_base58(&self) -> (r: String)
        ensures
            r@ == base58_text(self@),
    {
        encode_base58(self.bytes.as_slice())
    }

    /// What `from_base58` owes for a text, given what base58 decoding gives for it.
    pub open spec fn parsed(text_len: nat, decoded: Option<Seq<u8>>) -> Result<
        Seq<u8>,
        ParsePubkeyError,
    > {
        if text_len > MAX_BASE58_LEN {
            Err(ParsePubkeyError::WrongSize)
        } else {
            match decoded {
                None => Err(ParsePubkeyError::Invalid),
                Some(bytes) => if bytes.len() == 32 {
                    Ok(bytes)
                } else {
                    Err(ParsePubkeyError::WrongSize)
                },
            }
        }
    }

    /// What a text stands for: its address, or why it has none. The length
    /// that counts is that of the text in bytes.
    pub open spec fn spec_from_base58(text: Seq<char>) -> Result<Seq<u8>, ParsePubkeyError> {
        Self::parsed(vstd::utf8::encode_utf8(text).len(), base58_bytes(text))
    }

    /// Reads an address from its base58 text. A text of more than 44 bytes is
    /// refused unread; one that is not base58 is `Invalid`; one that decodes
    /// to another length than 32 is `WrongSize`.
    pub fn from_base58(text: &str) -> (r: Result<Pubkey, ParsePubkeyError>)
        ensures
            match r {
                Ok(k) => Self::spec_from_base58(text@) == Ok::<Seq<u8>, ParsePubkeyError>(k@),
                Err(e) => Self::spec_from_base58(text@) == Err::<Seq<u8>, ParsePubkeyError>(e),
            },
    {
        assert(text.spec_bytes() == vstd::utf8::encode_utf8(text@));
        let bytes = text.as_bytes();
        if bytes.len() > MAX_BASE58_LEN {
            return Err(ParsePubkeyError::WrongSize);
        }
        match decode_base58(text) {
            Err(_) => Err(ParsePubkeyError::Invalid),
            Ok(bytes) => Self::from_decoded(bytes),
        }
    }

    /// The address held by decoded bytes: `WrongSize` unless there are 32.
    pub fn from_decoded(bytes: Vec<u8>) -> (r: Result<Pubkey, ParsePubkeyError>)
        ensures
            match r {
                Ok(k) => bytes@.len() == 32 && k@ == bytes@,
                Err(e) => bytes@.len() != 32 && e == ParsePubkeyError::WrongSize,
            },
    {
        match Pubkey::from_slice(bytes.as_slice()) {
            Some(k) => Ok(k),
            None => Err(ParsePubkeyError::WrongSize),
        }
    }

    /// The address derived for a program from two seeds; `None` where the
    /// derivation finds none.
    pub fn derive(seed_a: &[u8], seed_b: &[u8], program: &Pubkey) -> (r: Option<Pubkey>)
        ensures
            r is Some <==> derived_address(seq![seed_a@, seed_b@], program@) is Some,
            r matches Some(k) ==> derived_address(seq![seed_a@, seed_b@], program@) == Some(k@),
    {
        match find_program_address(seed_a, seed_b, &program.bytes) {
            Some(bytes) => Some(Pubkey { bytes }),
            None => None,
        }
    }
}

/// The low eight bits of `x`, and the rest.
fn split_byte(x: u64) -> (r: (u8, u64))
    ensures
        r.0 == x % 256,
        r.1 == x / 256,
{
    ((x % 256) as u8, x / 256)
}

/// The eight little-endian bytes of a word.
fn word_bytes(word: u64) -> (r: [u8; 8])
    ensures
        forall|j: int| 0 <= j < 8 ==> r@[j] == byte_of(word as int, j),
{
    let (b0, w1) = split_byte(word);
    let (b1, w2) = split_byte(w1);
    let (b2, w3) = split_byte(w2);
    let (b3, w4) = split_byte(w3);
    let (b4, w5) = split_byte(w4);
    let (b5, w6) = split_byte(w5);
    let (b6, w7) = split_byte(w6);
    let (b7, _w8) = split_byte(w7);
    proof {
        reveal_with_fuel(byte_of, 9);
    }
    [b0, b1, b2, b3, b4, b5, b6, b7]
}

/// Reads a key stored as four 64-bit words: its 32 bytes are the words'
/// little-endian bytes, in order.
pub fn array_to_pubkey(data: [u64; 4]) -> (r: Pubkey)
    ensures
        r@ == words_bytes(data@),
{
    let mut out: [u8; 32] = [0u8; 32];
    let mut k: usize = 0;
    while k < 4
        invariant
            k <= 4,
            forall|i: int| 0 <= i < 8 * k ==> out@[i] == byte_of(data@[i / 8] as int, i % 8),
        decreases 4 - k,
    {
        let w = word_bytes(data[k]);
        let mut j: usize = 0;
        while j < 8
            invariant
                k < 4,
                j <= 8,
                forall|i: int| 0 <= i < 8 * k + j ==> out@[i] == byte_of(data@[i / 8] as int, i % 8),
                forall|t: int| 0 <= t < 8 ==> w@[t] == byte_of(data@[k as int] as int, t),
            decreases 8 - j,
        {
            out[8 * k + j] = w[j];
            j = j + 1;
        }
        k = k + 1;
    }
    assert(out@ =~= words_bytes(data@));
    Pubkey { bytes: out }
}

} // verus!
