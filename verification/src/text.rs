//! Numbers as decimal text, and the keys under which the engine writes.

use vstd::prelude::*;
use vstd::string::*;

verus! {

/// Key of the price table of all markets.
pub const PRICES_KEY: &'static str = "prices";

/// Prefix of the key of a market's summary.
pub const SUMMARY_KEY: &'static str = "summary";

/// The one channel that every event is published on.
pub const CHANNEL_NAME: &'static str = "all_data";

/// Key of the set of active market slugs.
pub const MARKETS_KEY: &'static str = "markets";

/// Prefix of the key of a market's configuration.
pub const MARKET_INFO_KEY: &'static str = "market_info";

/// Prefix of the key of a market's depth book.
pub const ORDERBOOK_KEY: &'static str = "compressed_orderbook";

/// Prefix of the key of a market's recent trades.
pub const RECENT_TRADES_KEY: &'static str = "recent_trades";

/// Prefix of the key of a market's last trade.
pub const LAST_TRADE_KEY: &'static str = "last_trade_data";

/// Prefix of the key of the bids of a market's users.
pub const UID_BIDS_KEY: &'static str = "uid_bids";

/// Prefix of the key of the asks of a market's users.
pub const UID_ASKS_KEY: &'static str = "uid_asks";

/// Prefix of the key of the balances of a market's users.
pub const BALANCES_KEY: &'static str = "balances";

/// Milliseconds to wait before the subscription is opened again.
pub const DELAY_MILISEC: u64 = 100;

/// Seed of the address of a market's sell log.
pub const SELL_LOG_PDA_SEED: &'static str = "sell_log_pda_seed";

/// Seed of the address of a market's buy log.
pub const BUY_LOG_PDA_SEED: &'static str = "buy_log_pda_seed";

/// Program of the second venue.
pub const GIGADEX_PROGRAM_ID: &'static str = "833pSHchW8AWggrvx8394HHkH1cMHxdyYcDro8ABYUXC";

/// Program of the order-book venue.
pub const OPENBOOK_PROGRAM_ID: &'static str = "srmqPvymJeFKQ4zGQed1GFppgkRHL9kaELCbyksJtPX";

/// The character of a decimal digit.
pub open spec fn digit_char(d: int) -> char {
    if d == 0 {
        '0'
    } else if d == 1 {
        '1'
    } else if d == 2 {
        '2'
    } else if d == 3 {
        '3'
    } else if d == 4 {
        '4'
    } else if d == 5 {
        '5'
    } else if d == 6 {
        '6'
    } else if d == 7 {
        '7'
    } else if d == 8 {
        '8'
    } else {
        '9'
    }
}

/// The decimal digit that a character stands for.
pub open spec fn digit_value(c: char) -> Option<int> {
    if c == '0' {
        Some(0)
    } else if c == '1' {
        Some(1)
    } else if c == '2' {
        Some(2)
    } else if c == '3' {
        Some(3)
    } else if c == '4' {
        Some(4)
    } else if c == '5' {
        Some(5)
    } else if c == '6' {
        Some(6)
    } else if c == '7' {
        Some(7)
    } else if c == '8' {
        Some(8)
    } else if c == '9' {
        Some(9)
    } else {
        None
    }
}

/// The decimal text of a number, without leading zeros.
pub open spec fn decimal_text(n: nat) -> Seq<char>
    decreases n,
{
    if n < 10 {
        seq![digit_char(n as int)]
    } else {
        decimal_text(n / 10).push(digit_char((n % 10) as int))
    }
}

/// The text of one digit.
fn digit_str(d: u8) -> (r: &'static str)
    requires
        d < 10,
    ensures
        r@ == seq![digit_char(d as int)],
{
    proof {
        reveal_strlit("0");
        reveal_strlit("1");
        reveal_strlit("2");
        reveal_strlit("3");
        reveal_strlit("4");
        reveal_strlit("5");
        reveal_strlit("6");
        reveal_strlit("7");
        reveal_strlit("8");
        reveal_strlit("9");
    }
    let r = if d == 0 {
        "0"
    } else if d == 1 {
        "1"
    } else if d == 2 {
        "2"
    } else if d == 3 {
        "3"
    } else if d == 4 {
        "4"
    } else if d == 5 {
        "5"
    } else if d == 6 {
        "6"
    } else if d == 7 {
        "7"
    } else if d == 8 {
        "8"
    } else {
        "9"
    };
    assert(r@ =~= seq![digit_char(d as int)]);
    r
}

/// Appends the decimal text of `x` to `out`.
pub fn write_decimal(x: u128, out: &mut String)
    ensures
        final(out)@ == old(out)@ + decimal_text(x as nat),
    decreases x,
{
    if x >= 10 {
        write_decimal(x / 10, out);
    }
    let ghost before = out@;
    out.append(digit_str((x % 10) as u8));
    proof {
        if x >= 10 {
            assert(out@ =~= old(out)@ + decimal_text((x / 10) as nat).push(
                digit_char((x % 10) as int),
            ));
        } else {
            assert(out@ =~= old(out)@ + seq![digit_char(x as int)]);
        }
    }
}

/// The decimal text of `x`.
pub fn u128_to_string(x: u128) -> (r: String)
    ensures
        r@ == decimal_text(x as nat),
{
    let mut out = String::new();
    write_decimal(x, &mut out);
    assert(out@ =~= decimal_text(x as nat));
    out
}

/// `prefix`, a colon, and `name`: the key of one market's entry of a kind.
pub fn keyed(prefix: &str, name: &str) -> (r: String)
    ensures
        r@ == prefix@ + seq![':'] + name@,
{
    proof {
        reveal_strlit(":");
    }
    let mut out = String::from_str(prefix);
    out.append(":");
    out.append(name);
    assert(":"@ =~= seq![':']);
    out
}

/// The key of the orders of a market's users on one side.
pub fn uid_orders_key(is_bid: bool, market: &str) -> (r: String)
    ensures
        r@ == if is_bid {
            UID_BIDS_KEY@
        } else {
            UID_ASKS_KEY@
        } + seq![':'] + market@,
{
    if is_bid {
        keyed(UID_BIDS_KEY, market)
    } else {
        keyed(UID_ASKS_KEY, market)
    }
}

/// The number that a run of digits stands for.
pub open spec fn digits_value(digits: Seq<char>) -> int
    decreases digits.len(),
{
    if digits.len() == 0 {
        0
    } else {
        digits_value(digits.drop_last()) * 10 + match digit_value(digits.last()) {
            Some(d) => d,
            None => 0,
        }
    }
}

/// Whether every character is a decimal digit.
pub open spec fn all_digits(digits: Seq<char>) -> bool {
    forall|i: int| 0 <= i < digits.len() ==> digit_value(#[trigger] digits[i]) is Some
}

/// The text without a leading plus sign.
pub open spec fn unsigned_part(text: Seq<char>) -> Seq<char> {
    if text.len() > 0 && text[0] == '+' {
        text.subrange(1, text.len() as int)
    } else {
        text
    }
}

/// The number below 256 that a decimal text stands for: one or more digits,
/// with or without a plus sign before them. `None` for any other text and for
/// a number above 255.
pub open spec fn spec_parse_u8(text: Seq<char>) -> Option<u8> {
    let digits = unsigned_part(text);
    if digits.len() > 0 && all_digits(digits) && digits_value(digits) <= 255 {
        Some(digits_value(digits) as u8)
    } else {
        None
    }
}

/// The value of a run of digits does not shrink as the run grows.
proof fn lemma_digits_value_grows(digits: Seq<char>, i: int)
    requires
        0 <= i <= digits.len(),
    ensures
        0 <= digits_value(digits.take(i)) <= digits_value(digits),
    decreases digits.len() - i,
{
    if i == digits.len() {
        assert(digits.take(i) =~= digits);
        lemma_digits_value_nonnegative(digits);
    } else {
        lemma_digits_value_grows(digits, i + 1);
        let next = digits.take(i + 1);
        assert(next.drop_last() =~= digits.take(i));
        lemma_digits_value_nonnegative(digits.take(i));
    }
}

/// The value of a run of digits is not negative.
proof fn lemma_digits_value_nonnegative(digits: Seq<char>)
    ensures
        0 <= digits_value(digits),
    decreases digits.len(),
{
    if digits.len() > 0 {
        lemma_digits_value_nonnegative(digits.drop_last());
    }
}

/// The digit that a character stands for.
fn digit_of(c: char) -> (r: Option<u8>)
    ensures
        match r {
            Some(d) => digit_value(c) == Some(d as int),
            None => digit_value(c) is None,
        },
{
    if c == '0' {
        Some(0)
    } else if c == '1' {
        Some(1)
    } else if c == '2' {
        Some(2)
    } else if c == '3' {
        Some(3)
    } else if c == '4' {
        Some(4)
    } else if c == '5' {
        Some(5)
    } else if c == '6' {
        Some(6)
    } else if c == '7' {
        Some(7)
    } else if c == '8' {
        Some(8)
    } else if c == '9' {
        Some(9)
    } else {
        None
    }
}

/// Reads a number below 256 from its decimal text.
pub fn parse_u8(text: &str) -> (r: Option<u8>)
    ensures
        r == spec_parse_u8(text@),
{
    let len = text.unicode_len();
    let start: usize = if len > 0 && text.get_char(0) == '+' {
        1
    } else {
        0
    };
    let ghost digits = unsigned_part(text@);
    assert(digits =~= text@.subrange(start as int, len as int));
    if start == len {
        return None;
    }
    let mut value: u32 = 0;
    let mut i: usize = start;
    while i < len
        invariant
            start <= i <= len,
            len == text@.len(),
            digits == text@.subrange(start as int, len as int),
            digits == unsigned_part(text@),
            value == digits_value(digits.take(i - start)),
            value <= 255,
            forall|k: int| 0 <= k < i - start ==> digit_value(#[trigger] digits[k]) is Some,
        decreases len - i,
    {
        let c = text.get_char(i);
        assert(c == digits[i - start]);
        proof {
            let next = digits.take(i - start + 1);
            assert(next.drop_last() =~= digits.take(i - start));
            assert(next.last() == c);
        }
        match digit_of(c) {
            None => {
                assert(digit_value(digits[i - start]) is None);
                return None;
            },
            Some(d) => {
                value = value * 10 + d as u32;
                if value > 255 {
                    proof {
                        lemma_digits_value_grows(digits, i - start + 1);
                        assert(digits_value(digits) > 255);
                    }
                    return None;
                }
            },
        }
        i = i + 1;
    }
    assert(digits.take(i - start) =~= digits);
    Some(value as u8)
}

} // verus!
