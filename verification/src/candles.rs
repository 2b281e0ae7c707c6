//! Candles: the trades of a batch, bucketed by time, as open, high, low,
//! close and traded amount.

use crate::decimal::{
    checked_add, decimal_le, decimal_lt, decimal_sum, less_than, lemma_pow10_monotonic, pow10,
    DecimalValue, Unpriced,
};
use crate::market::MarketTrade;
use vstd::prelude::*;
use vstd::string::*;

verus! {

/// Seconds of a minute.
pub const SECONDS_PER_MINUTE: u64 = 60;

/// Seconds of an hour.
pub const SECONDS_PER_HOUR: u64 = 3_600;

/// Seconds of a day.
pub const SECONDS_PER_DAY: u64 = 86_400;

/// The width of a candle.
#[derive(Clone, Copy, Debug, PartialEq, Eq, Structural)]
pub enum CandleUnit {
    OneMinute,
    FifteenMinutes,
    FourHours,
    OneDay,
}

impl CandleUnit {
    /// The width in seconds.
    pub open spec fn spec_seconds(self) -> u64 {
        match self {
            CandleUnit::OneMinute => SECONDS_PER_MINUTE,
            CandleUnit::FifteenMinutes => (15 * SECONDS_PER_MINUTE) as u64,
            CandleUnit::FourHours => (4 * SECONDS_PER_HOUR) as u64,
            CandleUnit::OneDay => SECONDS_PER_DAY,
        }
    }

    /// The name of the unit.
    pub open spec fn spec_label(self) -> Seq<char> {
        match self {
            CandleUnit::OneMinute => seq!['1', 'm'],
            CandleUnit::FifteenMinutes => seq!['1', '5', 'm'],
            CandleUnit::FourHours => seq!['4', 'h'],
            CandleUnit::OneDay => seq!['1', 'd'],
        }
    }

    /// The unit with the given name.
    pub open spec fn spec_parse(text: Seq<char>) -> Option<CandleUnit> {
        if text == CandleUnit::OneMinute.spec_label() {
            Some(CandleUnit::OneMinute)
        } else if text == CandleUnit::FifteenMinutes.spec_label() {
            Some(CandleUnit::FifteenMinutes)
        } else if text == CandleUnit::FourHours.spec_label() {
            Some(CandleUnit::FourHours)
        } else if text == CandleUnit::OneDay.spec_label() {
            Some(CandleUnit::OneDay)
        } else {
            None
        }
    }

    /// The four units, shortest first.
    pub fn all() -> (r: [CandleUnit; 4])
        ensures
            r@ == seq![
                CandleUnit::OneMinute,
                CandleUnit::FifteenMinutes,
                CandleUnit::FourHours,
                CandleUnit::OneDay,
            ],
    {
        let r = [
            CandleUnit::OneMinute,
            CandleUnit::FifteenMinutes,
            CandleUnit::FourHours,
            CandleUnit::OneDay,
        ];
        assert(r@ =~= seq![
            CandleUnit::OneMinute,
            CandleUnit::FifteenMinutes,
            CandleUnit::FourHours,
            CandleUnit::OneDay,
        ]);
        r
    }

    /// The width in seconds.
    pub fn seconds(self) -> (r: u64)
        ensures
            r == self.spec_seconds(),
    {
        match self {
            CandleUnit::OneMinute => SECONDS_PER_MINUTE,
            CandleUnit::FifteenMinutes => 15 * SECONDS_PER_MINUTE,
            CandleUnit::FourHours => 4 * SECONDS_PER_HOUR,
            CandleUnit::OneDay => SECONDS_PER_DAY,
        }
    }

    /// The name of the unit: `1m`, `15m`, `4h` or `1d`.
    pub fn label(self) -> (r: &'static str)
        ensures
            r@ == self.spec_label(),
    {
        proof {
            reveal_strlit("1m");
            reveal_strlit("15m");
            reveal_strlit("4h");
            reveal_strlit("1d");
        }
        let r = match self {
            CandleUnit::OneMinute => "1m",
            CandleUnit::FifteenMinutes => "15m",
            CandleUnit::FourHours => "4h",
            CandleUnit::OneDay => "1d",
        };
        assert(r@ =~= self.spec_label());
        r
    }

    /// Reads a unit from its name.
    pub fn parse(text: &str) -> (r: Option<CandleUnit>)
        ensures
            r == Self::spec_parse(text@),
    {
        let len = text.unicode_len();
        if len == 2 {
            let a = text.get_char(0);
            let b = text.get_char(1);
            assert(text@ =~= seq![a, b]);
            if a == '1' && b == 'm' {
                Some(CandleUnit::OneMinute)
            } else if a == '4' && b == 'h' {
                Some(CandleUnit::FourHours)
            } else if a == '1' && b == 'd' {
                Some(CandleUnit::OneDay)
            } else {
                None
            }
        } else if len == 3 {
            let a = text.get_char(0);
            let b = text.get_char(1);
            let c = text.get_char(2);
            assert(text@ =~= seq![a, b, c]);
            if a == '1' && b == '5' && c == 'm' {
                Some(CandleUnit::FifteenMinutes)
            } else {
                None
            }
        } else {
            None
        }
    }
}

/// The width in seconds of the unit with the given name; 60 for a name that
/// is no unit.
pub fn unit_seconds(unit: &str) -> (r: u64)
    ensures
        r == match CandleUnit::spec_parse(unit@) {
            Some(u) => u.spec_seconds(),
            None => 60u64,
        },
{
    match CandleUnit::parse(unit) {
        Some(u) => u.seconds(),
        None => SECONDS_PER_MINUTE,
    }
}

/// The start of the bucket that holds `blocktime`: the last multiple of the
/// width that is not after it.
pub open spec fn bucket_begin(blocktime: u64, width: u64) -> int {
    (blocktime / width) * width
}

/// The bucket of `blocktime`: its start and its end, one width later. `None`
/// where the end does not fit in 64 bits.
pub fn candle_bucket(blocktime: u64, unit: CandleUnit) -> (r: Option<(u64, u64)>)
    ensures
        r is Some <==> bucket_begin(blocktime, unit.spec_seconds()) + unit.spec_seconds()
            <= u64::MAX,
        r matches Some(bucket) ==> bucket.0 == bucket_begin(blocktime, unit.spec_seconds())
            && bucket.1 == bucket.0 + unit.spec_seconds() && bucket.0 <= blocktime < bucket.1,
{
    let width = unit.seconds();
    assert(width == 60 || width == 900 || width == 14_400 || width == 86_400);
    assert(0 <= (blocktime / width) * width <= blocktime < (blocktime / width) * width + width)
        by (nonlinear_arith)
        requires
            width > 0,
    ;
    let begin = (blocktime / width) * width;
    match begin.checked_add(width) {
        Some(end) => Some((begin, end)),
        None => None,
    }
}

/// One candle.
#[derive(Clone, Debug)]
pub struct CandleData {
    pub open: DecimalValue,
    pub high: DecimalValue,
    pub low: DecimalValue,
    pub close: DecimalValue,
    pub amount: DecimalValue,
    pub begin_ts: u64,
    pub end_ts: u64,
    pub unit: String,
    pub slug: String,
}

/// The five values of a candle.
#[derive(Clone, Copy, Debug, PartialEq, Eq, Structural)]
pub struct CandleValues {
    pub open: DecimalValue,
    pub high: DecimalValue,
    pub low: DecimalValue,
    pub close: DecimalValue,
    pub amount: DecimalValue,
}

/// The price and the amount of each trade.
pub open spec fn trade_points(trades: Seq<MarketTrade>) -> Seq<(DecimalValue, DecimalValue)> {
    Seq::new(trades.len(), |i: int| (trades[i].avg_price, trades[i].amount))
}

/// The open of a new bucket: the close of the latest stored candle before it,
/// where there is one; else the price of the first trade.
pub open spec fn resolved_open(stored_close: Option<DecimalValue>, price: DecimalValue)
    -> DecimalValue {
    match stored_close {
        Some(close) => close,
        None => price,
    }
}

/// The larger of two values; the first where they are equal as numbers.
pub open spec fn higher(a: DecimalValue, b: DecimalValue) -> DecimalValue {
    if decimal_lt(a, b) {
        b
    } else {
        a
    }
}

/// The smaller of two values; the first where they are equal as numbers.
pub open spec fn lower(a: DecimalValue, b: DecimalValue) -> DecimalValue {
    if decimal_lt(b, a) {
        b
    } else {
        a
    }
}

/// The sum of the amounts in decimal arithmetic, added in order; `None` for
/// no amounts and where an addition overflows.
pub open spec fn total_amount(points: Seq<(DecimalValue, DecimalValue)>) -> Option<DecimalValue>
    decreases points.len(),
{
    if points.len() == 0 {
        None
    } else if points.len() == 1 {
        Some(points[0].1)
    } else {
        match total_amount(points.drop_last()) {
            None => None,
            Some(sum) => decimal_sum(sum, points.last().1),
        }
    }
}

/// The candle of the trades of one bucket, in order: the first trade opens it
/// with `open`, and each further trade raises the high, lowers the low, sets
/// the close and adds to the amount. `None` for no trades and where an
/// addition overflows.
pub open spec fn candle_of(points: Seq<(DecimalValue, DecimalValue)>, open: DecimalValue) -> Option<
    CandleValues,
>
    decreases points.len(),
{
    if points.len() == 0 {
        None
    } else if points.len() == 1 {
        Some(
            CandleValues {
                open,
                high: points[0].0,
                low: points[0].0,
                close: points[0].0,
                amount: points[0].1,
            },
        )
    } else {
        match candle_of(points.drop_last(), open) {
            None => None,
            Some(c) => match decimal_sum(c.amount, points.last().1) {
                None => None,
                Some(amount) => Some(
                    CandleValues {
                        open: c.open,
                        high: higher(c.high, points.last().0),
                        low: lower(c.low, points.last().0),
                        close: points.last().0,
                        amount,
                    },
                ),
            },
        }
    }
}

/// The order of decimal values is transitive.
pub proof fn lemma_decimal_le_transitive(a: DecimalValue, b: DecimalValue, c: DecimalValue)
    requires
        decimal_le(a, b),
        decimal_le(b, c),
    ensures
        decimal_le(a, c),
{
    let pa = pow10(a.spec_scale()) as int;
    let pb = pow10(b.spec_scale()) as int;
    let pc = pow10(c.spec_scale()) as int;
    lemma_pow10_monotonic(0, a.spec_scale());
    lemma_pow10_monotonic(0, b.spec_scale());
    lemma_pow10_monotonic(0, c.spec_scale());
    let am = a.spec_mantissa();
    let bm = b.spec_mantissa();
    let cm = c.spec_mantissa();
    assert(am * pb <= bm * pa);
    assert(bm * pc <= cm * pb);
    assert(am * pc <= cm * pa) by (nonlinear_arith)
        requires
            am * pb <= bm * pa,
            bm * pc <= cm * pb,
            pa > 0,
            pb > 0,
            pc > 0,
    ;
}

/// What holds of every candle: its close is the price of the last trade, its
/// low is at most and its high at least the price of each of its trades, its
/// amount is the sum of their amounts, and its open is the one it was opened
/// with. A candle of one trade that was opened with that trade's price has
/// its open equal to its close.
pub proof fn lemma_candle(points: Seq<(DecimalValue, DecimalValue)>, open: DecimalValue)
    requires
        candle_of(points, open) is Some,
    ensures
        points.len() > 0,
        candle_of(points, open).unwrap().open == open,
        candle_of(points, open).unwrap().close == points.last().0,
        Some(candle_of(points, open).unwrap().amount) == total_amount(points),
        forall|k: int|
            0 <= k < points.len() ==> decimal_le(
                candle_of(points, open).unwrap().low,
                (#[trigger] points[k]).0,
            ) && decimal_le(points[k].0, candle_of(points, open).unwrap().high),
        decimal_le(candle_of(points, open).unwrap().low, candle_of(points, open).unwrap().close),
        decimal_le(candle_of(points, open).unwrap().close, candle_of(points, open).unwrap().high),
        points.len() == 1 && open == points[0].0 ==> candle_of(points, open).unwrap().open
            == candle_of(points, open).unwrap().close,
    decreases points.len(),
{
    let c = candle_of(points, open).unwrap();
    if points.len() > 1 {
        let head = points.drop_last();
        lemma_candle(head, open);
        let before = candle_of(head, open).unwrap();
        let price = points.last().0;
        assert forall|k: int| 0 <= k < points.len() implies decimal_le(c.low, (#[trigger] points[k]).0)
            && decimal_le(points[k].0, c.high) by {
            if k < head.len() {
                assert(head[k] == points[k]);
                assert(decimal_le(before.low, head[k].0));
                assert(decimal_le(head[k].0, before.high));
                assert(decimal_le(c.low, before.low));
                assert(decimal_le(before.high, c.high));
                lemma_decimal_le_transitive(c.low, before.low, points[k].0);
                lemma_decimal_le_transitive(points[k].0, before.high, c.high);
            }
        }
    }
}

/// Where the open is the price of the first trade, it lies between low and high.
pub proof fn lemma_candle_open_in_range(points: Seq<(DecimalValue, DecimalValue)>)
    requires
        points.len() > 0,
        candle_of(points, points[0].0) is Some,
    ensures
        decimal_le(
            candle_of(points, points[0].0).unwrap().low,
            candle_of(points, points[0].0).unwrap().open,
        ),
        decimal_le(
            candle_of(points, points[0].0).unwrap().open,
            candle_of(points, points[0].0).unwrap().high,
        ),
{
    lemma_candle(points, points[0].0);
}

/// Whether the trades of a batch can be made a candle of the given unit: the
/// bucket of the first trade's blocktime ends within 64 bits, and the amounts
/// add up.
pub open spec fn candle_fits(trades: Seq<MarketTrade>, unit: CandleUnit) -> bool {
    &&& bucket_begin(trades[0].blocktime, unit.spec_seconds()) + unit.spec_seconds() <= u64::MAX
    &&& total_amount(trade_points(trades)) is Some
}

/// Whether `candle` is the candle of a batch: every trade of the batch lies in
/// the bucket of the first trade's blocktime.
pub open spec fn is_batch_candle(
    candle: CandleData,
    trades: Seq<MarketTrade>,
    unit: CandleUnit,
    stored_close: Option<DecimalValue>,
) -> bool {
    &&& candle_of(trade_points(trades), resolved_open(stored_close, trades[0].avg_price)) == Some(
        CandleValues {
            open: candle.open,
            high: candle.high,
            low: candle.low,
            close: candle.close,
            amount: candle.amount,
        },
    )
    &&& candle.begin_ts == bucket_begin(trades[0].blocktime, unit.spec_seconds())
    &&& candle.end_ts == candle.begin_ts + unit.spec_seconds()
    &&& candle.unit@ == unit.spec_label()
    &&& candle.slug@ == trades[0].slug@
}

/// A candle has a total amount exactly where it has values.
proof fn lemma_candle_exists(points: Seq<(DecimalValue, DecimalValue)>, open: DecimalValue)
    ensures
        candle_of(points, open) is Some <==> total_amount(points) is Some,
        candle_of(points, open) matches Some(c) ==> Some(c.amount) == total_amount(points),
    decreases points.len(),
{
    if points.len() > 1 {
        lemma_candle_exists(points.drop_last(), open);
    }
}

/// Builds the candle of a batch of trades for one unit. Every trade of the
/// batch counts for the bucket that holds the blocktime of the first trade,
/// so a batch has one bucket and no earlier bucket of its own to take an open
/// from. `stored_close` is the close of the latest stored candle of the
/// market and unit that begins before that bucket, where there is one. A
/// batch without trades has no candle. `Err` where the bucket or the amounts
/// do not fit.
pub fn build_candle(trades: &Vec<MarketTrade>, unit: CandleUnit, stored_close: Option<DecimalValue>)
    -> (r: Result<Option<CandleData>, Unpriced>)
    ensures
        match r {
            Ok(None) => trades@.len() == 0,
            Ok(Some(candle)) => trades@.len() > 0 && is_batch_candle(
                candle,
                trades@,
                unit,
                stored_close,
            ),
            Err(_) => trades@.len() > 0 && !candle_fits(trades@, unit),
        },
{
    if trades.len() == 0 {
        return Ok(None);
    }
    let first = &trades[0];
    let (begin_ts, end_ts) = match candle_bucket(first.blocktime, unit) {
        Some(bucket) => bucket,
        None => {
            return Err(Unpriced);
        },
    };
    let price = first.avg_price;
    let open = match stored_close {
        Some(close) => close,
        None => price,
    };
    let ghost points = trade_points(trades@);
    let mut values = CandleValues { open, high: price, low: price, close: price, amount: first.amount };
    let mut i: usize = 1;
    assert(candle_of(points.take(1), open) == Some(values)) by {
        assert(points.take(1)[0] == points[0]);
    }
    while i < trades.len()
        invariant
            1 <= i <= trades.len(),
            points == trade_points(trades@),
            candle_of(points.take(i as int), open) == Some(values),
        decreases trades.len() - i,
    {
        let trade = &trades[i];
        proof {
            let next = points.take(i + 1);
            assert(next.drop_last() =~= points.take(i as int));
            assert(next.last() == (trade.avg_price, trade.amount));
        }
        let amount = match checked_add(values.amount, trade.amount) {
            Some(amount) => amount,
            None => {
                proof {
                    lemma_candle_exists(points.take(i + 1), open);
                    lemma_total_amount_prefix(points, i + 1);
                }
                return Err(Unpriced);
            },
        };
        let high = if less_than(values.high, trade.avg_price) {
            trade.avg_price
        } else {
            values.high
        };
        let low = if less_than(trade.avg_price, values.low) {
            trade.avg_price
        } else {
            values.low
        };
        values = CandleValues { open: values.open, high, low, close: trade.avg_price, amount };
        i = i + 1;
    }
    proof {
        assert(points.take(i as int) =~= points);
        lemma_candle_exists(points, open);
    }
    Ok(
        Some(
            CandleData {
                open: values.open,
                high: values.high,
                low: values.low,
                close: values.close,
                amount: values.amount,
                begin_ts,
                end_ts,
                unit: unit.label().to_owned(),
                slug: first.slug.clone(),
            },
        ),
    )
}

/// Where the amounts of a prefix do not add up, those of the whole do not either.
proof fn lemma_total_amount_prefix(points: Seq<(DecimalValue, DecimalValue)>, i: int)
    requires
        1 <= i <= points.len(),
        total_amount(points.take(i)) is None,
    ensures
        total_amount(points) is None,
    decreases points.len() - i,
{
    if i == points.len() {
        assert(points.take(i) =~= points);
    } else {
        let next = points.take(i + 1);
        assert(next.drop_last() =~= points.take(i));
        lemma_total_amount_prefix(points, i + 1);
    }
}

} // verus!
