//! Depth aggregation: a list of resting orders, ordered by price, becomes a
//! short list of price levels, each with the total size resting at that price.

use vstd::prelude::*;

verus! {

/// A price in lots with a size in lots: one resting order, or one aggregated level.
#[derive(Clone, Copy, Debug, PartialEq, Eq, Structural)]
pub struct Level {
    pub price_lots: u64,
    pub size_lots: u64,
}

/// A price with the exact total of the sizes resting at it.
pub struct LevelTotal {
    pub price: u64,
    pub size: int,
}

/// The maximal runs of neighbouring entries with equal price, each run as one
/// level: the run's price and the sum of its sizes.
pub open spec fn grouped(entries: Seq<Level>) -> Seq<LevelTotal>
    decreases entries.len(),
{
    if entries.len() == 0 {
        Seq::empty()
    } else {
        let before = grouped(entries.drop_last());
        let x = entries.last();
        if before.len() > 0 && before.last().price == x.price_lots {
            before.update(
                before.len() - 1,
                LevelTotal { price: x.price_lots, size: before.last().size + x.size_lots },
            )
        } else {
            before.push(LevelTotal { price: x.price_lots, size: x.size_lots as int })
        }
    }
}

/// The first `depth` levels of the entries.
pub open spec fn depth_levels(entries: Seq<Level>, depth: nat) -> Seq<LevelTotal> {
    let all = grouped(entries);
    if all.len() <= depth {
        all
    } else {
        all.take(depth as int)
    }
}

/// Whether every total fits in 64 bits.
pub open spec fn totals_fit(levels: Seq<LevelTotal>) -> bool {
    forall|k: int| 0 <= k < levels.len() ==> (#[trigger] levels[k]).size <= u64::MAX
}

/// Whether `levels` holds exactly the totals `totals`.
pub open spec fn holds_totals(levels: Seq<Level>, totals: Seq<LevelTotal>) -> bool {
    &&& levels.len() == totals.len()
    &&& forall|k: int|
        0 <= k < levels.len() ==> (#[trigger] levels[k]).price_lots == totals[k].price
            && levels[k].size_lots == totals[k].size
}

/// Prices never rise from one entry to the next.
pub open spec fn prices_descending(entries: Seq<Level>) -> bool {
    forall|i: int, j: int|
        0 <= i < j < entries.len() ==> (#[trigger] entries[i]).price_lots >= (
        #[trigger] entries[j]).price_lots
}

/// Prices never fall from one entry to the next.
pub open spec fn prices_ascending(entries: Seq<Level>) -> bool {
    forall|i: int, j: int|
        0 <= i < j < entries.len() ==> (#[trigger] entries[i]).price_lots <= (
        #[trigger] entries[j]).price_lots
}

/// Each level's price is below the one before it.
pub open spec fn strictly_descending(levels: Seq<LevelTotal>) -> bool {
    forall|i: int, j: int|
        0 <= i < j < levels.len() ==> (#[trigger] levels[i]).price > (#[trigger] levels[j]).price
}

/// Each level's price is above the one before it.
pub open spec fn strictly_ascending(levels: Seq<LevelTotal>) -> bool {
    forall|i: int, j: int|
        0 <= i < j < levels.len() ==> (#[trigger] levels[i]).price < (#[trigger] levels[j]).price
}

/// The last level carries the price of the last entry, and there are no more
/// levels than entries.
proof fn lemma_grouped_last(entries: Seq<Level>)
    ensures
        grouped(entries).len() <= entries.len(),
        entries.len() > 0 ==> grouped(entries).len() > 0 && grouped(entries).last().price
            == entries.last().price_lots,
    decreases entries.len(),
{
    if entries.len() > 0 {
        lemma_grouped_last(entries.drop_last());
    }
}

/// What the levels of a prefix tell about the levels of the whole list: all
/// but the last level of the prefix stand unchanged, the last keeps its price
/// and can only grow, and it is final once the next entry has another price.
proof fn lemma_grouped_prefix(entries: Seq<Level>, i: int)
    requires
        0 <= i <= entries.len(),
    ensures
        ({
            let part = grouped(entries.take(i));
            let all = grouped(entries);
            &&& part.len() <= all.len()
            &&& forall|k: int| 0 <= k < part.len() - 1 ==> all[k] == part[k]
            &&& part.len() > 0 ==> all[part.len() - 1].price == part.last().price && all[part.len()
                - 1].size >= part.last().size
            &&& (i < entries.len() && (part.len() == 0 || part.last().price
                != entries[i].price_lots)) ==> part.len() < all.len() && (part.len() > 0
                ==> all[part.len() - 1] == part.last())
        }),
    decreases entries.len() - i,
{
    if i == entries.len() {
        assert(entries.take(i) =~= entries);
    } else {
        lemma_grouped_prefix(entries, i + 1);
        let next = entries.take(i + 1);
        assert(next.drop_last() =~= entries.take(i));
        assert(next.last() == entries[i]);
    }
}

/// Neighbouring levels never share a price.
proof fn lemma_grouped_neighbours_differ(entries: Seq<Level>)
    ensures
        forall|k: int|
            0 <= k < grouped(entries).len() - 1 ==> (#[trigger] grouped(entries)[k]).price
                != grouped(entries)[k + 1].price,
    decreases entries.len(),
{
    if entries.len() > 0 {
        let before = grouped(entries.drop_last());
        let all = grouped(entries);
        lemma_grouped_neighbours_differ(entries.drop_last());
        assert forall|k: int| 0 <= k < all.len() - 1 implies (#[trigger] all[k]).price != all[k
            + 1].price by {
            if k + 1 < before.len() {
                assert(before[k].price != before[k + 1].price);
            }
        }
    }
}

/// Entries in descending price order give levels in strictly descending order.
proof fn lemma_grouped_descending(entries: Seq<Level>)
    requires
        prices_descending(entries),
    ensures
        strictly_descending(grouped(entries)),
    decreases entries.len(),
{
    if entries.len() > 0 {
        let rest = entries.drop_last();
        assert(prices_descending(rest)) by {
            assert forall|i: int, j: int| 0 <= i < j < rest.len() implies (#[trigger] rest[i]).price_lots
                >= (#[trigger] rest[j]).price_lots by {
                assert(rest[i] == entries[i] && rest[j] == entries[j]);
            }
        }
        lemma_grouped_descending(rest);
        lemma_grouped_last(rest);
        if rest.len() > 0 {
            assert(rest.last() == entries[rest.len() - 1]);
            assert(entries[rest.len() - 1].price_lots >= entries[entries.len() - 1].price_lots);
        }
    }
}

/// Entries in ascending price order give levels in strictly ascending order.
proof fn lemma_grouped_ascending(entries: Seq<Level>)
    requires
        prices_ascending(entries),
    ensures
        strictly_ascending(grouped(entries)),
    decreases entries.len(),
{
    if entries.len() > 0 {
        let rest = entries.drop_last();
        assert(prices_ascending(rest)) by {
            assert forall|i: int, j: int| 0 <= i < j < rest.len() implies (#[trigger] rest[i]).price_lots
                <= (#[trigger] rest[j]).price_lots by {
                assert(rest[i] == entries[i] && rest[j] == entries[j]);
            }
        }
        lemma_grouped_ascending(rest);
        lemma_grouped_last(rest);
        if rest.len() > 0 {
            assert(rest.last() == entries[rest.len() - 1]);
            assert(entries[rest.len() - 1].price_lots <= entries[entries.len() - 1].price_lots);
        }
    }
}

/// A depth book never holds more than `depth` levels, no two neighbouring
/// levels share a price, and entries ordered by price give levels that are
/// strictly monotone in the same direction.
pub proof fn lemma_depth_levels_monotone(entries: Seq<Level>, depth: nat)
    ensures
        depth_levels(entries, depth).len() <= depth,
        forall|k: int|
            0 <= k < depth_levels(entries, depth).len() - 1 ==> (#[trigger] depth_levels(
                entries,
                depth,
            )[k]).price != depth_levels(entries, depth)[k + 1].price,
        prices_descending(entries) ==> strictly_descending(depth_levels(entries, depth)),
        prices_ascending(entries) ==> strictly_ascending(depth_levels(entries, depth)),
{
    lemma_grouped_neighbours_differ(entries);
    if prices_descending(entries) {
        lemma_grouped_descending(entries);
    }
    if prices_ascending(entries) {
        lemma_grouped_ascending(entries);
    }
}

/// Reduces entries to at most `depth` levels: neighbouring entries with equal
/// price are summed, and the walk stops at the first entry that would open
/// level `depth + 1`. `None` where one of those totals does not fit in 64 bits.
pub fn aggregate_levels(entries: &Vec<Level>, depth: usize) -> (r: Option<Vec<Level>>)
    ensures
        r is Some <==> totals_fit(depth_levels(entries@, depth as nat)),
        r matches Some(v) ==> holds_totals(v@, depth_levels(entries@, depth as nat)),
{
    let mut levels: Vec<Level> = Vec::new();
    let mut i: usize = 0;
    let ghost mut stopped = false;
    while i < entries.len()
        invariant_except_break
            !stopped,
        invariant
            i <= entries.len(),
            levels.len() <= depth,
            holds_totals(levels@, grouped(entries@.take(i as int))),
        ensures
            stopped || i == entries.len(),
            stopped ==> i < entries.len() && levels.len() == depth && (levels.len() == 0
                || levels@.last().price_lots != entries@[i as int].price_lots),
        decreases entries.len() - i,
    {
        let x = entries[i];
        let len = levels.len();
        proof {
            let next = entries@.take(i + 1);
            assert(next.drop_last() =~= entries@.take(i as int));
            assert(next.last() == x);
        }
        if len > 0 && levels[len - 1].price_lots == x.price_lots {
            let last = levels[len - 1];
            match last.size_lots.checked_add(x.size_lots) {
                Some(total) => {
                    levels.set(len - 1, Level { price_lots: x.price_lots, size_lots: total });
                },
                None => {
                    proof {
                        lemma_grouped_prefix(entries@, i + 1);
                        let all = depth_levels(entries@, depth as nat);
                        assert(all[len - 1].size > u64::MAX);
                    }
                    return None;
                },
            }
        } else if len == depth {
            proof {
                stopped = true;
            }
            break ;
        } else {
            levels.push(Level { price_lots: x.price_lots, size_lots: x.size_lots });
        }
        i = i + 1;
    }
    proof {
        lemma_grouped_prefix(entries@, i as int);
        let part = grouped(entries@.take(i as int));
        let all = depth_levels(entries@, depth as nat);
        if stopped {
            assert(all.len() == part.len());
            assert forall|k: int| 0 <= k < all.len() implies all[k] == part[k] by {
                if k == part.len() - 1 {
                } else {
                }
            }
            assert(all =~= part);
        } else {
            assert(entries@.take(i as int) =~= entries@);
        }
        assert forall|k: int| 0 <= k < all.len() implies (#[trigger] all[k]).size <= u64::MAX by {
            assert(levels@[k].size_lots == all[k].size);
        }
    }
    Some(levels)
}

/// `sorted` with `x` placed behind the last entry whose price is not above the price of `x`.
pub open spec fn inserted(sorted: Seq<Level>, x: Level) -> Seq<Level>
    decreases sorted.len(),
{
    if sorted.len() == 0 || sorted.last().price_lots <= x.price_lots {
        sorted.push(x)
    } else {
        inserted(sorted.drop_last(), x).push(sorted.last())
    }
}

/// The entries in ascending price order, entries of equal price in the order
/// in which they came.
pub open spec fn sorted_by_price(entries: Seq<Level>) -> Seq<Level>
    decreases entries.len(),
{
    if entries.len() == 0 {
        Seq::empty()
    } else {
        inserted(sorted_by_price(entries.drop_last()), entries.last())
    }
}

/// The entries as one side of a book reads them: best price first. Asks
/// ascend; bids are the ascending order reversed.
pub open spec fn arranged(entries: Seq<Level>, is_bid: bool) -> Seq<Level> {
    if is_bid {
        sorted_by_price(entries).reverse()
    } else {
        sorted_by_price(entries)
    }
}

/// Placing `x` is inserting it at the one position that has only higher
/// prices behind it and no higher price just before it.
proof fn lemma_inserted_at(sorted: Seq<Level>, x: Level, pos: int)
    requires
        0 <= pos <= sorted.len(),
        forall|j: int| pos <= j < sorted.len() ==> (#[trigger] sorted[j]).price_lots > x.price_lots,
        pos > 0 ==> sorted[pos - 1].price_lots <= x.price_lots,
    ensures
        inserted(sorted, x) == sorted.insert(pos, x),
    decreases sorted.len() - pos,
{
    if pos == sorted.len() {
        assert(sorted.push(x) =~= sorted.insert(pos, x));
    } else {
        assert(sorted[sorted.len() - 1].price_lots > x.price_lots);
        let rest = sorted.drop_last();
        assert forall|j: int| pos <= j < rest.len() implies (#[trigger] rest[j]).price_lots
            > x.price_lots by {
            assert(rest[j] == sorted[j]);
        }
        lemma_inserted_at(rest, x, pos);
        assert(rest.insert(pos, x).push(sorted.last()) =~= sorted.insert(pos, x));
    }
}

/// Placing an entry keeps the length plus one, the entries, and an ascending order.
proof fn lemma_inserted_ascending(sorted: Seq<Level>, x: Level)
    requires
        prices_ascending(sorted),
    ensures
        prices_ascending(inserted(sorted, x)),
        inserted(sorted, x).len() == sorted.len() + 1,
        inserted(sorted, x).to_multiset() == sorted.to_multiset().insert(x),
    decreases sorted.len(),
{
    broadcast use vstd::seq_lib::group_to_multiset_ensures;

    if sorted.len() == 0 || sorted.last().price_lots <= x.price_lots {
        let out = sorted.push(x);
        assert forall|i: int, j: int| 0 <= i < j < out.len() implies (#[trigger] out[i]).price_lots
            <= (#[trigger] out[j]).price_lots by {
            if j < sorted.len() {
                assert(out[i] == sorted[i] && out[j] == sorted[j]);
            } else {
                assert(out[i] == sorted[i]);
                assert(sorted[i].price_lots <= sorted[sorted.len() - 1].price_lots);
            }
        }
    } else {
        let rest = sorted.drop_last();
        assert forall|i: int, j: int| 0 <= i < j < rest.len() implies (#[trigger] rest[i]).price_lots
            <= (#[trigger] rest[j]).price_lots by {
            assert(rest[i] == sorted[i] && rest[j] == sorted[j]);
        }
        lemma_inserted_ascending(rest, x);
        let inner = inserted(rest, x);
        let out = inner.push(sorted.last());
        assert(sorted =~= rest.push(sorted.last()));
        assert forall|m: int| 0 <= m < inner.len() implies (#[trigger] inner[m]).price_lots
            <= sorted.last().price_lots by {
            assert(inner.to_multiset().count(inner[m]) > 0);
            if inner[m] == x {
            } else {
                assert(rest.to_multiset().count(inner[m]) > 0);
                let t = choose|t: int| 0 <= t < rest.len() && rest[t] == inner[m];
                assert(sorted[t].price_lots <= sorted[sorted.len() - 1].price_lots);
            }
        }
        assert forall|i: int, j: int| 0 <= i < j < out.len() implies (#[trigger] out[i]).price_lots
            <= (#[trigger] out[j]).price_lots by {
            if j < inner.len() {
                assert(out[i] == inner[i] && out[j] == inner[j]);
            } else {
                assert(out[i] == inner[i]);
            }
        }
        assert(out.to_multiset() =~= sorted.to_multiset().insert(x));
    }
}

/// The sorted entries are the given entries, in ascending price order.
pub proof fn lemma_sorted_by_price(entries: Seq<Level>)
    ensures
        prices_ascending(sorted_by_price(entries)),
        sorted_by_price(entries).len() == entries.len(),
        sorted_by_price(entries).to_multiset() == entries.to_multiset(),
    decreases entries.len(),
{
    broadcast use vstd::seq_lib::group_to_multiset_ensures;

    if entries.len() > 0 {
        lemma_sorted_by_price(entries.drop_last());
        lemma_inserted_ascending(sorted_by_price(entries.drop_last()), entries.last());
        assert(entries =~= entries.drop_last().push(entries.last()));
    } else {
        assert(entries =~= Seq::<Level>::empty());
    }
}

/// One side of a book, arranged, descends for bids and ascends for asks; so
/// its depth levels are strictly monotone in that direction, whatever the
/// order in which the orders came.
pub proof fn lemma_arranged_levels_monotone(entries: Seq<Level>, is_bid: bool, depth: nat)
    ensures
        depth_levels(arranged(entries, is_bid), depth).len() <= depth,
        is_bid ==> strictly_descending(depth_levels(arranged(entries, is_bid), depth)),
        !is_bid ==> strictly_ascending(depth_levels(arranged(entries, is_bid), depth)),
{
    lemma_sorted_by_price(entries);
    let up = sorted_by_price(entries);
    if is_bid {
        let down = up.reverse();
        assert forall|i: int, j: int| 0 <= i < j < down.len() implies (#[trigger] down[i]).price_lots
            >= (#[trigger] down[j]).price_lots by {
            assert(down[i] == up[up.len() - 1 - i]);
            assert(down[j] == up[up.len() - 1 - j]);
        }
    }
    lemma_depth_levels_monotone(arranged(entries, is_bid), depth);
}

/// The total size of the entries at `price`.
pub open spec fn total_at(entries: Seq<Level>, price: u64) -> int
    decreases entries.len(),
{
    if entries.len() == 0 {
        0
    } else if entries.last().price_lots == price {
        total_at(entries.drop_last(), price) + entries.last().size_lots
    } else {
        total_at(entries.drop_last(), price)
    }
}

/// A total is not negative.
pub proof fn lemma_total_at_nonnegative(entries: Seq<Level>, price: u64)
    ensures
        total_at(entries, price) >= 0,
    decreases entries.len(),
{
    if entries.len() > 0 {
        lemma_total_at_nonnegative(entries.drop_last(), price);
    }
}

/// Where no entry has the price, nothing rests at it.
proof fn lemma_total_at_absent(entries: Seq<Level>, price: u64)
    requires
        forall|i: int| 0 <= i < entries.len() ==> (#[trigger] entries[i]).price_lots != price,
    ensures
        total_at(entries, price) == 0,
    decreases entries.len(),
{
    if entries.len() > 0 {
        let rest = entries.drop_last();
        assert forall|i: int| 0 <= i < rest.len() implies (#[trigger] rest[i]).price_lots != price by {
            assert(rest[i] == entries[i]);
        }
        lemma_total_at_absent(rest, price);
        assert(entries[entries.len() - 1].price_lots != price);
    }
}

/// The total at a price of two lists in a row is the sum of their totals.
proof fn lemma_total_at_concat(a: Seq<Level>, b: Seq<Level>, price: u64)
    ensures
        total_at(a + b, price) == total_at(a, price) + total_at(b, price),
    decreases b.len(),
{
    if b.len() == 0 {
        assert(a + b =~= a);
    } else {
        lemma_total_at_concat(a, b.drop_last(), price);
        assert((a + b).drop_last() =~= a + b.drop_last());
        assert((a + b).last() == b.last());
    }
}

/// Reversing a list leaves the total at each price unchanged.
proof fn lemma_total_at_reverse(entries: Seq<Level>, price: u64)
    ensures
        total_at(entries.reverse(), price) == total_at(entries, price),
    decreases entries.len(),
{
    if entries.len() > 0 {
        let rest = entries.drop_last();
        let x = entries.last();
        lemma_total_at_reverse(rest, price);
        assert(entries.reverse() =~= seq![x] + rest.reverse());
        lemma_total_at_concat(seq![x], rest.reverse(), price);
        assert(seq![x].drop_last() =~= Seq::<Level>::empty());
        assert(seq![x].last() == x);
        assert(total_at(seq![x].drop_last(), price) == 0);
        assert(total_at(seq![x], price) == if x.price_lots == price {
            x.size_lots as int
        } else {
            0
        });
    } else {
        assert(entries.reverse() =~= entries);
    }
}

/// Placing an entry adds its size to the total at its price.
proof fn lemma_total_at_inserted(sorted: Seq<Level>, x: Level, price: u64)
    ensures
        total_at(inserted(sorted, x), price) == total_at(sorted, price) + if x.price_lots
            == price {
            x.size_lots as int
        } else {
            0
        },
    decreases sorted.len(),
{
    if sorted.len() == 0 || sorted.last().price_lots <= x.price_lots {
        assert(sorted.push(x).drop_last() =~= sorted);
    } else {
        let rest = sorted.drop_last();
        lemma_total_at_inserted(rest, x, price);
        let out = inserted(rest, x).push(sorted.last());
        assert(out.drop_last() =~= inserted(rest, x));
    }
}

/// Arranging the entries leaves the total at each price unchanged.
proof fn lemma_total_at_arranged(entries: Seq<Level>, is_bid: bool, price: u64)
    ensures
        total_at(arranged(entries, is_bid), price) == total_at(entries, price),
    decreases entries.len(),
{
    lemma_total_at_sorted(entries, price);
    if is_bid {
        lemma_total_at_reverse(sorted_by_price(entries), price);
    }
}

/// Sorting the entries leaves the total at each price unchanged.
proof fn lemma_total_at_sorted(entries: Seq<Level>, price: u64)
    ensures
        total_at(sorted_by_price(entries), price) == total_at(entries, price),
    decreases entries.len(),
{
    if entries.len() > 0 {
        lemma_total_at_sorted(entries.drop_last(), price);
        lemma_total_at_inserted(sorted_by_price(entries.drop_last()), entries.last(), price);
    }
}

/// In entries ordered by price, each level holds all that rests at its price:
/// its size is the total size of the entries at that price.
pub proof fn lemma_grouped_totals(entries: Seq<Level>)
    requires
        prices_descending(entries) || prices_ascending(entries),
    ensures
        forall|k: int|
            0 <= k < grouped(entries).len() ==> (#[trigger] grouped(entries)[k]).size == total_at(
                entries,
                grouped(entries)[k].price,
            ),
    decreases entries.len(),
{
    if entries.len() > 0 {
        let rest = entries.drop_last();
        let x = entries.last();
        let before = grouped(rest);
        let all = grouped(entries);
        assert forall|i: int, j: int| 0 <= i < j < rest.len() implies (prices_descending(entries)
            ==> (#[trigger] rest[i]).price_lots >= (#[trigger] rest[j]).price_lots) && (
        prices_ascending(entries) ==> rest[i].price_lots <= rest[j].price_lots) by {
            assert(rest[i] == entries[i] && rest[j] == entries[j]);
        }
        lemma_grouped_totals(rest);
        lemma_grouped_last(rest);
        if prices_descending(entries) {
            lemma_grouped_descending(rest);
        } else {
            lemma_grouped_ascending(rest);
        }
        if before.len() > 0 && before.last().price == x.price_lots {
            assert forall|k: int| 0 <= k < all.len() implies (#[trigger] all[k]).size == total_at(
                entries,
                all[k].price,
            ) by {
                if k < before.len() - 1 {
                    assert(all[k] == before[k]);
                    assert(before[k].price != before[before.len() - 1].price);
                }
            }
        } else {
            assert(total_at(rest, x.price_lots) == 0) by {
                assert forall|i: int| 0 <= i < rest.len() implies (#[trigger] rest[i]).price_lots
                    != x.price_lots by {
                    assert(rest[i] == entries[i]);
                    assert(rest[rest.len() - 1] == entries[rest.len() - 1]);
                    if prices_descending(entries) {
                        assert(entries[i].price_lots >= entries[rest.len() - 1].price_lots);
                        assert(entries[rest.len() - 1].price_lots >= entries[entries.len()
                            - 1].price_lots);
                    } else {
                        assert(entries[i].price_lots <= entries[rest.len() - 1].price_lots);
                        assert(entries[rest.len() - 1].price_lots <= entries[entries.len()
                            - 1].price_lots);
                    }
                }
                lemma_total_at_absent(rest, x.price_lots);
            }
            assert forall|k: int| 0 <= k < all.len() implies (#[trigger] all[k]).size == total_at(
                entries,
                all[k].price,
            ) by {
                if k < before.len() {
                    assert(all[k] == before[k]);
                    if before[k].price == x.price_lots {
                        // a level of the rest at the price of `x` would be its last level
                        if k < before.len() - 1 {
                            assert(before[k].price != before[before.len() - 1].price);
                            if prices_descending(entries) {
                                assert(before[k].price > before[before.len() - 1].price);
                            } else {
                                assert(before[k].price < before[before.len() - 1].price);
                            }
                            assert(rest[rest.len() - 1] == entries[rest.len() - 1]);
                            if prices_descending(entries) {
                                assert(entries[rest.len() - 1].price_lots >= entries[entries.len()
                                    - 1].price_lots);
                            } else {
                                assert(entries[rest.len() - 1].price_lots <= entries[entries.len()
                                    - 1].price_lots);
                            }
                        }
                    }
                }
            }
        }
    }
}

/// One side of a book, arranged and reduced to its depth, holds at each of its
/// levels all that rests at the level's price, in whatever order the orders
/// came.
pub proof fn lemma_arranged_levels_totals(entries: Seq<Level>, is_bid: bool, depth: nat)
    ensures
        forall|k: int|
            0 <= k < depth_levels(arranged(entries, is_bid), depth).len() ==> (
            #[trigger] depth_levels(arranged(entries, is_bid), depth)[k]).size == total_at(
                entries,
                depth_levels(arranged(entries, is_bid), depth)[k].price,
            ),
{
    lemma_sorted_by_price(entries);
    let up = sorted_by_price(entries);
    let side = arranged(entries, is_bid);
    if is_bid {
        assert forall|i: int, j: int| 0 <= i < j < side.len() implies (#[trigger] side[i]).price_lots
            >= (#[trigger] side[j]).price_lots by {
            assert(side[i] == up[up.len() - 1 - i]);
            assert(side[j] == up[up.len() - 1 - j]);
        }
    }
    lemma_grouped_totals(side);
    let levels = depth_levels(side, depth);
    assert forall|k: int| 0 <= k < levels.len() implies (#[trigger] levels[k]).size == total_at(
        entries,
        levels[k].price,
    ) by {
        assert(levels[k] == grouped(side)[k]);
        lemma_total_at_arranged(entries, is_bid, levels[k].price);
    }
}

/// Sorts entries by ascending price, keeping entries of equal price in order.
pub fn sort_by_price(entries: &Vec<Level>) -> (r: Vec<Level>)
    ensures
        r@ == sorted_by_price(entries@),
{
    let mut out: Vec<Level> = Vec::new();
    let mut i: usize = 0;
    while i < entries.len()
        invariant
            i <= entries.len(),
            out@ == sorted_by_price(entries@.take(i as int)),
        decreases entries.len() - i,
    {
        let x = entries[i];
        let mut pos: usize = out.len();
        while pos > 0 && out[pos - 1].price_lots > x.price_lots
            invariant
                pos <= out.len(),
                forall|j: int| pos <= j < out@.len() ==> (#[trigger] out@[j]).price_lots > x.price_lots,
            decreases pos,
        {
            pos = pos - 1;
        }
        proof {
            lemma_inserted_at(out@, x, pos as int);
            let next = entries@.take(i + 1);
            assert(next.drop_last() =~= entries@.take(i as int));
            assert(next.last() == x);
        }
        out.insert(pos, x);
        i = i + 1;
    }
    assert(entries@.take(i as int) =~= entries@);
    out
}

/// The entries in reverse order.
pub fn reversed(entries: &Vec<Level>) -> (r: Vec<Level>)
    ensures
        r@ == entries@.reverse(),
{
    let mut out: Vec<Level> = Vec::new();
    let mut i: usize = entries.len();
    while i > 0
        invariant
            i <= entries.len(),
            out@.len() == entries.len() - i,
            forall|k: int| 0 <= k < out@.len() ==> out@[k] == entries@[entries.len() - 1 - k],
        decreases i,
    {
        i = i - 1;
        out.push(entries[i]);
    }
    assert(out@ =~= entries@.reverse());
    out
}

/// Arranges the orders of one side best price first: ascending for asks,
/// descending for bids.
pub fn arrange(entries: &Vec<Level>, is_bid: bool) -> (r: Vec<Level>)
    ensures
        r@ == arranged(entries@, is_bid),
{
    let sorted = sort_by_price(entries);
    if is_bid {
        reversed(&sorted)
    } else {
        sorted
    }
}

} // verus!
