//! Reconciliation of per-user state: the orders of each user on one side of a
//! market, and each user's balance, are held as of the previous account
//! update and compared with the current one; only users whose state changed
//! receive an event.

use crate::gigadex::{GdBalance, GdMarketOrder};
use crate::lists::copied;
use vstd::prelude::*;

verus! {

/// The orders of each user, as a list of (uid, orders) pairs.
pub type UidLists = Seq<(u64, Seq<GdMarketOrder>)>;

/// Whether `uid` has an entry.
pub open spec fn has_uid(lists: UidLists, uid: u64) -> bool {
    exists|i: int| 0 <= i < lists.len() && (#[trigger] lists[i]).0 == uid
}

/// The index of an entry of `uid`.
pub open spec fn index_of_uid(lists: UidLists, uid: u64) -> int {
    choose|i: int| 0 <= i < lists.len() && (#[trigger] lists[i]).0 == uid
}

/// The orders of `uid`: those of its entry, none where it has no entry.
pub open spec fn orders_for(lists: UidLists, uid: u64) -> Seq<GdMarketOrder> {
    if has_uid(lists, uid) {
        lists[index_of_uid(lists, uid)].1
    } else {
        Seq::empty()
    }
}

/// No two entries belong to the same user.
pub open spec fn distinct_uids(lists: UidLists) -> bool {
    forall|i: int, j: int|
        0 <= i < j < lists.len() ==> (#[trigger] lists[i]).0 != (#[trigger] lists[j]).0
}

/// The orders bucketed by user: one entry per user, users in the order in
/// which their first order comes, each user's orders in the order in which
/// they come.
pub open spec fn bucketed(orders: Seq<GdMarketOrder>) -> UidLists
    decreases orders.len(),
{
    if orders.len() == 0 {
        Seq::empty()
    } else {
        let before = bucketed(orders.drop_last());
        let x = orders.last();
        if has_uid(before, x.uid) {
            let i = index_of_uid(before, x.uid);
            before.update(i, (x.uid, before[i].1.push(x)))
        } else {
            before.push((x.uid, seq![x]))
        }
    }
}

/// The orders of `uid` among `orders`, in order.
pub open spec fn orders_of(orders: Seq<GdMarketOrder>, uid: u64) -> Seq<GdMarketOrder>
    decreases orders.len(),
{
    if orders.len() == 0 {
        Seq::empty()
    } else if orders.last().uid == uid {
        orders_of(orders.drop_last(), uid).push(orders.last())
    } else {
        orders_of(orders.drop_last(), uid)
    }
}

/// With distinct users, the entry of a user is the one entry that carries its uid.
pub proof fn lemma_entry_of_uid(lists: UidLists, i: int)
    requires
        distinct_uids(lists),
        0 <= i < lists.len(),
    ensures
        has_uid(lists, lists[i].0),
        index_of_uid(lists, lists[i].0) == i,
        orders_for(lists, lists[i].0) == lists[i].1,
{
    let uid = lists[i].0;
    let j = index_of_uid(lists, uid);
    assert(0 <= j < lists.len() && lists[j].0 == uid);
    if j < i {
        assert(lists[j].0 != lists[i].0);
    } else if i < j {
        assert(lists[i].0 != lists[j].0);
    }
}

/// Bucketing gives one entry per user that has an order, with exactly that
/// user's orders.
pub proof fn lemma_bucketed(orders: Seq<GdMarketOrder>, uid: u64)
    ensures
        distinct_uids(bucketed(orders)),
        has_uid(bucketed(orders), uid) <==> orders_of(orders, uid).len() > 0,
        orders_for(bucketed(orders), uid) == orders_of(orders, uid),
    decreases orders.len(),
{
    let lists = bucketed(orders);
    if orders.len() > 0 {
        let rest = orders.drop_last();
        let before = bucketed(rest);
        let x = orders.last();
        lemma_bucketed(rest, uid);
        lemma_bucketed(rest, x.uid);
        if has_uid(before, x.uid) {
            let i = index_of_uid(before, x.uid);
            assert(0 <= i < before.len() && before[i].0 == x.uid);
            assert forall|a: int, b: int| 0 <= a < b < lists.len() implies (#[trigger] lists[a]).0
                != (#[trigger] lists[b]).0 by {
                assert(before[a].0 != before[b].0);
            }
            if has_uid(before, uid) {
                let j = index_of_uid(before, uid);
                assert(0 <= j < before.len() && before[j].0 == uid);
                assert(lists[j].0 == uid);
                lemma_entry_of_uid(lists, j);
                lemma_entry_of_uid(before, j);
                if uid == x.uid {
                    assert(j == i);
                } else {
                    assert(j != i);
                }
            } else {
                if has_uid(lists, uid) {
                    let j = index_of_uid(lists, uid);
                    assert(0 <= j < lists.len() && lists[j].0 == uid);
                    assert(before[j].0 == uid);
                }
            }
        } else {
            assert forall|a: int, b: int| 0 <= a < b < lists.len() implies (#[trigger] lists[a]).0
                != (#[trigger] lists[b]).0 by {
                if b < before.len() {
                    assert(before[a].0 != before[b].0);
                } else {
                    assert(before[a].0 != x.uid);
                }
            }
            assert(orders_of(rest, x.uid).len() == 0);
            if uid == x.uid {
                assert(lists[before.len() as int].0 == uid);
                lemma_entry_of_uid(lists, before.len() as int);
                assert(orders_of(orders, uid) =~= seq![x]);
            } else if has_uid(before, uid) {
                let j = index_of_uid(before, uid);
                assert(0 <= j < before.len() && before[j].0 == uid);
                assert(lists[j].0 == uid);
                lemma_entry_of_uid(lists, j);
                lemma_entry_of_uid(before, j);
            } else {
                if has_uid(lists, uid) {
                    let j = index_of_uid(lists, uid);
                    assert(0 <= j < lists.len() && lists[j].0 == uid);
                    if j < before.len() {
                        assert(before[j].0 == uid);
                    }
                }
            }
        }
    }
}

/// The events for users that have orders now: one for each user whose orders
/// are not the ones held before, with the current orders, in the order of the
/// current entries.
pub open spec fn updates(cur: UidLists, prev: UidLists) -> UidLists
    decreases cur.len(),
{
    if cur.len() == 0 {
        Seq::empty()
    } else {
        let rest = updates(cur.drop_last(), prev);
        let entry = cur.last();
        if has_uid(prev, entry.0) && orders_for(prev, entry.0) == entry.1 {
            rest
        } else {
            rest.push(entry)
        }
    }
}

/// The events for users that had orders before and have none now: one for
/// each, with no orders, in the order of the previous entries.
pub open spec fn cancels(prev: UidLists, cur: UidLists) -> UidLists
    decreases prev.len(),
{
    if prev.len() == 0 {
        Seq::empty()
    } else {
        let rest = cancels(prev.drop_last(), cur);
        let entry = prev.last();
        if has_uid(cur, entry.0) {
            rest
        } else {
            rest.push((entry.0, Seq::empty()))
        }
    }
}

/// The events of one account update: the updates, then the cancellations.
pub open spec fn reconciled(prev: UidLists, cur: UidLists) -> UidLists {
    updates(cur, prev) + cancels(prev, cur)
}

/// Which users the updates reach, and with which orders.
proof fn lemma_updates(cur: UidLists, prev: UidLists, uid: u64)
    requires
        distinct_uids(cur),
    ensures
        distinct_uids(updates(cur, prev)),
        has_uid(updates(cur, prev), uid) <==> has_uid(cur, uid) && !(has_uid(prev, uid)
            && orders_for(prev, uid) == orders_for(cur, uid)),
        has_uid(updates(cur, prev), uid) ==> orders_for(updates(cur, prev), uid) == orders_for(
            cur,
            uid,
        ),
        forall|k: int|
            0 <= k < updates(cur, prev).len() ==> has_uid(cur, (#[trigger] updates(cur, prev)[k]).0),
    decreases cur.len(),
{
    let out = updates(cur, prev);
    if cur.len() > 0 {
        let head = cur.drop_last();
        let entry = cur.last();
        let rest = updates(head, prev);
        assert(distinct_uids(head)) by {
            assert forall|a: int, b: int| 0 <= a < b < head.len() implies (#[trigger] head[a]).0 != (
            #[trigger] head[b]).0 by {
                assert(cur[a].0 != cur[b].0);
            }
        }
        lemma_updates(head, prev, uid);
        lemma_updates(head, prev, entry.0);
        let last = cur.len() - 1;
        lemma_entry_of_uid(cur, last);
        assert(!has_uid(head, entry.0)) by {
            if has_uid(head, entry.0) {
                let j = index_of_uid(head, entry.0);
                assert(cur[j].0 == head[j].0);
                assert(cur[j].0 != cur[last].0);
            }
        }
        assert forall|k: int| 0 <= k < out.len() implies has_uid(cur, (#[trigger] out[k]).0) by {
            if k < rest.len() {
                assert(out[k] == rest[k]);
                assert(has_uid(head, rest[k].0));
                let j = index_of_uid(head, rest[k].0);
                assert(cur[j].0 == rest[k].0);
            } else {
                assert(out[k] == entry);
            }
        }
        assert(distinct_uids(out)) by {
            assert forall|a: int, b: int| 0 <= a < b < out.len() implies (#[trigger] out[a]).0 != (
            #[trigger] out[b]).0 by {
                if b < rest.len() {
                    assert(rest[a].0 != rest[b].0);
                } else {
                    assert(out[a] == rest[a]);
                    assert(has_uid(head, rest[a].0));
                }
            }
        }
        if has_uid(head, uid) {
            let j = index_of_uid(head, uid);
            assert(cur[j].0 == uid);
            lemma_entry_of_uid(cur, j);
            lemma_entry_of_uid(head, j);
        }
        if has_uid(rest, uid) {
            let j = index_of_uid(rest, uid);
            assert(out[j].0 == uid);
            lemma_entry_of_uid(out, j);
            lemma_entry_of_uid(rest, j);
        }
        if has_uid(out, uid) {
            let j = index_of_uid(out, uid);
            assert(0 <= j < out.len() && out[j].0 == uid);
            lemma_entry_of_uid(out, j);
            if j < rest.len() {
                assert(rest[j].0 == uid);
            }
        }
        if uid == entry.0 && out.len() > rest.len() {
            assert(out[rest.len() as int].0 == uid);
            lemma_entry_of_uid(out, rest.len() as int);
        }
        if has_uid(cur, uid) && uid != entry.0 {
            let j = index_of_uid(cur, uid);
            assert(0 <= j < cur.len() && cur[j].0 == uid);
            assert(head[j].0 == uid);
        }
    }
}

/// Which users the cancellations reach: those with an entry before and none now.
proof fn lemma_cancels(prev: UidLists, cur: UidLists, uid: u64)
    requires
        distinct_uids(prev),
    ensures
        distinct_uids(cancels(prev, cur)),
        has_uid(cancels(prev, cur), uid) <==> has_uid(prev, uid) && !has_uid(cur, uid),
        orders_for(cancels(prev, cur), uid) == Seq::<GdMarketOrder>::empty(),
        forall|k: int|
            0 <= k < cancels(prev, cur).len() ==> has_uid(prev, (#[trigger] cancels(prev, cur)[k]).0)
                && !has_uid(cur, cancels(prev, cur)[k].0) && cancels(prev, cur)[k].1
                == Seq::<GdMarketOrder>::empty(),
    decreases prev.len(),
{
    let out = cancels(prev, cur);
    if prev.len() > 0 {
        let head = prev.drop_last();
        let entry = prev.last();
        let rest = cancels(head, cur);
        assert(distinct_uids(head)) by {
            assert forall|a: int, b: int| 0 <= a < b < head.len() implies (#[trigger] head[a]).0 != (
            #[trigger] head[b]).0 by {
                assert(prev[a].0 != prev[b].0);
            }
        }
        lemma_cancels(head, cur, uid);
        let last = prev.len() - 1;
        lemma_entry_of_uid(prev, last);
        assert(!has_uid(head, entry.0)) by {
            if has_uid(head, entry.0) {
                let j = index_of_uid(head, entry.0);
                assert(prev[j].0 == head[j].0);
                assert(prev[j].0 != prev[last].0);
            }
        }
        assert forall|k: int| 0 <= k < out.len() implies has_uid(prev, (#[trigger] out[k]).0)
            && !has_uid(cur, out[k].0) && out[k].1 == Seq::<GdMarketOrder>::empty() by {
            if k < rest.len() {
                assert(out[k] == rest[k]);
                assert(has_uid(head, rest[k].0));
                let j = index_of_uid(head, rest[k].0);
                assert(prev[j].0 == rest[k].0);
            } else {
                assert(out[k].0 == entry.0);
            }
        }
        assert(distinct_uids(out)) by {
            assert forall|a: int, b: int| 0 <= a < b < out.len() implies (#[trigger] out[a]).0 != (
            #[trigger] out[b]).0 by {
                if b < rest.len() {
                    assert(rest[a].0 != rest[b].0);
                } else {
                    assert(out[a] == rest[a]);
                    assert(has_uid(head, rest[a].0));
                }
            }
        }
        if has_uid(head, uid) {
            let j = index_of_uid(head, uid);
            assert(prev[j].0 == uid);
        }
        if has_uid(rest, uid) {
            let j = index_of_uid(rest, uid);
            assert(out[j].0 == uid);
        }
        if has_uid(out, uid) {
            let j = index_of_uid(out, uid);
            assert(0 <= j < out.len() && out[j].0 == uid);
            if j < rest.len() {
                assert(rest[j].0 == uid);
            }
        }
        if uid == entry.0 && out.len() > rest.len() {
            assert(out[rest.len() as int].0 == uid);
        }
        if has_uid(prev, uid) && uid != entry.0 {
            let j = index_of_uid(prev, uid);
            assert(0 <= j < prev.len() && prev[j].0 == uid);
            assert(head[j].0 == uid);
        }
    }
}

/// The users that receive an event are exactly those that have orders on one
/// side of the update only, and those that have orders on both with a list
/// that changed. Each of them receives one event; it carries the user's
/// current orders, which are none for a user that has no entry any more.
pub proof fn lemma_reconciled(prev: UidLists, cur: UidLists, uid: u64)
    requires
        distinct_uids(prev),
        distinct_uids(cur),
    ensures
        distinct_uids(reconciled(prev, cur)),
        has_uid(reconciled(prev, cur), uid) <==> (has_uid(prev, uid) != has_uid(cur, uid)) || (
        has_uid(prev, uid) && has_uid(cur, uid) && orders_for(prev, uid) != orders_for(cur, uid)),
        has_uid(reconciled(prev, cur), uid) ==> orders_for(reconciled(prev, cur), uid)
            == orders_for(cur, uid),
{
    let ups = updates(cur, prev);
    let downs = cancels(prev, cur);
    let all = reconciled(prev, cur);
    lemma_updates(cur, prev, uid);
    lemma_cancels(prev, cur, uid);
    assert(distinct_uids(all)) by {
        assert forall|a: int, b: int| 0 <= a < b < all.len() implies (#[trigger] all[a]).0 != (
        #[trigger] all[b]).0 by {
            if b < ups.len() {
                assert(ups[a].0 != ups[b].0);
            } else if a >= ups.len() {
                assert(downs[a - ups.len()].0 != downs[b - ups.len()].0);
            } else {
                assert(all[a] == ups[a]);
                assert(all[b] == downs[b - ups.len()]);
                assert(has_uid(cur, ups[a].0));
                assert(!has_uid(cur, downs[b - ups.len()].0));
            }
        }
    }
    if has_uid(ups, uid) {
        let j = index_of_uid(ups, uid);
        assert(all[j] == ups[j]);
        lemma_entry_of_uid(all, j);
        lemma_entry_of_uid(ups, j);
    }
    if has_uid(downs, uid) {
        let j = index_of_uid(downs, uid);
        assert(all[ups.len() + j] == downs[j]);
        lemma_entry_of_uid(all, ups.len() + j);
        lemma_entry_of_uid(downs, j);
    }
    if has_uid(all, uid) {
        let j = index_of_uid(all, uid);
        assert(0 <= j < all.len() && all[j].0 == uid);
        if j < ups.len() {
            assert(ups[j].0 == uid);
        } else {
            assert(downs[j - ups.len()].0 == uid);
        }
    }
}

/// The orders of one user.
#[derive(Clone, Debug)]
pub struct UidOrders {
    pub uid: u64,
    pub orders: Vec<GdMarketOrder>,
}

/// The orders of every user on one side of a market, as of one account update.
#[derive(Debug)]
pub struct UidBook {
    entries: Vec<UidOrders>,
}

/// The entries as (uid, orders) pairs.
pub open spec fn lists_of(entries: Seq<UidOrders>) -> UidLists {
    Seq::new(entries.len(), |i: int| (entries[i].uid, entries[i].orders@))
}

/// Whether two lists hold the same orders in the same order.
pub fn same_orders(a: &Vec<GdMarketOrder>, b: &Vec<GdMarketOrder>) -> (r: bool)
    ensures
        r == (a@ == b@),
{
    if a.len() != b.len() {
        return false;
    }
    let mut i: usize = 0;
    while i < a.len()
        invariant
            i <= a.len(),
            a.len() == b.len(),
            forall|k: int| 0 <= k < i ==> a@[k] == b@[k],
        decreases a.len() - i,
    {
        if a[i] != b[i] {
            return false;
        }
        i = i + 1;
    }
    assert(a@ =~= b@);
    true
}

impl UidBook {
    /// The entries of the book as (uid, orders) pairs, in book order.
    pub closed spec fn lists(&self) -> UidLists {
        lists_of(self.entries@)
    }

    /// No two entries of a book belong to the same user.
    #[verifier::type_invariant]
    closed spec fn well_formed(self) -> bool {
        distinct_uids(lists_of(self.entries@))
    }

    /// The book without orders.
    pub fn new() -> (r: UidBook)
        ensures
            r.lists() == Seq::<(u64, Seq<GdMarketOrder>)>::empty(),
    {
        let entries: Vec<UidOrders> = Vec::new();
        assert(lists_of(entries@) =~= Seq::<(u64, Seq<GdMarketOrder>)>::empty());
        UidBook { entries }
    }

    /// The number of users with orders. No two entries of a book belong to
    /// the same user.
    pub fn len(&self) -> (r: usize)
        ensures
            r == self.lists().len(),
            distinct_uids(self.lists()),
    {
        proof {
            use_type_invariant(self);
        }
        self.entries.len()
    }

    /// The entry at `index`, in book order.
    pub fn entry(&self, index: usize) -> (r: &UidOrders)
        requires
            index < self.lists().len(),
        ensures
            (r.uid, r.orders@) == self.lists()[index as int],
    {
        &self.entries[index]
    }

    /// The index of the entry of `uid`.
    pub fn find(&self, uid: u64) -> (r: Option<usize>)
        ensures
            r is Some <==> has_uid(self.lists(), uid),
            r matches Some(i) ==> i < self.lists().len() && self.lists()[i as int].0 == uid,
    {
        find_entry(&self.entries, uid)
    }

    /// The orders of `uid`; `None` where it has none.
    pub fn get(&self, uid: u64) -> (r: Option<&Vec<GdMarketOrder>>)
        ensures
            r is Some <==> has_uid(self.lists(), uid),
            r matches Some(orders) ==> orders@ == orders_for(self.lists(), uid),
    {
        match self.find(uid) {
            None => None,
            Some(i) => {
                proof {
                    use_type_invariant(self);
                    lemma_entry_of_uid(self.lists(), i as int);
                }
                Some(&self.entries[i].orders)
            },
        }
    }

    /// Buckets orders by user.
    pub fn from_orders(orders: &Vec<GdMarketOrder>) -> (r: UidBook)
        ensures
            r.lists() == bucketed(orders@),
    {
        let mut entries: Vec<UidOrders> = Vec::new();
        let mut i: usize = 0;
        assert(lists_of(entries@) =~= bucketed(orders@.take(0)));
        while i < orders.len()
            invariant
                i <= orders.len(),
                lists_of(entries@) == bucketed(orders@.take(i as int)),
            decreases orders.len() - i,
        {
            let x = orders[i];
            proof {
                let next = orders@.take(i + 1);
                assert(next.drop_last() =~= orders@.take(i as int));
                assert(next.last() == x);
                lemma_bucketed(orders@.take(i as int), x.uid);
            }
            let ghost before = lists_of(entries@);
            match find_entry(&entries, x.uid) {
                Some(j) => {
                    proof {
                        lemma_entry_of_uid(before, j as int);
                    }
                    let mut list = copied(&entries[j].orders);
                    list.push(x);
                    entries.set(j, UidOrders { uid: x.uid, orders: list });
                    assert(lists_of(entries@) =~= before.update(
                        j as int,
                        (x.uid, before[j as int].1.push(x)),
                    ));
                },
                None => {
                    let mut list: Vec<GdMarketOrder> = Vec::new();
                    list.push(x);
                    entries.push(UidOrders { uid: x.uid, orders: list });
                    assert(list@ =~= seq![x]);
                    assert(lists_of(entries@) =~= before.push((x.uid, seq![x])));
                },
            }
            i = i + 1;
        }
        proof {
            assert(orders@.take(i as int) =~= orders@);
            lemma_bucketed(orders@, 0);
        }
        UidBook { entries }
    }
}

/// The index of the entry of `uid`.
fn find_entry(entries: &Vec<UidOrders>, uid: u64) -> (r: Option<usize>)
    ensures
        r is Some <==> has_uid(lists_of(entries@), uid),
        r matches Some(i) ==> i < entries@.len() && lists_of(entries@)[i as int].0 == uid,
{
    let mut i: usize = 0;
    while i < entries.len()
        invariant
            i <= entries.len(),
            forall|k: int| 0 <= k < i ==> (#[trigger] lists_of(entries@)[k]).0 != uid,
        decreases entries.len() - i,
    {
        if entries[i].uid == uid {
            assert(lists_of(entries@)[i as int].0 == uid);
            return Some(i);
        }
        i = i + 1;
    }
    None
}

/// What one user is told about its orders on one side of a market.
#[derive(Clone, Debug)]
pub struct UidOrdersEvent {
    pub uid: u64,
    pub orders: Vec<GdMarketOrder>,
}

/// The events as (uid, orders) pairs.
pub open spec fn events_of(events: Seq<UidOrdersEvent>) -> UidLists {
    Seq::new(events.len(), |i: int| (events[i].uid, events[i].orders@))
}

/// Compares the orders held before with the current ones: a user whose
/// current orders are not the ones held before receives them, and a user
/// that had orders and has none now receives an empty list. Updates come
/// first, in the order of the current book; cancellations follow, in the
/// order of the previous book.
pub fn diff_uid_orders(prev: &UidBook, cur: &UidBook) -> (r: Vec<UidOrdersEvent>)
    ensures
        events_of(r@) == reconciled(prev.lists(), cur.lists()),
        distinct_uids(prev.lists()),
        distinct_uids(cur.lists()),
{
    proof {
        use_type_invariant(prev);
        use_type_invariant(cur);
    }
    let mut events: Vec<UidOrdersEvent> = Vec::new();
    let mut i: usize = 0;
    assert(events_of(events@) =~= updates(cur.lists().take(0), prev.lists()));
    while i < cur.len()
        invariant
            i <= cur.lists().len(),
            events_of(events@) == updates(cur.lists().take(i as int), prev.lists()),
        decreases cur.lists().len() - i,
    {
        let entry = cur.entry(i);
        proof {
            let next = cur.lists().take(i + 1);
            assert(next.drop_last() =~= cur.lists().take(i as int));
            assert(next.last() == cur.lists()[i as int]);
        }
        let unchanged = match prev.get(entry.uid) {
            Some(held) => same_orders(held, &entry.orders),
            None => false,
        };
        if !unchanged {
            let ghost before = events_of(events@);
            events.push(UidOrdersEvent { uid: entry.uid, orders: copied(&entry.orders) });
            assert(events_of(events@) =~= before.push(cur.lists()[i as int]));
        }
        i = i + 1;
    }
    assert(cur.lists().take(i as int) =~= cur.lists());
    let ghost ups = events_of(events@);
    let mut j: usize = 0;
    assert(events_of(events@) =~= ups + cancels(prev.lists().take(0), cur.lists()));
    while j < prev.len()
        invariant
            j <= prev.lists().len(),
            events_of(events@) == ups + cancels(prev.lists().take(j as int), cur.lists()),
        decreases prev.lists().len() - j,
    {
        let entry = prev.entry(j);
        proof {
            let next = prev.lists().take(j + 1);
            assert(next.drop_last() =~= prev.lists().take(j as int));
            assert(next.last() == prev.lists()[j as int]);
        }
        if cur.find(entry.uid).is_none() {
            let ghost before = events_of(events@);
            events.push(UidOrdersEvent { uid: entry.uid, orders: Vec::new() });
            assert(events_of(events@) =~= before.push(
                (entry.uid, Seq::<GdMarketOrder>::empty()),
            ));
            assert(events_of(events@) =~= ups + cancels(
                prev.lists().take(j as int),
                cur.lists(),
            ).push((entry.uid, Seq::<GdMarketOrder>::empty())));
        }
        j = j + 1;
    }
    assert(prev.lists().take(j as int) =~= prev.lists());
    events
}

/// Takes the orders of one account update into the book of the previous one:
/// the book becomes the current orders bucketed by user, and the events of
/// the update are returned.
pub fn reconcile_orders(prev: &mut UidBook, orders: &Vec<GdMarketOrder>) -> (r: Vec<UidOrdersEvent>)
    ensures
        final(prev).lists() == bucketed(orders@),
        events_of(r@) == reconciled(old(prev).lists(), bucketed(orders@)),
{
    let cur = UidBook::from_orders(orders);
    let events = diff_uid_orders(prev, &cur);
    *prev = cur;
    events
}

/// The users whose balance changed: those that have a balance before and now
/// and whose two balances differ, in ascending order. User `uid` has index
/// `uid - 1` on both sides; a user that appears or disappears is not listed.
pub open spec fn changed_balances(prev: Seq<GdBalance>, cur: Seq<GdBalance>, upto: int) -> Seq<u64>
    decreases upto,
{
    if upto <= 0 {
        Seq::empty()
    } else {
        let rest = changed_balances(prev, cur, upto - 1);
        if upto <= prev.len() && upto <= cur.len() && prev[upto - 1] != cur[upto - 1] {
            rest.push(upto as u64)
        } else {
            rest
        }
    }
}

/// A user is listed exactly where it has a balance on both sides and the two differ.
pub proof fn lemma_changed_balances(prev: Seq<GdBalance>, cur: Seq<GdBalance>, upto: int, uid: u64)
    requires
        0 <= upto <= u64::MAX,
    ensures
        changed_balances(prev, cur, upto).contains(uid) <==> 1 <= uid <= upto && uid <= prev.len()
            && uid <= cur.len() && prev[uid - 1] != cur[uid - 1],
    decreases upto,
{
    if upto > 0 {
        lemma_changed_balances(prev, cur, upto - 1, uid);
        let rest = changed_balances(prev, cur, upto - 1);
        let out = changed_balances(prev, cur, upto);
        if out.len() > rest.len() {
            assert(out[rest.len() as int] == upto as u64);
            if rest.contains(uid) {
                let k = choose|k: int| 0 <= k < rest.len() && rest[k] == uid;
                assert(out[k] == uid);
            }
            if out.contains(uid) && uid != upto {
                let k = choose|k: int| 0 <= k < out.len() && out[k] == uid;
                assert(rest[k] == uid);
            }
        }
    }
}

/// Takes the balances of one account update into the table of the previous
/// one: the table becomes the current balances, and the users whose balance
/// changed are returned.
pub fn reconcile_balances(prev: &mut Vec<GdBalance>, cur: Vec<GdBalance>) -> (r: Vec<u64>)
    ensures
        *final(prev) == cur,
        r@ == changed_balances(old(prev)@, cur@, cur@.len() as int),
{
    let mut changed: Vec<u64> = Vec::new();
    let mut i: usize = 0;
    while i < cur.len()
        invariant
            i <= cur.len(),
            *prev == *old(prev),
            changed@ == changed_balances(prev@, cur@, i as int),
        decreases cur.len() - i,
    {
        if i < prev.len() && prev[i] != cur[i] {
            changed.push((i + 1) as u64);
        }
        i = i + 1;
    }
    *prev = cur;
    changed
}

} // verus!
