//! The order-book venue's event queue: a ring of 88-byte events behind a
//! 32-byte header, framed by the venue's account padding.

use crate::bytes::{le_u128, le_u64, read_u128, read_u64, read_words4};
use crate::slab::FeeTier;
use vstd::prelude::*;

verus! {

/// Bytes of padding before the queue.
pub const HEAD_PADDING_LEN: usize = 5;

/// Bytes of padding after the queue.
pub const TAIL_PADDING_LEN: usize = 7;

/// Bytes of the queue header.
pub const QUEUE_HEADER_LEN: usize = 32;

/// Bytes of one event.
pub const EVENT_LEN: usize = 88;

/// Flag of a fill.
pub const FLAG_FILL: u8 = 0x1;

/// Flag of an order leaving the book.
pub const FLAG_OUT: u8 = 0x2;

/// Flag of the bid side.
pub const FLAG_BID: u8 = 0x4;

/// Flag of the resting side of a fill.
pub const FLAG_MAKER: u8 = 0x8;

/// Flag of an order whose funds are released.
pub const FLAG_RELEASE_FUNDS: u8 = 0x10;

/// The side of an order.
#[derive(Clone, Copy, Debug, PartialEq, Eq, Structural)]
pub enum Side {
    Bid,
    Ask,
}

/// The header of the queue: where the ring starts and how many events it holds.
#[derive(Clone, Copy, Debug, PartialEq, Eq, Structural)]
pub struct EventQueueHeader {
    pub account_flags: u64,
    pub head: u64,
    pub count: u64,
    pub seq_num: u64,
}

/// One event as it is stored.
#[derive(Clone, Copy, Debug, PartialEq, Eq)]
pub struct Event {
    pub event_flags: u8,
    pub owner_slot: u8,
    pub fee_tier: u8,
    pub native_qty_released: u64,
    pub native_qty_paid: u64,
    pub native_fee_or_rebate: u64,
    pub order_id: u128,
    pub owner: [u64; 4],
    pub client_order_id: u64,
}

/// One event as it is read: a fill, or an order leaving the book.
#[derive(Clone, Copy, Debug, PartialEq, Eq)]
pub enum EventView {
    Fill {
        side: Side,
        maker: bool,
        native_qty_paid: u64,
        native_qty_received: u64,
        native_fee_or_rebate: u64,
        order_id: u128,
        owner: [u64; 4],
        owner_slot: u8,
        fee_tier: FeeTier,
        client_order_id: Option<u64>,
    },
    Out {
        side: Side,
        release_funds: bool,
        native_qty_unlocked: u64,
        native_qty_still_locked: u64,
        order_id: u128,
        owner: [u64; 4],
        owner_slot: u8,
        client_order_id: Option<u64>,
    },
}

/// Whether bit `bit` of `flags` is set.
pub open spec fn has_flag(flags: u8, bit: u8) -> bool {
    (flags / bit) % 2 == 1
}

/// The five bytes that every account of the venue starts with.
pub open spec fn head_padding() -> Seq<u8> {
    seq![0x73u8, 0x65u8, 0x72u8, 0x75u8, 0x6du8]
}

/// The seven bytes that every account of the venue ends with.
pub open spec fn tail_padding() -> Seq<u8> {
    seq![0x70u8, 0x61u8, 0x64u8, 0x64u8, 0x69u8, 0x6eu8, 0x67u8]
}

/// Whether account data is framed as an event queue: the venue's padding at
/// both ends, whole 64-bit words between them, and room for the header.
pub open spec fn framed(data: Seq<u8>) -> bool {
    &&& data.len() >= HEAD_PADDING_LEN + TAIL_PADDING_LEN + QUEUE_HEADER_LEN
    &&& data.subrange(0, 5) == head_padding()
    &&& data.subrange(data.len() - 7, data.len() as int) == tail_padding()
    &&& (data.len() - (HEAD_PADDING_LEN + TAIL_PADDING_LEN)) % 8 == 0
}

/// The header that framed account data holds.
pub open spec fn header_of(data: Seq<u8>) -> EventQueueHeader {
    EventQueueHeader {
        account_flags: le_u64(data, 5) as u64,
        head: le_u64(data, 13) as u64,
        count: le_u64(data, 21) as u64,
        seq_num: le_u64(data, 29) as u64,
    }
}

/// The number of whole events that the ring of framed account data holds.
pub open spec fn capacity_of(len: int) -> int {
    (len - (HEAD_PADDING_LEN + TAIL_PADDING_LEN + QUEUE_HEADER_LEN)) / (EVENT_LEN as int)
}

/// The event that starts at byte `at`.
pub open spec fn event_at(data: Seq<u8>, at: int) -> Event {
    Event {
        event_flags: data[at],
        owner_slot: data[at + 1],
        fee_tier: data[at + 2],
        native_qty_released: le_u64(data, at + 8) as u64,
        native_qty_paid: le_u64(data, at + 16) as u64,
        native_fee_or_rebate: le_u64(data, at + 24) as u64,
        order_id: le_u128(data, at + 32) as u128,
        owner: [
            le_u64(data, at + 48) as u64,
            le_u64(data, at + 56) as u64,
            le_u64(data, at + 64) as u64,
            le_u64(data, at + 72) as u64,
        ],
        client_order_id: le_u64(data, at + 80) as u64,
    }
}

/// Where the ring slot `slot` starts in account data.
pub open spec fn slot_offset(slot: int) -> int {
    HEAD_PADDING_LEN + QUEUE_HEADER_LEN + EVENT_LEN * slot
}

/// The `index`-th event of the queue, counted from its head around the ring.
pub open spec fn ring_event(data: Seq<u8>, index: int) -> Event {
    event_at(
        data,
        slot_offset((header_of(data).head + index) % capacity_of(data.len() as int)),
    )
}

/// The side that the flags name.
pub open spec fn side_of(flags: u8) -> Side {
    if has_flag(flags, FLAG_BID) {
        Side::Bid
    } else {
        Side::Ask
    }
}

/// A client order id, where it is not zero.
pub open spec fn client_id_of(id: u64) -> Option<u64> {
    if id == 0 {
        None
    } else {
        Some(id)
    }
}

impl Event {
    /// What the event says. A fill may carry the flags fill, bid and maker and
    /// needs a fee tier of at most 7; any other event may carry the flags out,
    /// bid and release-funds; `None` for any other combination.
    pub open spec fn spec_view(self) -> Option<EventView> {
        let flags = self.event_flags;
        if flags >= 0x20 {
            None
        } else if has_flag(flags, FLAG_FILL) {
            if has_flag(flags, FLAG_OUT) || has_flag(flags, FLAG_RELEASE_FUNDS) {
                None
            } else {
                match FeeTier::of(self.fee_tier) {
                    None => None,
                    Some(fee_tier) => Some(
                        EventView::Fill {
                            side: side_of(flags),
                            maker: has_flag(flags, FLAG_MAKER),
                            native_qty_paid: self.native_qty_paid,
                            native_qty_received: self.native_qty_released,
                            native_fee_or_rebate: self.native_fee_or_rebate,
                            order_id: self.order_id,
                            owner: self.owner,
                            owner_slot: self.owner_slot,
                            fee_tier,
                            client_order_id: client_id_of(self.client_order_id),
                        },
                    ),
                }
            }
        } else if has_flag(flags, FLAG_MAKER) {
            None
        } else {
            Some(
                EventView::Out {
                    side: side_of(flags),
                    release_funds: has_flag(flags, FLAG_RELEASE_FUNDS),
                    native_qty_unlocked: self.native_qty_released,
                    native_qty_still_locked: self.native_qty_paid,
                    order_id: self.order_id,
                    owner: self.owner,
                    owner_slot: self.owner_slot,
                    client_order_id: client_id_of(self.client_order_id),
                },
            )
        }
    }

    /// Reads the event.
    pub fn as_view(&self) -> (r: Option<EventView>)
        ensures
            r == self.spec_view(),
    {
        let flags = self.event_flags;
        if flags >= 0x20 {
            return None;
        }
        let side = if (flags / FLAG_BID) % 2 == 1 {
            Side::Bid
        } else {
            Side::Ask
        };
        let client_order_id = if self.client_order_id == 0 {
            None
        } else {
            Some(self.client_order_id)
        };
        if (flags / FLAG_FILL) % 2 == 1 {
            if (flags / FLAG_OUT) % 2 == 1 || (flags / FLAG_RELEASE_FUNDS) % 2 == 1 {
                return None;
            }
            match FeeTier::try_from(self.fee_tier) {
                None => None,
                Some(fee_tier) => Some(
                    EventView::Fill {
                        side,
                        maker: (flags / FLAG_MAKER) % 2 == 1,
                        native_qty_paid: self.native_qty_paid,
                        native_qty_received: self.native_qty_released,
                        native_fee_or_rebate: self.native_fee_or_rebate,
                        order_id: self.order_id,
                        owner: self.owner,
                        owner_slot: self.owner_slot,
                        fee_tier,
                        client_order_id,
                    },
                ),
            }
        } else if (flags / FLAG_MAKER) % 2 == 1 {
            None
        } else {
            Some(
                EventView::Out {
                    side,
                    release_funds: (flags / FLAG_RELEASE_FUNDS) % 2 == 1,
                    native_qty_unlocked: self.native_qty_released,
                    native_qty_still_locked: self.native_qty_paid,
                    order_id: self.order_id,
                    owner: self.owner,
                    owner_slot: self.owner_slot,
                    client_order_id,
                },
            )
        }
    }
}

/// Whether the queue held by account data can be read: it is framed, it holds
/// no more events than its ring has slots, and each of its events reads.
pub open spec fn queue_readable(data: Seq<u8>) -> bool {
    &&& framed(data)
    &&& header_of(data).count <= capacity_of(data.len() as int)
    &&& forall|i: int|
        0 <= i < header_of(data).count ==> (#[trigger] ring_event(data, i)).spec_view() is Some
}

/// The events of the queue held by account data, oldest first.
pub open spec fn queue_views(data: Seq<u8>) -> Seq<EventView> {
    Seq::new(header_of(data).count as nat, |i: int| ring_event(data, i).spec_view().unwrap())
}

/// Whether the account data starts and ends with the venue's padding.
fn padding_matches(data: &[u8]) -> (r: bool)
    requires
        data.len() >= HEAD_PADDING_LEN + TAIL_PADDING_LEN,
    ensures
        r == (data@.subrange(0, 5) == head_padding() && data@.subrange(
            data@.len() - 7,
            data@.len() as int,
        ) == tail_padding()),
{
    let n = data.len();
    let head_ok = data[0] == 0x73 && data[1] == 0x65 && data[2] == 0x72 && data[3] == 0x75
        && data[4] == 0x6d;
    let tail_ok = data[n - 7] == 0x70 && data[n - 6] == 0x61 && data[n - 5] == 0x64 && data[n - 4]
        == 0x64 && data[n - 3] == 0x69 && data[n - 2] == 0x6e && data[n - 1] == 0x67;
    proof {
        let head = data@.subrange(0, 5);
        let tail = data@.subrange(n - 7, n as int);
        if head_ok {
            assert(head =~= head_padding());
        } else {
            assert(head[0] == data@[0] && head[1] == data@[1] && head[2] == data@[2] && head[3]
                == data@[3] && head[4] == data@[4]);
        }
        if tail_ok {
            assert(tail =~= tail_padding());
        } else {
            assert(tail[0] == data@[n - 7] && tail[1] == data@[n - 6] && tail[2] == data@[n - 5]
                && tail[3] == data@[n - 4] && tail[4] == data@[n - 3] && tail[5] == data@[n - 2]
                && tail[6] == data@[n - 1]);
        }
    }
    head_ok && tail_ok
}

/// Reads the event that starts at byte `at`.
fn read_event(data: &[u8], at: usize) -> (r: Event)
    requires
        at + EVENT_LEN <= data.len(),
    ensures
        r == event_at(data@, at as int),
{
    let owner = read_words4(data, at + 48);
    let r = Event {
        event_flags: data[at],
        owner_slot: data[at + 1],
        fee_tier: data[at + 2],
        native_qty_released: read_u64(data, at + 8),
        native_qty_paid: read_u64(data, at + 16),
        native_fee_or_rebate: read_u64(data, at + 24),
        order_id: read_u128(data, at + 32),
        owner,
        client_order_id: read_u64(data, at + 80),
    };
    assert(r.owner@ =~= event_at(data@, at as int).owner@);
    assert(r.owner == event_at(data@, at as int).owner);
    r
}

/// Reads the events of an event-queue account, oldest first. `None` where the
/// account is not framed as a queue, where its header counts more events than
/// its ring has slots, and where one of its events does not read.
pub fn decode_event_queue(data: &[u8]) -> (r: Option<Vec<EventView>>)
    ensures
        r is Some <==> queue_readable(data@),
        r matches Some(views) ==> views@ == queue_views(data@),
{
    let n = data.len();
    if n < HEAD_PADDING_LEN + TAIL_PADDING_LEN + QUEUE_HEADER_LEN {
        return None;
    }
    if !padding_matches(data) {
        return None;
    }
    if (n - (HEAD_PADDING_LEN + TAIL_PADDING_LEN)) % 8 != 0 {
        return None;
    }
    let head = read_u64(data, 13);
    let count = read_u64(data, 21);
    let capacity: usize = (n - (HEAD_PADDING_LEN + TAIL_PADDING_LEN + QUEUE_HEADER_LEN)) / EVENT_LEN;
    if count > capacity as u64 {
        return None;
    }
    let mut views: Vec<EventView> = Vec::new();
    let mut index: usize = 0;
    while index < count as usize
        invariant
            index <= count,
            framed(data@),
            n == data.len(),
            head == header_of(data@).head,
            count == header_of(data@).count,
            capacity == capacity_of(data@.len() as int),
            count <= capacity,
            EVENT_LEN * capacity + HEAD_PADDING_LEN + TAIL_PADDING_LEN + QUEUE_HEADER_LEN <= n,
            views@.len() == index,
            forall|i: int|
                0 <= i < index ==> (#[trigger] ring_event(data@, i)).spec_view() == Some(views@[i]),
        decreases count - index,
    {
        let slot: usize = ((head as u128 + index as u128) % (capacity as u128)) as usize;
        let at: usize = HEAD_PADDING_LEN + QUEUE_HEADER_LEN + EVENT_LEN * slot;
        let event = read_event(data, at);
        assert(event == ring_event(data@, index as int));
        match event.as_view() {
            None => {
                return None;
            },
            Some(view) => {
                views.push(view);
            },
        }
        index = index + 1;
    }
    assert(views@ =~= queue_views(data@));
    Some(views)
}

} // verus!
