//! The order-book venue's order tree: a crit-bit tree stored as an array of
//! 72-byte nodes behind a 32-byte header.

use crate::bytes::{le_u32, le_u64, read_u32, read_u64};
use crate::decimal::{
    checked_product, divide_integers, lemma_quotient_of_scale, pow10, pow10_u64, quotient_of,
    DecimalValue, MAX_MANTISSA, MAX_TOKEN_DECIMALS,
};
use crate::depth::{
    aggregate_levels, depth_levels, grouped, lemma_depth_levels_monotone, lemma_grouped_totals,
    lemma_total_at_nonnegative, prices_ascending, prices_descending, strictly_ascending,
    strictly_descending, total_at, Level, LevelTotal,
};
use crate::market::MarketOrder;
use crate::openbook::ObMarketInfo;
use vstd::prelude::*;

verus! {

/// Index of a node in the slab's node array.
pub type NodeHandle = u32;

/// Bytes of account data that precede the slab.
pub const SLAB_PREFIX_LEN: usize = 13;

/// Bytes of account data that follow the slab.
pub const SLAB_SUFFIX_LEN: usize = 7;

/// Bytes of the slab header.
pub const SLAB_HEADER_LEN: usize = 32;

/// Bytes of one node.
pub const NODE_SIZE: usize = 72;

/// Tag of an inner node.
pub const INNER_NODE_TAG: u32 = 1;

/// Tag of a leaf node.
pub const LEAF_NODE_TAG: u32 = 2;

/// What a node's leading tag says the node is.
#[derive(Clone, Copy, Debug, PartialEq, Eq, Structural)]
pub enum NodeTag {
    Uninitialized,
    InnerNode,
    LeafNode,
    FreeNode,
    LastFreeNode,
}

impl NodeTag {
    /// The tag with the given number.
    pub open spec fn of(tag: u32) -> Option<NodeTag> {
        if tag == 0 {
            Some(NodeTag::Uninitialized)
        } else if tag == 1 {
            Some(NodeTag::InnerNode)
        } else if tag == 2 {
            Some(NodeTag::LeafNode)
        } else if tag == 3 {
            Some(NodeTag::FreeNode)
        } else if tag == 4 {
            Some(NodeTag::LastFreeNode)
        } else {
            None
        }
    }

    /// Reads a tag from its number; `None` for a number above 4.
    pub fn try_from(tag: u32) -> (r: Option<NodeTag>)
        ensures
            r == Self::of(tag),
    {
        if tag == 0 {
            Some(NodeTag::Uninitialized)
        } else if tag == 1 {
            Some(NodeTag::InnerNode)
        } else if tag == 2 {
            Some(NodeTag::LeafNode)
        } else if tag == 3 {
            Some(NodeTag::FreeNode)
        } else if tag == 4 {
            Some(NodeTag::LastFreeNode)
        } else {
            None
        }
    }
}

/// The fee tier that an order was placed under.
#[derive(Clone, Copy, Debug, PartialEq, Eq, Structural)]
pub enum FeeTier {
    Base,
    _SRM2,
    _SRM3,
    _SRM4,
    _SRM5,
    _SRM6,
    _MSRM,
    Stable,
}

impl FeeTier {
    /// The tier with the given number.
    pub open spec fn of(tier: u8) -> Option<FeeTier> {
        if tier == 0 {
            Some(FeeTier::Base)
        } else if tier == 1 {
            Some(FeeTier::_SRM2)
        } else if tier == 2 {
            Some(FeeTier::_SRM3)
        } else if tier == 3 {
            Some(FeeTier::_SRM4)
        } else if tier == 4 {
            Some(FeeTier::_SRM5)
        } else if tier == 5 {
            Some(FeeTier::_SRM6)
        } else if tier == 6 {
            Some(FeeTier::_MSRM)
        } else if tier == 7 {
            Some(FeeTier::Stable)
        } else {
            None
        }
    }

    /// Reads a tier from its number; `None` for a number above 7.
    pub fn try_from(tier: u8) -> (r: Option<FeeTier>)
        ensures
            r == Self::of(tier),
    {
        if tier == 0 {
            Some(FeeTier::Base)
        } else if tier == 1 {
            Some(FeeTier::_SRM2)
        } else if tier == 2 {
            Some(FeeTier::_SRM3)
        } else if tier == 3 {
            Some(FeeTier::_SRM4)
        } else if tier == 4 {
            Some(FeeTier::_SRM5)
        } else if tier == 5 {
            Some(FeeTier::_SRM6)
        } else if tier == 6 {
            Some(FeeTier::_MSRM)
        } else if tier == 7 {
            Some(FeeTier::Stable)
        } else {
            None
        }
    }

    /// The number of the tier.
    pub fn to_u8(self) -> (r: u8)
        ensures
            Self::of(r) == Some(self),
    {
        match self {
            FeeTier::Base => 0,
            FeeTier::_SRM2 => 1,
            FeeTier::_SRM3 => 2,
            FeeTier::_SRM4 => 3,
            FeeTier::_SRM5 => 4,
            FeeTier::_SRM6 => 5,
            FeeTier::_MSRM => 6,
            FeeTier::Stable => 7,
        }
    }
}

/// An inner node: the two subtrees below it hold the keys that agree on the
/// first `prefix_len` bits of `key` and differ in the next one.
#[derive(Clone, Copy, Debug, PartialEq, Eq)]
pub struct InnerNode {
    pub tag: u32,
    pub prefix_len: u32,
    pub key: u128,
    pub children: [u32; 2],
    pub padding: [u64; 5],
}

/// A leaf: one resting order. The upper 64 bits of its key are its price in lots.
#[derive(Clone, Copy, Debug, PartialEq, Eq)]
pub struct LeafNode {
    pub tag: u32,
    pub owner_slot: u8,
    pub fee_tier: u8,
    pub padding: [u8; 2],
    pub key: u128,
    pub owner: [u64; 4],
    pub quantity: u64,
    pub client_order_id: u64,
}

impl LeafNode {
    /// The price of the order in lots: the upper half of its key.
    pub fn price(&self) -> (r: u64)
        ensures
            r == self.key / 0x1_0000_0000_0000_0000,
    {
        let key = self.key;
        assert(key >> 64 == key / 0x1_0000_0000_0000_0000) by (bit_vector);
        assert(key >> 64 <= 0xffff_ffff_ffff_ffff) by (bit_vector);
        (key >> 64) as u64
    }

    /// The size of the order in lots.
    pub fn quantity(&self) -> (r: u64)
        ensures
            r == self.quantity,
    {
        self.quantity
    }
}

/// A node as it is stored: a tag and 17 further 32-bit words.
#[derive(Clone, Copy, Debug)]
pub struct AnyNode {
    tag: u32,
    data: [u32; 17],
}

/// An inner node or a leaf.
#[derive(Clone, Copy, Debug)]
pub enum NodeRef {
    Inner(InnerNode),
    Leaf(LeafNode),
}

/// The 64-bit integer whose low word is `lo` and whose high word is `hi`.
pub open spec fn join64(lo: u32, hi: u32) -> int {
    lo + hi * 0x1_0000_0000
}

/// The 128-bit integer made of four words, lowest first.
pub open spec fn join128(w0: u32, w1: u32, w2: u32, w3: u32) -> int {
    join64(w0, w1) + join64(w2, w3) * 0x1_0000_0000_0000_0000
}

fn word64(lo: u32, hi: u32) -> (r: u64)
    ensures
        r == join64(lo, hi),
{
    lo as u64 + (hi as u64) * 0x1_0000_0000
}

fn word128(w0: u32, w1: u32, w2: u32, w3: u32) -> (r: u128)
    ensures
        r == join128(w0, w1, w2, w3),
{
    word64(w0, w1) as u128 + (word64(w2, w3) as u128) * 0x1_0000_0000_0000_0000
}

impl AnyNode {
    /// The node with the given tag and words.
    pub fn new(tag: u32, data: [u32; 17]) -> (r: AnyNode)
        ensures
            r.spec_tag() == tag,
            r.spec_words() == data@,
    {
        AnyNode { tag, data }
    }

    /// The node's tag.
    pub closed spec fn spec_tag(self) -> u32 {
        self.tag
    }

    /// The 17 words that follow the tag.
    pub closed spec fn spec_words(self) -> Seq<u32> {
        self.data@
    }

    /// The node read as a leaf.
    pub open spec fn as_leaf(self) -> LeafNode {
        let w = self.spec_words();
        LeafNode {
            tag: self.spec_tag(),
            owner_slot: (w[0] % 0x100) as u8,
            fee_tier: (w[0] / 0x100 % 0x100) as u8,
            padding: [(w[0] / 0x1_0000 % 0x100) as u8, (w[0] / 0x100_0000) as u8],
            key: join128(w[1], w[2], w[3], w[4]) as u128,
            owner: [
                join64(w[5], w[6]) as u64,
                join64(w[7], w[8]) as u64,
                join64(w[9], w[10]) as u64,
                join64(w[11], w[12]) as u64,
            ],
            quantity: join64(w[13], w[14]) as u64,
            client_order_id: join64(w[15], w[16]) as u64,
        }
    }

    /// The node read as an inner node.
    pub open spec fn as_inner(self) -> InnerNode {
        let w = self.spec_words();
        InnerNode {
            tag: self.spec_tag(),
            prefix_len: w[0],
            key: join128(w[1], w[2], w[3], w[4]) as u128,
            children: [w[5], w[6]],
            padding: [
                join64(w[7], w[8]) as u64,
                join64(w[9], w[10]) as u64,
                join64(w[11], w[12]) as u64,
                join64(w[13], w[14]) as u64,
                join64(w[15], w[16]) as u64,
            ],
        }
    }

    /// What the node is by its tag: an inner node, a leaf, or neither.
    pub open spec fn spec_case(self) -> Option<NodeRef> {
        if self.spec_tag() == INNER_NODE_TAG {
            Some(NodeRef::Inner(self.as_inner()))
        } else if self.spec_tag() == LEAF_NODE_TAG {
            Some(NodeRef::Leaf(self.as_leaf()))
        } else {
            None
        }
    }

    /// The node's tag.
    pub fn tag(&self) -> (r: u32)
        ensures
            r == self.spec_tag(),
    {
        self.tag
    }

    /// Reads the node by its tag: an inner node, a leaf, or `None` for a node
    /// that is free or was never written.
    pub fn case(&self) -> (r: Option<NodeRef>)
        ensures
            r == self.spec_case(),
    {
        let w = &self.data;
        if self.tag == INNER_NODE_TAG {
            let inner = InnerNode {
                tag: self.tag,
                prefix_len: w[0],
                key: word128(w[1], w[2], w[3], w[4]),
                children: [w[5], w[6]],
                padding: [
                    word64(w[7], w[8]),
                    word64(w[9], w[10]),
                    word64(w[11], w[12]),
                    word64(w[13], w[14]),
                    word64(w[15], w[16]),
                ],
            };
            assert(inner.children == self.as_inner().children);
            assert(inner.padding == self.as_inner().padding);
            Some(NodeRef::Inner(inner))
        } else if self.tag == LEAF_NODE_TAG {
            let leaf = LeafNode {
                tag: self.tag,
                owner_slot: (w[0] % 0x100) as u8,
                fee_tier: (w[0] / 0x100 % 0x100) as u8,
                padding: [(w[0] / 0x1_0000 % 0x100) as u8, (w[0] / 0x100_0000) as u8],
                key: word128(w[1], w[2], w[3], w[4]),
                owner: [
                    word64(w[5], w[6]),
                    word64(w[7], w[8]),
                    word64(w[9], w[10]),
                    word64(w[11], w[12]),
                ],
                quantity: word64(w[13], w[14]),
                client_order_id: word64(w[15], w[16]),
            };
            assert(leaf.padding == self.as_leaf().padding);
            assert(leaf.owner == self.as_leaf().owner);
            Some(NodeRef::Leaf(leaf))
        } else {
            None
        }
    }
}

/// The slab header: the root of the tree and the number of its leaves, after
/// bookkeeping of the free list.
#[derive(Clone, Copy, Debug, PartialEq, Eq, Structural)]
pub struct SlabHeader {
    pub bump_index: u64,
    pub free_list_len: u64,
    pub free_list_head: u32,
    pub root_node: u32,
    pub leaf_count: u64,
}

/// One side of an order book: the header and the node array.
#[derive(Clone, Debug)]
pub struct Slab {
    header: SlabHeader,
    nodes: Vec<AnyNode>,
}

/// The node with index `key`, where there is one and it is an inner node or a leaf.
pub open spec fn node_at(nodes: Seq<AnyNode>, key: u32) -> Option<AnyNode> {
    if key < nodes.len() && (nodes[key as int].spec_tag() == INNER_NODE_TAG
        || nodes[key as int].spec_tag() == LEAF_NODE_TAG) {
        Some(nodes[key as int])
    } else {
        None
    }
}

/// The leaves below `root` in key order, ascending or descending, walking at
/// most `fuel` nodes deep. `None` where the walk meets a handle outside the
/// array, a node that is neither inner node nor leaf, or runs out of fuel.
pub open spec fn walk(nodes: Seq<AnyNode>, root: u32, descending: bool, fuel: nat) -> Option<
    Seq<LeafNode>,
>
    decreases fuel,
{
    if fuel == 0 {
        None
    } else {
        match node_at(nodes, root) {
            None => None,
            Some(node) => if node.spec_tag() == LEAF_NODE_TAG {
                Some(seq![node.as_leaf()])
            } else {
                let inner = node.as_inner();
                let first = if descending {
                    inner.children[1]
                } else {
                    inner.children[0]
                };
                let second = if descending {
                    inner.children[0]
                } else {
                    inner.children[1]
                };
                match walk(nodes, first, descending, (fuel - 1) as nat) {
                    None => None,
                    Some(a) => match walk(nodes, second, descending, (fuel - 1) as nat) {
                        None => None,
                        Some(b) => Some(a + b),
                    },
                }
            },
        }
    }
}

/// The header held by account data.
pub open spec fn header_of(raw: Seq<u8>) -> SlabHeader {
    SlabHeader {
        bump_index: le_u64(raw, 13) as u64,
        free_list_len: le_u64(raw, 21) as u64,
        free_list_head: le_u32(raw, 29) as u32,
        root_node: le_u32(raw, 33) as u32,
        leaf_count: le_u64(raw, 37) as u64,
    }
}

/// The number of whole nodes held by account data of the given length.
pub open spec fn node_count_of(raw_len: int) -> int {
    (raw_len - (SLAB_PREFIX_LEN + SLAB_SUFFIX_LEN + SLAB_HEADER_LEN)) / (NODE_SIZE as int)
}

/// Where node `index` starts in account data.
pub open spec fn node_offset(index: int) -> int {
    SLAB_PREFIX_LEN + SLAB_HEADER_LEN + NODE_SIZE * index
}

impl Slab {
    /// The header.
    pub closed spec fn spec_header(&self) -> SlabHeader {
        self.header
    }

    /// The node array.
    pub closed spec fn spec_nodes(&self) -> Seq<AnyNode> {
        self.nodes@
    }

    /// Whether the slab is what account data `raw` holds: the header, and
    /// every whole node that follows it.
    pub open spec fn decodes(&self, raw: Seq<u8>) -> bool {
        &&& self.spec_header() == header_of(raw)
        &&& self.spec_nodes().len() == node_count_of(raw.len() as int)
        &&& forall|i: int|
            0 <= i < self.spec_nodes().len() ==> (#[trigger] self.spec_nodes()[i]).spec_tag()
                == le_u32(raw, node_offset(i))
        &&& forall|i: int, w: int|
            0 <= i < self.spec_nodes().len() && 0 <= w < 17 ==> (
            #[trigger] self.spec_nodes()[i].spec_words()[w]) == le_u32(
                raw,
                node_offset(i) + 4 + 4 * w,
            )
    }

    /// Frames account data as a slab: the first 13 and the last 7 bytes are
    /// skipped, 32 bytes of header follow, and the rest is cut to whole
    /// nodes. `None` where the data is too short for the header.
    pub fn new(raw_bytes: &[u8]) -> (r: Option<Slab>)
        ensures
            r is Some <==> raw_bytes@.len() >= SLAB_PREFIX_LEN + SLAB_SUFFIX_LEN + SLAB_HEADER_LEN,
            r matches Some(slab) ==> slab.decodes(raw_bytes@),
    {
        if raw_bytes.len() < SLAB_PREFIX_LEN + SLAB_SUFFIX_LEN + SLAB_HEADER_LEN {
            return None;
        }
        let header = SlabHeader {
            bump_index: read_u64(raw_bytes, 13),
            free_list_len: read_u64(raw_bytes, 21),
            free_list_head: read_u32(raw_bytes, 29),
            root_node: read_u32(raw_bytes, 33),
            leaf_count: read_u64(raw_bytes, 37),
        };
        let count: usize = (raw_bytes.len() - (SLAB_PREFIX_LEN + SLAB_SUFFIX_LEN + SLAB_HEADER_LEN))
            / NODE_SIZE;
        let mut nodes: Vec<AnyNode> = Vec::new();
        let mut i: usize = 0;
        while i < count
            invariant
                i <= count,
                count == node_count_of(raw_bytes@.len() as int),
                NODE_SIZE * count + SLAB_PREFIX_LEN + SLAB_SUFFIX_LEN + SLAB_HEADER_LEN
                    <= raw_bytes.len(),
                raw_bytes@.len() >= SLAB_PREFIX_LEN + SLAB_SUFFIX_LEN + SLAB_HEADER_LEN,
                nodes@.len() == i,
                forall|k: int|
                    0 <= k < i ==> (#[trigger] nodes@[k]).spec_tag() == le_u32(
                        raw_bytes@,
                        node_offset(k),
                    ),
                forall|k: int, w: int|
                    0 <= k < i && 0 <= w < 17 ==> (#[trigger] nodes@[k].spec_words()[w]) == le_u32(
                        raw_bytes@,
                        node_offset(k) + 4 + 4 * w,
                    ),
            decreases count - i,
        {
            let at: usize = SLAB_PREFIX_LEN + SLAB_HEADER_LEN + NODE_SIZE * i;
            let node = read_node(raw_bytes, at);
            nodes.push(node);
            i = i + 1;
        }
        Some(Slab { header, nodes })
    }

    /// The header.
    pub fn header(&self) -> (r: &SlabHeader)
        ensures
            *r == self.spec_header(),
    {
        &self.header
    }

    /// The node array.
    pub fn nodes(&self) -> (r: &[AnyNode])
        ensures
            r@ == self.spec_nodes(),
    {
        self.nodes.as_slice()
    }

    /// The handle of the root; `None` for a tree without leaves.
    pub fn root(&self) -> (r: Option<NodeHandle>)
        ensures
            r == if self.spec_header().leaf_count == 0 {
                None
            } else {
                Some(self.spec_header().root_node)
            },
    {
        if self.header.leaf_count == 0 {
            return None;
        }
        Some(self.header.root_node)
    }

    /// The node with index `key`, where there is one and it is an inner node
    /// or a leaf.
    pub fn get(&self, key: u32) -> (r: Option<&AnyNode>)
        ensures
            match r {
                Some(node) => node_at(self.spec_nodes(), key) == Some(*node),
                None => node_at(self.spec_nodes(), key) is None,
            },
    {
        if key as usize >= self.nodes.len() {
            return None;
        }
        let node = &self.nodes[key as usize];
        if node.tag == INNER_NODE_TAG || node.tag == LEAF_NODE_TAG {
            Some(node)
        } else {
            None
        }
    }

    /// The leaves of the tree in key order. The tree is walked from the root,
    /// no deeper than there are nodes; the walk must give as many leaves as
    /// the header counts, and the header may not count more leaves than there
    /// are nodes. A tree without leaves has none.
    pub open spec fn leaves(&self, descending: bool) -> Option<Seq<LeafNode>> {
        let header = self.spec_header();
        let nodes = self.spec_nodes();
        if header.leaf_count == 0 {
            Some(Seq::empty())
        } else if header.leaf_count > nodes.len() {
            None
        } else {
            match walk(nodes, header.root_node, descending, nodes.len()) {
                Some(found) => if found.len() == header.leaf_count {
                    Some(found)
                } else {
                    None
                },
                None => None,
            }
        }
    }

    /// Lists the leaves of the tree in key order: ascending, or descending
    /// where `descending` is set. `None` for a tree that is malformed: a
    /// handle outside the array, a free node in the tree, a cycle, or a leaf
    /// count that the walk does not meet.
    pub fn traverse(&self, descending: bool) -> (r: Option<Vec<LeafNode>>)
        ensures
            match r {
                Some(found) => self.leaves(descending) == Some(found@),
                None => self.leaves(descending) is None,
            },
    {
        let mut buf: Vec<LeafNode> = Vec::new();
        if self.header.leaf_count == 0 {
            return Some(buf);
        }
        if self.header.leaf_count > self.nodes.len() as u64 {
            return None;
        }
        let limit: usize = self.header.leaf_count as usize;
        let fuel: usize = self.nodes.len();
        let walked = self.walk_rec(self.header.root_node, descending, fuel, limit, &mut buf);
        if walked && buf.len() == limit {
            Some(buf)
        } else {
            None
        }
    }

    /// Appends the leaves below `sub_root` to `buf`, and stops as soon as the
    /// walk fails or `buf` would grow beyond `limit` leaves.
    fn walk_rec(
        &self,
        sub_root: NodeHandle,
        descending: bool,
        fuel: usize,
        limit: usize,
        buf: &mut Vec<LeafNode>,
    ) -> (r: bool)
        requires
            old(buf)@.len() <= limit,
        ensures
            final(buf)@.len() <= limit,
            r ==> walk(self.spec_nodes(), sub_root, descending, fuel as nat) is Some && final(buf)@
                == old(buf)@ + walk(self.spec_nodes(), sub_root, descending, fuel as nat).unwrap(),
            !r ==> (walk(self.spec_nodes(), sub_root, descending, fuel as nat) matches Some(found)
                ==> old(buf)@.len() + found.len() > limit),
        decreases fuel,
    {
        if fuel == 0 {
            return false;
        }
        let node = match self.get(sub_root) {
            None => {
                return false;
            },
            Some(node) => node,
        };
        match node.case() {
            None => false,
            Some(NodeRef::Leaf(leaf)) => {
                if buf.len() == limit {
                    return false;
                }
                buf.push(leaf);
                true
            },
            Some(NodeRef::Inner(inner)) => {
                let first = if descending {
                    inner.children[1]
                } else {
                    inner.children[0]
                };
                let second = if descending {
                    inner.children[0]
                } else {
                    inner.children[1]
                };
                if !self.walk_rec(first, descending, fuel - 1, limit, buf) {
                    return false;
                }
                let ghost middle = buf@;
                if !self.walk_rec(second, descending, fuel - 1, limit, buf) {
                    return false;
                }
                proof {
                    let a = walk(self.spec_nodes(), first, descending, (fuel - 1) as nat).unwrap();
                    let b = walk(self.spec_nodes(), second, descending, (fuel - 1) as nat).unwrap();
                    assert(buf@ =~= old(buf)@ + (a + b));
                }
                true
            },
        }
    }
}

/// The slab that account data holds.
pub open spec fn decoded(raw: Seq<u8>) -> Slab {
    choose|slab: Slab| slab.decodes(raw)
}

/// Account data holds one slab: any two slabs that it decodes to have the
/// same header, the same nodes and the same leaves.
pub proof fn lemma_decodes_unique(a: Slab, b: Slab, raw: Seq<u8>)
    requires
        a.decodes(raw),
        b.decodes(raw),
    ensures
        a.spec_header() == b.spec_header(),
        a.spec_nodes() == b.spec_nodes(),
        forall|descending: bool| a.leaves(descending) == b.leaves(descending),
{
    assert forall|i: int| 0 <= i < a.spec_nodes().len() implies a.spec_nodes()[i]
        == b.spec_nodes()[i] by {
        let x = a.spec_nodes()[i];
        let y = b.spec_nodes()[i];
        assert(x.spec_tag() == y.spec_tag());
        assert forall|w: int| 0 <= w < 17 implies x.spec_words()[w] == y.spec_words()[w] by {
            assert(a.spec_nodes()[i].spec_words()[w] == le_u32(raw, node_offset(i) + 4 + 4 * w));
            assert(b.spec_nodes()[i].spec_words()[w] == le_u32(raw, node_offset(i) + 4 + 4 * w));
        }
        assert(x.spec_words() =~= y.spec_words());
        assert(x.data == y.data);
    }
    assert(a.spec_nodes() =~= b.spec_nodes());
}

/// The leaves of the tree that account data holds, in key order. `None` where
/// the data is too short for a slab and where its tree is malformed.
pub open spec fn account_leaves(raw: Seq<u8>, descending: bool) -> Option<Seq<LeafNode>> {
    if raw.len() >= SLAB_PREFIX_LEN + SLAB_SUFFIX_LEN + SLAB_HEADER_LEN {
        decoded(raw).leaves(descending)
    } else {
        None
    }
}

/// Reads the leaves of one side of a book from its account, in key order:
/// ascending, or descending where `descending` is set.
pub fn read_leaves(raw: &[u8], descending: bool) -> (r: Option<Vec<LeafNode>>)
    ensures
        match r {
            Some(found) => account_leaves(raw@, descending) == Some(found@),
            None => account_leaves(raw@, descending) is None,
        },
{
    match Slab::new(raw) {
        None => None,
        Some(slab) => {
            proof {
                lemma_decodes_unique(slab, decoded(raw@), raw@);
            }
            slab.traverse(descending)
        },
    }
}

/// Reads the node that starts at byte `at`.
fn read_node(raw: &[u8], at: usize) -> (r: AnyNode)
    requires
        at + NODE_SIZE <= raw.len(),
    ensures
        r.spec_tag() == le_u32(raw@, at as int),
        forall|w: int| 0 <= w < 17 ==> r.spec_words()[w] == le_u32(raw@, at + 4 + 4 * w),
{
    let tag = read_u32(raw, at);
    let data: [u32; 17] = [
        read_u32(raw, at + 4),
        read_u32(raw, at + 8),
        read_u32(raw, at + 12),
        read_u32(raw, at + 16),
        read_u32(raw, at + 20),
        read_u32(raw, at + 24),
        read_u32(raw, at + 28),
        read_u32(raw, at + 32),
        read_u32(raw, at + 36),
        read_u32(raw, at + 40),
        read_u32(raw, at + 44),
        read_u32(raw, at + 48),
        read_u32(raw, at + 52),
        read_u32(raw, at + 56),
        read_u32(raw, at + 60),
        read_u32(raw, at + 64),
        read_u32(raw, at + 68),
    ];
    AnyNode { tag, data }
}

/// Each leaf's key is below the key of every leaf after it.
pub open spec fn keys_ascending(leaves: Seq<LeafNode>) -> bool {
    forall|i: int, j: int|
        0 <= i < j < leaves.len() ==> (#[trigger] leaves[i]).key < (#[trigger] leaves[j]).key
}

/// Each leaf's key is above the key of every leaf after it.
pub open spec fn keys_descending(leaves: Seq<LeafNode>) -> bool {
    forall|i: int, j: int|
        0 <= i < j < leaves.len() ==> (#[trigger] leaves[i]).key > (#[trigger] leaves[j]).key
}

/// Whether the tree below `root` is a search tree no deeper than `fuel`: below
/// every inner node, each key of the first subtree is smaller than each key of
/// the second.
pub open spec fn key_ordered(nodes: Seq<AnyNode>, root: u32, fuel: nat) -> bool
    decreases fuel,
{
    if fuel == 0 {
        false
    } else {
        match node_at(nodes, root) {
            None => false,
            Some(node) => if node.spec_tag() == LEAF_NODE_TAG {
                true
            } else {
                let low = node.as_inner().children[0];
                let high = node.as_inner().children[1];
                &&& key_ordered(nodes, low, (fuel - 1) as nat)
                &&& key_ordered(nodes, high, (fuel - 1) as nat)
                &&& forall|i: int, j: int|
                    0 <= i < walk(nodes, low, false, (fuel - 1) as nat).unwrap().len() && 0 <= j
                        < walk(nodes, high, false, (fuel - 1) as nat).unwrap().len() ==> (
                    #[trigger] walk(nodes, low, false, (fuel - 1) as nat).unwrap()[i]).key < (
                    #[trigger] walk(nodes, high, false, (fuel - 1) as nat).unwrap()[j]).key
            },
        }
    }
}

/// The traversal of a search tree yields its leaves in strictly ascending key
/// order, and the descending traversal yields the same leaves in reverse:
/// in strictly descending key order.
pub proof fn lemma_traversal_ordered(nodes: Seq<AnyNode>, root: u32, fuel: nat)
    requires
        key_ordered(nodes, root, fuel),
    ensures
        walk(nodes, root, false, fuel) is Some,
        keys_ascending(walk(nodes, root, false, fuel).unwrap()),
        walk(nodes, root, true, fuel) == Some(walk(nodes, root, false, fuel).unwrap().reverse()),
        keys_descending(walk(nodes, root, true, fuel).unwrap()),
    decreases fuel,
{
    let node = node_at(nodes, root).unwrap();
    if node.spec_tag() == LEAF_NODE_TAG {
        let one = seq![node.as_leaf()];
        assert(one.reverse() =~= one);
    } else {
        let low = node.as_inner().children[0];
        let high = node.as_inner().children[1];
        let rest = (fuel - 1) as nat;
        lemma_traversal_ordered(nodes, low, rest);
        lemma_traversal_ordered(nodes, high, rest);
        let a = walk(nodes, low, false, rest).unwrap();
        let b = walk(nodes, high, false, rest).unwrap();
        assert(walk(nodes, root, false, fuel) == Some(a + b));
        assert(walk(nodes, root, true, fuel) == Some(b.reverse() + a.reverse()));
        assert((a + b).reverse() =~= b.reverse() + a.reverse());
        let up = a + b;
        assert forall|i: int, j: int| 0 <= i < j < up.len() implies (#[trigger] up[i]).key < (
        #[trigger] up[j]).key by {
            if j < a.len() {
                assert(up[i] == a[i] && up[j] == a[j]);
            } else if i >= a.len() {
                assert(up[i] == b[i - a.len()] && up[j] == b[j - a.len()]);
            } else {
                assert(up[i] == a[i] && up[j] == b[j - a.len()]);
            }
        }
        let down = up.reverse();
        assert forall|i: int, j: int| 0 <= i < j < down.len() implies (#[trigger] down[i]).key > (
        #[trigger] down[j]).key by {
            assert(down[i] == up[up.len() - 1 - i]);
            assert(down[j] == up[up.len() - 1 - j]);
        }
    }
}

/// Whether `key` lies below an inner node on the side `high`: it agrees with
/// the node's key on the first `prefix_len` bits, and its next bit, the
/// critical one, is set exactly for the high side.
pub open spec fn on_side(key: u128, inner_key: u128, prefix_len: u32, high: bool) -> bool {
    let shift = (127 - prefix_len) as u32;
    &&& prefix_len < 128
    &&& (key >> shift) >> 1u32 == (inner_key >> shift) >> 1u32
    &&& ((key >> shift) & 1u128 == 1u128) == high
}

/// Whether the tree below `root` is a crit-bit tree no deeper than `fuel`:
/// below every inner node, the keys of both subtrees share the node's prefix,
/// those of the first subtree have the critical bit clear and those of the
/// second have it set.
pub open spec fn crit_bit_tree(nodes: Seq<AnyNode>, root: u32, fuel: nat) -> bool
    decreases fuel,
{
    if fuel == 0 {
        false
    } else {
        match node_at(nodes, root) {
            None => false,
            Some(node) => if node.spec_tag() == LEAF_NODE_TAG {
                true
            } else {
                let inner = node.as_inner();
                let low = inner.children[0];
                let high = inner.children[1];
                &&& crit_bit_tree(nodes, low, (fuel - 1) as nat)
                &&& crit_bit_tree(nodes, high, (fuel - 1) as nat)
                &&& walk(nodes, low, false, (fuel - 1) as nat) is Some
                &&& walk(nodes, high, false, (fuel - 1) as nat) is Some
                &&& forall|i: int|
                    0 <= i < walk(nodes, low, false, (fuel - 1) as nat).unwrap().len() ==> on_side(
                        (#[trigger] walk(nodes, low, false, (fuel - 1) as nat).unwrap()[i]).key,
                        inner.key,
                        inner.prefix_len,
                        false,
                    )
                &&& forall|j: int|
                    0 <= j < walk(nodes, high, false, (fuel - 1) as nat).unwrap().len() ==> on_side(
                        (#[trigger] walk(nodes, high, false, (fuel - 1) as nat).unwrap()[j]).key,
                        inner.key,
                        inner.prefix_len,
                        true,
                    )
            },
        }
    }
}

/// A key on the low side of an inner node is smaller than a key on its high side.
proof fn lemma_sides_ordered(low: u128, high: u128, inner_key: u128, prefix_len: u32)
    requires
        on_side(low, inner_key, prefix_len, false),
        on_side(high, inner_key, prefix_len, true),
    ensures
        low < high,
{
    let shift = (127 - prefix_len) as u32;
    assert(low < high) by (bit_vector)
        requires
            shift < 128,
            (low >> shift) >> 1u32 == (inner_key >> shift) >> 1u32,
            (high >> shift) >> 1u32 == (inner_key >> shift) >> 1u32,
            (low >> shift) & 1u128 != 1u128,
            (high >> shift) & 1u128 == 1u128,
    ;
}

/// A crit-bit tree is a search tree.
pub proof fn lemma_crit_bit_ordered(nodes: Seq<AnyNode>, root: u32, fuel: nat)
    requires
        crit_bit_tree(nodes, root, fuel),
    ensures
        key_ordered(nodes, root, fuel),
    decreases fuel,
{
    let node = node_at(nodes, root).unwrap();
    if node.spec_tag() != LEAF_NODE_TAG {
        let inner = node.as_inner();
        let low = inner.children[0];
        let high = inner.children[1];
        let rest = (fuel - 1) as nat;
        lemma_crit_bit_ordered(nodes, low, rest);
        lemma_crit_bit_ordered(nodes, high, rest);
        let a = walk(nodes, low, false, rest).unwrap();
        let b = walk(nodes, high, false, rest).unwrap();
        assert forall|i: int, j: int| 0 <= i < a.len() && 0 <= j < b.len() implies (#[trigger] a[i]).key
            < (#[trigger] b[j]).key by {
            lemma_sides_ordered(a[i].key, b[j].key, inner.key, inner.prefix_len);
        }
    }
}

/// The price in lots that a key carries: its upper 64 bits.
pub open spec fn key_price(key: u128) -> u64 {
    (key / 0x1_0000_0000_0000_0000) as u64
}

/// Each leaf as a resting order: the price of its key, and its quantity.
pub open spec fn leaf_levels(leaves: Seq<LeafNode>) -> Seq<Level> {
    Seq::new(
        leaves.len(),
        |i: int| Level { price_lots: key_price(leaves[i].key), size_lots: leaves[i].quantity },
    )
}

/// Leaves in key order are in price order.
proof fn lemma_ordered_leaves_prices(leaves: Seq<LeafNode>)
    ensures
        keys_ascending(leaves) ==> prices_ascending(leaf_levels(leaves)),
        keys_descending(leaves) ==> prices_descending(leaf_levels(leaves)),
{
    let entries = leaf_levels(leaves);
    if keys_ascending(leaves) {
        assert forall|i: int, j: int| 0 <= i < j < entries.len() implies (
        #[trigger] entries[i]).price_lots <= (#[trigger] entries[j]).price_lots by {
            assert(leaves[i].key < leaves[j].key);
        }
    }
    if keys_descending(leaves) {
        assert forall|i: int, j: int| 0 <= i < j < entries.len() implies (
        #[trigger] entries[i]).price_lots >= (#[trigger] entries[j]).price_lots by {
            assert(leaves[i].key > leaves[j].key);
        }
    }
}

/// Leaves in ascending key order give a depth book in strictly ascending price
/// order, leaves in descending key order one in strictly descending order, and
/// neither holds more than `depth` levels.
pub proof fn lemma_ordered_leaves_levels(leaves: Seq<LeafNode>, depth: nat)
    ensures
        depth_levels(leaf_levels(leaves), depth).len() <= depth,
        keys_ascending(leaves) ==> strictly_ascending(depth_levels(leaf_levels(leaves), depth)),
        keys_descending(leaves) ==> strictly_descending(depth_levels(leaf_levels(leaves), depth)),
{
    lemma_ordered_leaves_prices(leaves);
    lemma_depth_levels_monotone(leaf_levels(leaves), depth);
}

/// Numerator of a readable price: price in lots, times the quote lot size,
/// times the base token's factor.
pub open spec fn price_numerator(price_lots: int, quote_lot_size: int, base_factor: int) -> int {
    price_lots * quote_lot_size * base_factor
}

/// Denominator of a readable price: the base lot size times the quote token's factor.
pub open spec fn price_denominator(base_lot_size: int, quote_factor: int) -> int {
    base_lot_size * quote_factor
}

/// Numerator of a readable quantity: quantity in lots times the base lot size.
pub open spec fn quantity_numerator(quantity: int, base_lot_size: int) -> int {
    quantity * base_lot_size
}

/// The readable price of `price_lots` on `market`: the decimal quotient of
/// `price_lots * quote_lot_size * 10^base_decimals` by
/// `base_lot_size * 10^quote_decimals`. `None` where a decimal exponent is
/// above 19, where one of the two integers needs more than 96 bits, and where
/// the division gives none.
pub open spec fn spec_readable_price(price_lots: u64, market: ObMarketInfo) -> Option<
    DecimalValue,
> {
    if market.base_decimals > MAX_TOKEN_DECIMALS || market.quote_decimals > MAX_TOKEN_DECIMALS {
        None
    } else {
        quotient_of(
            price_numerator(
                price_lots as int,
                market.quote_lot_size as int,
                pow10(market.base_decimals as nat) as int,
            ),
            price_denominator(
                market.base_lot_size as int,
                pow10(market.quote_decimals as nat) as int,
            ),
        )
    }
}

/// The readable quantity of `quantity` lots on `market`: the decimal quotient
/// of `quantity * base_lot_size` by `10^base_decimals`. `None` where the
/// decimal exponent is above 19, where the product needs more than 96 bits,
/// and where the division gives none.
pub open spec fn spec_readable_quantity(quantity: u64, market: ObMarketInfo) -> Option<
    DecimalValue,
> {
    if market.base_decimals > MAX_TOKEN_DECIMALS {
        None
    } else {
        quotient_of(
            quantity_numerator(quantity as int, market.base_lot_size as int),
            pow10(market.base_decimals as nat) as int,
        )
    }
}

/// Scaling both lot sizes and both token factors by the same `scale` leaves
/// the exact fractions behind a readable price and a readable quantity
/// unchanged: numerator and denominator grow by the same factor.
pub proof fn lemma_rescaling_keeps_fractions(
    lots: int,
    base_lot_size: int,
    quote_lot_size: int,
    base_factor: int,
    quote_factor: int,
    scale: int,
)
    ensures
        price_numerator(lots, scale * quote_lot_size, scale * base_factor) * price_denominator(
            base_lot_size,
            quote_factor,
        ) == price_numerator(lots, quote_lot_size, base_factor) * price_denominator(
            scale * base_lot_size,
            scale * quote_factor,
        ),
        quantity_numerator(lots, scale * base_lot_size) * base_factor == quantity_numerator(
            lots,
            base_lot_size,
        ) * (scale * base_factor),
{
    let square = scale * scale;
    let price_part = lots * quote_lot_size * base_factor;
    let unit_part = base_lot_size * quote_factor;
    assert(lots * (scale * quote_lot_size) * (scale * base_factor) == square * price_part)
        by (nonlinear_arith)
        requires
            square == scale * scale,
            price_part == lots * quote_lot_size * base_factor,
    ;
    assert((scale * base_lot_size) * (scale * quote_factor) == square * unit_part)
        by (nonlinear_arith)
        requires
            square == scale * scale,
            unit_part == base_lot_size * quote_factor,
    ;
    assert((square * price_part) * unit_part == price_part * (square * unit_part))
        by (nonlinear_arith);
    assert(lots * (scale * base_lot_size) * base_factor == lots * base_lot_size * (scale
        * base_factor)) by (nonlinear_arith);
}

/// The readable price does not change where both lot sizes are scaled by the
/// same number, as long as the scaled integers still fit.
pub proof fn lemma_readable_price_rescaling(
    price_lots: u64,
    market: ObMarketInfo,
    scaled: ObMarketInfo,
    k: nat,
)
    requires
        k > 0,
        scaled.base_decimals == market.base_decimals,
        scaled.quote_decimals == market.quote_decimals,
        scaled.base_lot_size == k * market.base_lot_size,
        scaled.quote_lot_size == k * market.quote_lot_size,
        market.base_decimals <= MAX_TOKEN_DECIMALS && market.quote_decimals <= MAX_TOKEN_DECIMALS
            ==> price_numerator(
            price_lots as int,
            scaled.quote_lot_size as int,
            pow10(market.base_decimals as nat) as int,
        ) <= MAX_MANTISSA && price_denominator(
            scaled.base_lot_size as int,
            pow10(market.quote_decimals as nat) as int,
        ) <= MAX_MANTISSA,
    ensures
        spec_readable_price(price_lots, scaled) == spec_readable_price(price_lots, market),
{
    if market.base_decimals <= MAX_TOKEN_DECIMALS && market.quote_decimals <= MAX_TOKEN_DECIMALS {
        let base_factor = pow10(market.base_decimals as nat) as int;
        let quote_factor = pow10(market.quote_decimals as nat) as int;
        let numerator = price_numerator(
            price_lots as int,
            market.quote_lot_size as int,
            base_factor,
        );
        let denominator = price_denominator(market.base_lot_size as int, quote_factor);
        assert(price_numerator(price_lots as int, scaled.quote_lot_size as int, base_factor) == k
            * numerator && price_denominator(scaled.base_lot_size as int, quote_factor) == k
            * denominator && numerator >= 0 && denominator >= 0) by (nonlinear_arith)
            requires
                numerator == price_lots * market.quote_lot_size * base_factor,
                denominator == market.base_lot_size * quote_factor,
                scaled.base_lot_size == k * market.base_lot_size,
                scaled.quote_lot_size == k * market.quote_lot_size,
                price_numerator(price_lots as int, scaled.quote_lot_size as int, base_factor)
                    == price_lots * scaled.quote_lot_size * base_factor,
                price_denominator(scaled.base_lot_size as int, quote_factor)
                    == scaled.base_lot_size * quote_factor,
                base_factor >= 0,
                quote_factor >= 0,
        ;
        lemma_quotient_of_scale(numerator, denominator, k as int);
    }
}

/// The readable price does not change where both tokens have one decimal
/// more, as long as the scaled integers still fit.
pub proof fn lemma_readable_price_decimals_shift(
    price_lots: u64,
    market: ObMarketInfo,
    scaled: ObMarketInfo,
)
    requires
        market.base_decimals < MAX_TOKEN_DECIMALS,
        market.quote_decimals < MAX_TOKEN_DECIMALS,
        scaled.base_decimals == market.base_decimals + 1,
        scaled.quote_decimals == market.quote_decimals + 1,
        scaled.base_lot_size == market.base_lot_size,
        scaled.quote_lot_size == market.quote_lot_size,
        price_numerator(
            price_lots as int,
            market.quote_lot_size as int,
            pow10(scaled.base_decimals as nat) as int,
        ) <= MAX_MANTISSA,
        price_denominator(market.base_lot_size as int, pow10(scaled.quote_decimals as nat) as int)
            <= MAX_MANTISSA,
    ensures
        spec_readable_price(price_lots, scaled) == spec_readable_price(price_lots, market),
{
    let base_factor = pow10(market.base_decimals as nat) as int;
    let quote_factor = pow10(market.quote_decimals as nat) as int;
    assert(pow10(scaled.base_decimals as nat) == 10 * base_factor);
    assert(pow10(scaled.quote_decimals as nat) == 10 * quote_factor);
    let numerator = price_numerator(price_lots as int, market.quote_lot_size as int, base_factor);
    let denominator = price_denominator(market.base_lot_size as int, quote_factor);
    assert(price_numerator(price_lots as int, market.quote_lot_size as int, 10 * base_factor) == 10
        * numerator && price_denominator(market.base_lot_size as int, 10 * quote_factor) == 10
        * denominator && numerator >= 0 && denominator >= 0) by (nonlinear_arith)
        requires
            numerator == price_lots * market.quote_lot_size * base_factor,
            denominator == market.base_lot_size * quote_factor,
            price_numerator(price_lots as int, market.quote_lot_size as int, 10 * base_factor)
                == price_lots * market.quote_lot_size * (10 * base_factor),
            price_denominator(market.base_lot_size as int, 10 * quote_factor)
                == market.base_lot_size * (10 * quote_factor),
            base_factor >= 0,
            quote_factor >= 0,
    ;
    lemma_quotient_of_scale(numerator, denominator, 10);
}

/// The readable quantity does not change where the base lot size is ten
/// times as large and the base token has one decimal more, as long as the
/// scaled integers still fit.
pub proof fn lemma_readable_quantity_rescaling(
    quantity: u64,
    market: ObMarketInfo,
    scaled: ObMarketInfo,
)
    requires
        market.base_decimals < MAX_TOKEN_DECIMALS,
        scaled.base_decimals == market.base_decimals + 1,
        scaled.base_lot_size == 10 * market.base_lot_size,
        quantity_numerator(quantity as int, scaled.base_lot_size as int) <= MAX_MANTISSA,
    ensures
        spec_readable_quantity(quantity, scaled) == spec_readable_quantity(quantity, market),
{
    let factor = pow10(market.base_decimals as nat) as int;
    crate::decimal::lemma_pow10_monotonic(scaled.base_decimals as nat, 19);
    crate::decimal::lemma_pow10_19();
    assert(pow10(scaled.base_decimals as nat) == 10 * factor);
    let numerator = quantity_numerator(quantity as int, market.base_lot_size as int);
    assert(quantity_numerator(quantity as int, scaled.base_lot_size as int) == 10 * numerator
        && numerator >= 0) by (nonlinear_arith)
        requires
            numerator == quantity * market.base_lot_size,
            scaled.base_lot_size == 10 * market.base_lot_size,
            quantity_numerator(quantity as int, scaled.base_lot_size as int) == quantity
                * scaled.base_lot_size,
    ;
    lemma_quotient_of_scale(numerator, factor, 10);
}

/// Converts a price in lots into a readable price.
pub fn readable_price(price_lots: u64, market: &ObMarketInfo) -> (r: Option<DecimalValue>)
    ensures
        r == spec_readable_price(price_lots, *market),
{
    if market.base_decimals > MAX_TOKEN_DECIMALS || market.quote_decimals > MAX_TOKEN_DECIMALS {
        return None;
    }
    let base_factor: u128 = pow10_u64(market.base_decimals) as u128;
    let quote_factor: u128 = pow10_u64(market.quote_decimals) as u128;
    assert(price_lots * market.quote_lot_size <= 0xffff_ffff_ffff_ffff * 0xffff_ffff_ffff_ffff)
        by (nonlinear_arith)
        requires
            price_lots <= 0xffff_ffff_ffff_ffff,
            market.quote_lot_size <= 0xffff_ffff_ffff_ffff,
    ;
    assert(market.base_lot_size * quote_factor <= 0xffff_ffff_ffff_ffff * 0xffff_ffff_ffff_ffff)
        by (nonlinear_arith)
        requires
            market.base_lot_size <= 0xffff_ffff_ffff_ffff,
            quote_factor <= 0xffff_ffff_ffff_ffff,
    ;
    let lots_value: u128 = price_lots as u128 * market.quote_lot_size as u128;
    let denominator: u128 = market.base_lot_size as u128 * quote_factor;
    match checked_product(lots_value, base_factor) {
        Some(numerator) => divide_integers(numerator, denominator),
        None => None,
    }
}

/// Converts a quantity in lots into a readable quantity.
pub fn readable_quantity(quantity: u64, market: &ObMarketInfo) -> (r: Option<DecimalValue>)
    ensures
        r == spec_readable_quantity(quantity, *market),
{
    if market.base_decimals > MAX_TOKEN_DECIMALS {
        return None;
    }
    let base_factor: u128 = pow10_u64(market.base_decimals) as u128;
    assert(quantity * market.base_lot_size <= 0xffff_ffff_ffff_ffff * 0xffff_ffff_ffff_ffff)
        by (nonlinear_arith)
        requires
            quantity <= 0xffff_ffff_ffff_ffff,
            market.base_lot_size <= 0xffff_ffff_ffff_ffff,
    ;
    let numerator: u128 = quantity as u128 * market.base_lot_size as u128;
    divide_integers(numerator, base_factor)
}

/// A level with its readable price and quantity; `None` where its total does
/// not fit in 64 bits or a conversion gives none.
pub open spec fn priced_level(level: LevelTotal, market: ObMarketInfo) -> Option<MarketOrder> {
    if level.size > u64::MAX {
        None
    } else {
        match (
            spec_readable_price(level.price, market),
            spec_readable_quantity(level.size as u64, market),
        ) {
            (Some(price), Some(amount)) => Some(
                MarketOrder {
                    price,
                    amount,
                    price_lots: level.price,
                    size_lots: level.size as u64,
                },
            ),
            _ => None,
        }
    }
}

/// The leaves as resting orders.
fn levels_of_leaves(leaves: &Vec<LeafNode>) -> (r: Vec<Level>)
    ensures
        r@ == leaf_levels(leaves@),
{
    let mut entries: Vec<Level> = Vec::new();
    let mut i: usize = 0;
    while i < leaves.len()
        invariant
            i <= leaves.len(),
            entries@.len() == i,
            forall|k: int| 0 <= k < i ==> entries@[k] == leaf_levels(leaves@)[k],
        decreases leaves.len() - i,
    {
        let leaf = &leaves[i];
        entries.push(Level { price_lots: leaf.price(), size_lots: leaf.quantity() });
        i = i + 1;
    }
    assert(entries@ =~= leaf_levels(leaves@));
    entries
}

/// Builds one side of a depth book from leaves in traversal order: at most
/// `depth` levels, each with the total quantity at its price, in lots and in
/// readable units. `None` where a level cannot be priced.
pub fn construct_levels(leaves: Vec<LeafNode>, market: &ObMarketInfo, depth: usize) -> (r: Option<
    Vec<MarketOrder>,
>)
    ensures
        r is Some <==> forall|k: int|
            0 <= k < depth_levels(leaf_levels(leaves@), depth as nat).len() ==> priced_level(
                #[trigger] depth_levels(leaf_levels(leaves@), depth as nat)[k],
                *market,
            ) is Some,
        r matches Some(book) ==> book@.len() == depth_levels(
            leaf_levels(leaves@),
            depth as nat,
        ).len() && forall|k: int|
            0 <= k < book@.len() ==> Some(#[trigger] book@[k]) == priced_level(
                depth_levels(leaf_levels(leaves@), depth as nat)[k],
                *market,
            ),
{
    let entries = levels_of_leaves(&leaves);
    let ghost totals = depth_levels(leaf_levels(leaves@), depth as nat);
    let levels = match aggregate_levels(&entries, depth) {
        Some(levels) => levels,
        None => {
            proof {
                let k = choose|k: int| 0 <= k < totals.len() && !((#[trigger] totals[k]).size <= u64::MAX);
                assert(priced_level(totals[k], *market) is None);
            }
            return None;
        },
    };
    let mut book: Vec<MarketOrder> = Vec::new();
    let mut i: usize = 0;
    while i < levels.len()
        invariant
            i <= levels.len(),
            book@.len() == i,
            totals == depth_levels(leaf_levels(leaves@), depth as nat),
            crate::depth::holds_totals(levels@, totals),
            forall|k: int| 0 <= k < i ==> Some(#[trigger] book@[k]) == priced_level(totals[k], *market),
        decreases levels.len() - i,
    {
        let level = levels[i];
        let price = readable_price(level.price_lots, market);
        let amount = readable_quantity(level.size_lots, market);
        match (price, amount) {
            (Some(price), Some(amount)) => {
                book.push(
                    MarketOrder {
                        price,
                        amount,
                        price_lots: level.price_lots,
                        size_lots: level.size_lots,
                    },
                );
            },
            _ => {
                assert(priced_level(totals[i as int], *market) is None);
                return None;
            },
        }
        i = i + 1;
    }
    proof {
        assert forall|k: int| 0 <= k < totals.len() implies priced_level(
            #[trigger] totals[k],
            *market,
        ) is Some by {
            assert(Some(book@[k]) == priced_level(totals[k], *market));
        }
    }
    Some(book)
}

/// The leaves of a slab whose tree is a search tree come out in strictly
/// descending key order for a descending traversal, and in strictly ascending
/// key order otherwise.
pub proof fn lemma_leaves_ordered(slab: Slab, descending: bool)
    requires
        key_ordered(
            slab.spec_nodes(),
            slab.spec_header().root_node,
            slab.spec_nodes().len(),
        ),
        slab.leaves(descending) is Some,
    ensures
        descending ==> keys_descending(slab.leaves(descending).unwrap()),
        !descending ==> keys_ascending(slab.leaves(descending).unwrap()),
{
    if slab.spec_header().leaf_count != 0 {
        lemma_traversal_ordered(
            slab.spec_nodes(),
            slab.spec_header().root_node,
            slab.spec_nodes().len(),
        );
    }
}

/// One side of a depth book, as `construct_levels` builds it from leaves in
/// key order, never holds more than `depth` levels; its prices are strictly
/// monotone in the direction of the keys; and each level holds the total
/// quantity of the leaves at its price.
pub proof fn lemma_depth_book(
    leaves: Seq<LeafNode>,
    market: ObMarketInfo,
    depth: nat,
    book: Seq<MarketOrder>,
)
    requires
        book.len() == depth_levels(leaf_levels(leaves), depth).len(),
        forall|k: int|
            0 <= k < book.len() ==> Some(#[trigger] book[k]) == priced_level(
                depth_levels(leaf_levels(leaves), depth)[k],
                market,
            ),
    ensures
        book.len() <= depth,
        keys_descending(leaves) ==> forall|i: int, j: int|
            0 <= i < j < book.len() ==> (#[trigger] book[i]).price_lots > (
            #[trigger] book[j]).price_lots,
        keys_ascending(leaves) ==> forall|i: int, j: int|
            0 <= i < j < book.len() ==> (#[trigger] book[i]).price_lots < (
            #[trigger] book[j]).price_lots,
        keys_ascending(leaves) || keys_descending(leaves) ==> forall|k: int|
            0 <= k < book.len() ==> (#[trigger] book[k]).size_lots == total_at(
                leaf_levels(leaves),
                book[k].price_lots,
            ),
{
    let totals = depth_levels(leaf_levels(leaves), depth);
    lemma_ordered_leaves_levels(leaves, depth);
    if keys_ascending(leaves) || keys_descending(leaves) {
        lemma_ordered_leaves_prices(leaves);
        lemma_grouped_totals(leaf_levels(leaves));
        assert forall|k: int| 0 <= k < book.len() implies (#[trigger] book[k]).size_lots
            == total_at(leaf_levels(leaves), book[k].price_lots) by {
            assert(Some(book[k]) == priced_level(totals[k], market));
            assert(totals[k] == grouped(leaf_levels(leaves))[k]);
            assert(totals[k].size == total_at(leaf_levels(leaves), totals[k].price));
            lemma_total_at_nonnegative(leaf_levels(leaves), totals[k].price);
        }
    }
    assert forall|i: int, j: int| 0 <= i < j < book.len() implies (keys_descending(leaves) ==> (
    #[trigger] book[i]).price_lots > (#[trigger] book[j]).price_lots) && (keys_ascending(leaves)
        ==> book[i].price_lots < book[j].price_lots) by {
        assert(Some(book[i]) == priced_level(totals[i], market));
        assert(Some(book[j]) == priced_level(totals[j], market));
        if keys_descending(leaves) {
            assert(totals[i].price > totals[j].price);
        }
        if keys_ascending(leaves) {
            assert(totals[i].price < totals[j].price);
        }
    }
}

} // verus!
