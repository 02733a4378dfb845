//! Decoders for the shapes that host structures take in memory (dynamic
//! arrays, singly-linked lists, ring buffers): from the bytes read at a
//! structure, the spans that a capture must cover.
use vstd::prelude::*;
use crate::bytes::{le_value, read_u32_le};
use crate::snapshot::{ReadAddrMetadata, MAX_REGION_SIZE};

verus! {

/// The region descriptor for `size` bytes at `pos`; an empty span is placed
/// at a harmless non-null address.
pub open spec fn region(pos: usize, size: usize) -> ReadAddrMetadata {
    if size == 0 {
        ReadAddrMetadata { pos: 4, size: 0 }
    } else {
        ReadAddrMetadata { pos, size }
    }
}

/// Whether `size` bytes at `pos` make a valid region.
pub open spec fn readable(pos: usize, size: usize) -> bool {
    size <= MAX_REGION_SIZE && !(pos == 0 && size != 0)
}

/// The little-endian word at byte `offset` of `b`.
pub open spec fn word_at(b: Seq<u8>, offset: int) -> usize {
    le_value(b.subrange(offset, offset + 4)) as usize
}

/// The pointer stored at `offset` of `from`.
pub fn get_ptr(from: &[u8], offset: usize) -> (r: usize)
    requires
        offset + 4 <= from@.len(),
    ensures
        r == word_at(from@, offset as int),
{
    read_u32_le(from, offset) as usize
}

/// A region of `size` bytes at `pos`.
pub fn read_addr(pos: usize, size: usize) -> (r: ReadAddrMetadata)
    requires
        readable(pos, size),
    ensures
        r == region(pos, size),
{
    if size == 0 {
        return ReadAddrMetadata { pos: 4, size: 0 };
    }
    ReadAddrMetadata { pos, size }
}

/// A dynamic array header: begin, capacity end and end pointers.
#[derive(Clone, Copy, Debug, PartialEq, Eq)]
pub struct VecAddr {
    pub pos: usize,
    pub start: usize,
    pub maybecapacity: usize,
    pub end: usize,
}

/// A list node: next pointer, an unused word and the node's data pointer.
#[derive(Clone, Copy, Debug, PartialEq, Eq)]
pub struct LL4 {
    pub pos: usize,
    pub next: usize,
    pub field2: usize,
    pub additional_data: usize,
}

/// A list header: first node, element count and an unused word.
#[derive(Clone, Copy, Debug, PartialEq, Eq)]
pub struct LL3Holder {
    pub pos: usize,
    pub ll4: usize,
    pub listcount: usize,
    pub add_data: usize,
}

/// A ring buffer header: a table of `size` pointers at `data`, a start
/// index `f3` and an element count `obj_s`.
#[derive(Clone, Copy, Debug, PartialEq, Eq)]
pub struct Deque {
    pub pos: usize,
    pub f0: usize,
    pub data: usize,
    pub size: usize,
    pub f3: usize,
    pub obj_s: usize,
}

/// The next thing a list walk needs.
#[derive(Clone, Copy, Debug, PartialEq, Eq, Structural)]
pub enum Walk {
    /// Read the node at this address and hand it over.
    Read(usize),
    /// Every node has been read.
    Done,
    /// The list is corrupt: a null link, or an implausible count.
    Broken,
}

/// Largest list length that a walk accepts.
pub const MAX_LIST_LEN: usize = 100000;

/// Decodes the dynamic array header read at `pos`.
pub fn read_vec(pos: usize, content: &[u8]) -> (r: VecAddr)
    requires
        content@.len() >= 12,
    ensures
        r == (VecAddr {
            pos,
            start: word_at(content@, 0),
            maybecapacity: word_at(content@, 4),
            end: word_at(content@, 8),
        }),
{
    VecAddr {
        pos,
        start: get_ptr(content, 0),
        maybecapacity: get_ptr(content, 4),
        end: get_ptr(content, 8),
    }
}

/// Decodes the list node read at `pos`.
pub fn read_ll4(pos: usize, content: &[u8]) -> (r: LL4)
    requires
        content@.len() >= 12,
    ensures
        r == (LL4 {
            pos,
            next: word_at(content@, 0),
            field2: word_at(content@, 4),
            additional_data: word_at(content@, 8),
        }),
{
    LL4 {
        pos,
        next: get_ptr(content, 0),
        field2: get_ptr(content, 4),
        additional_data: get_ptr(content, 8),
    }
}

/// Decodes the list header read at `pos`.
pub fn read_linked_list(pos: usize, content: &[u8]) -> (r: LL3Holder)
    requires
        content@.len() >= 12,
    ensures
        r == (LL3Holder {
            pos,
            ll4: word_at(content@, 0),
            listcount: word_at(content@, 4),
            add_data: word_at(content@, 8),
        }),
{
    LL3Holder {
        pos,
        ll4: get_ptr(content, 0),
        listcount: get_ptr(content, 4),
        add_data: get_ptr(content, 8),
    }
}

/// Decodes the ring buffer header read at `pos`.
pub fn read_maybe_ring_buffer(pos: usize, content: &[u8]) -> (r: Deque)
    requires
        content@.len() >= 20,
    ensures
        r == (Deque {
            pos,
            f0: word_at(content@, 0),
            data: word_at(content@, 4),
            size: word_at(content@, 8),
            f3: word_at(content@, 12),
            obj_s: word_at(content@, 16),
        }),
{
    Deque {
        pos,
        f0: get_ptr(content, 0),
        data: get_ptr(content, 4),
        size: get_ptr(content, 8),
        f3: get_ptr(content, 12),
        obj_s: get_ptr(content, 16),
    }
}

impl VecAddr {
    /// The array's elements.
    pub fn read_underlying(&self) -> (r: ReadAddrMetadata)
        requires
            self.start <= self.end,
            readable(self.start, (self.end - self.start) as usize),
        ensures
            r == region(self.start, (self.end - self.start) as usize),
    {
        read_addr(self.start, self.end - self.start)
    }

    /// The header itself.
    pub fn to_addr(&self) -> (r: ReadAddrMetadata)
        requires
            self.pos != 0,
        ensures
            r == region(self.pos, 12),
    {
        read_addr(self.pos, 12)
    }
}

impl LL4 {
    /// The node itself.
    pub fn to_addr(&self) -> (r: ReadAddrMetadata)
        requires
            self.pos != 0,
        ensures
            r == region(self.pos, 12),
    {
        read_addr(self.pos, 12)
    }

    /// `size` bytes of the node's data.
    pub fn read_underlying_additional(&self, size: usize) -> (r: ReadAddrMetadata)
        requires
            readable(self.additional_data, size),
        ensures
            r == region(self.additional_data, size),
    {
        read_addr(self.additional_data, size)
    }
}

/// Whether `nodes` were read by following the list from its first node.
pub open spec fn is_chain(h: LL3Holder, nodes: Seq<LL4>) -> bool {
    &&& nodes.len() > 0 ==> nodes[0].pos == h.ll4
    &&& forall|k: int| 0 <= k < nodes.len() - 1 ==> (#[trigger] nodes[k + 1]).pos == nodes[k].next
}

/// The regions of the list's nodes, each followed by `size` bytes of its
/// data where it has any (never for the first node).
pub open spec fn node_regions(nodes: Seq<LL4>, size: usize) -> Seq<ReadAddrMetadata>
    decreases nodes.len(),
{
    if nodes.len() == 0 {
        Seq::empty()
    } else if nodes.len() == 1 {
        seq![region(nodes[0].pos, 12)]
    } else {
        let n = nodes.last();
        let rest = node_regions(nodes.drop_last(), size) + seq![region(n.pos, 12)];
        if size != 0 && n.additional_data != 0 {
            rest + seq![region(n.additional_data, size)]
        } else {
            rest
        }
    }
}

/// Whether the regions of `nodes` can all be described.
pub open spec fn nodes_readable(nodes: Seq<LL4>, size: usize) -> bool {
    &&& size <= MAX_REGION_SIZE
    &&& forall|k: int| 0 <= k < nodes.len() ==> (#[trigger] nodes[k]).pos != 0
}

impl LL3Holder {
    /// The header itself.
    pub fn to_addr(&self) -> (r: ReadAddrMetadata)
        requires
            self.pos != 0,
        ensures
            r == region(self.pos, 12),
    {
        read_addr(self.pos, 12)
    }

    /// The next step of a walk over the list, given the nodes read so far:
    /// the first node, then `listcount` more through the `next` links.
    pub fn read_underlying(&self, nodes: &Vec<LL4>) -> (r: Walk)
        requires
            is_chain(*self, nodes@),
            nodes@.len() <= self.listcount + 1,
        ensures
            nodes@.len() == 0 ==> r == if self.ll4 == 0 { Walk::Broken } else { Walk::Read(self.ll4) },
            nodes@.len() > self.listcount ==> r == Walk::Done,
            0 < nodes@.len() <= self.listcount ==> r == if self.listcount > MAX_LIST_LEN
                || nodes@.last().next == 0 {
                Walk::Broken
            } else {
                Walk::Read(nodes@.last().next)
            },
    {
        let n = nodes.len();
        if n == 0 {
            if self.ll4 == 0 {
                Walk::Broken
            } else {
                Walk::Read(self.ll4)
            }
        } else if n > self.listcount {
            Walk::Done
        } else if self.listcount > MAX_LIST_LEN {
            Walk::Broken
        } else {
            let next = nodes[n - 1].next;
            if next == 0 {
                Walk::Broken
            } else {
                Walk::Read(next)
            }
        }
    }

    /// Every region of the list: the header, each node, and `additional_size`
    /// bytes of each node's data after the first (none when it is 0).
    pub fn read_all(&self, nodes: &Vec<LL4>, additional_size: usize) -> (r: Vec<ReadAddrMetadata>)
        requires
            self.pos != 0,
            nodes_readable(nodes@, additional_size),
        ensures
            r@ == seq![region(self.pos, 12)] + node_regions(nodes@, additional_size),
    {
        let mut r: Vec<ReadAddrMetadata> = Vec::new();
        r.push(self.to_addr());
        let ghost head = r@;
        let mut k: usize = 0;
        while k < nodes.len()
            invariant
                0 <= k <= nodes@.len(),
                nodes_readable(nodes@, additional_size),
                head == seq![region(self.pos, 12)],
                r@ == head + node_regions(nodes@.take(k as int), additional_size),
            decreases nodes@.len() - k,
        {
            let node = nodes[k];
            proof {
                assert(nodes@.take(k + 1).drop_last() =~= nodes@.take(k as int));
                assert(nodes@[k as int] == node);
            }
            r.push(node.to_addr());
            if k > 0 && additional_size != 0 && node.additional_data != 0 {
                r.push(node.read_underlying_additional(additional_size));
            }
            k += 1;
            proof {
                if k == 1 {
                    assert(nodes@.take(0) =~= Seq::<LL4>::empty());
                }
                assert(r@ =~= head + node_regions(nodes@.take(k as int), additional_size));
            }
        }
        assert(nodes@.take(nodes@.len() as int) =~= nodes@);
        r
    }
}

/// The regions of the nonzero pointers among the first `n` table words,
/// `size` bytes each.
pub open spec fn table_regions(table: Seq<u8>, n: nat, size: usize) -> Seq<ReadAddrMetadata>
    decreases n,
{
    if n == 0 {
        Seq::empty()
    } else {
        let rest = table_regions(table, (n - 1) as nat, size);
        let p = word_at(table, 4 * (n - 1));
        if p != 0 {
            rest + seq![region(p, size)]
        } else {
            rest
        }
    }
}

impl Deque {
    /// The header itself.
    pub fn to_addr(&self) -> (r: ReadAddrMetadata)
        requires
            self.pos != 0,
        ensures
            r == region(self.pos, 20),
    {
        read_addr(self.pos, 20)
    }

    /// Whether the pointer table can be described as a region.
    pub open spec fn table_readable(&self) -> bool {
        &&& self.size <= MAX_REGION_SIZE / 4
        &&& !(self.data == 0 && self.size != 0)
    }

    /// `size` bytes behind each nonzero table pointer, then the table;
    /// `table` holds the table's bytes.
    pub fn read_underlying(&self, table: &[u8], size: usize) -> (r: Vec<ReadAddrMetadata>)
        requires
            self.table_readable(),
            table@.len() == self.size * 4,
            size <= MAX_REGION_SIZE,
        ensures
            r@ == (if size == 0 {
                Seq::empty()
            } else {
                table_regions(table@, self.size as nat, size)
            }) + seq![region(self.data, (self.size * 4) as usize)],
    {
        let mut r: Vec<ReadAddrMetadata> = Vec::new();
        if size != 0 {
            let mut k: usize = 0;
            while k < self.size
                invariant
                    0 <= k <= self.size,
                    self.size <= MAX_REGION_SIZE / 4,
                    table@.len() == self.size * 4,
                    size <= MAX_REGION_SIZE,
                    size != 0,
                    r@ == table_regions(table@, k as nat, size),
                decreases self.size - k,
            {
                let p = get_ptr(table, 4 * k);
                if p != 0 {
                    r.push(read_addr(p, size));
                }
                k += 1;
            }
        }
        r.push(read_addr(self.data, self.size * 4));
        r
    }

    /// The ring's contents: `size` bytes per element, unless it is empty.
    pub fn read_whole(&self, table: &[u8], size: usize) -> (r: Vec<ReadAddrMetadata>)
        requires
            self.table_readable(),
            table@.len() == self.size * 4,
            size <= MAX_REGION_SIZE,
        ensures
            r@ == (if self.obj_s == 0 || size == 0 {
                Seq::empty()
            } else {
                table_regions(table@, self.size as nat, size)
            }) + seq![region(self.data, (self.size * 4) as usize)],
    {
        self.read_underlying(table, if self.obj_s == 0 { 0 } else { size })
    }
}

} // verus!
