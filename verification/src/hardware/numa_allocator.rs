//! Memory pools of the nodes of a machine.
//!
//! Memory is mapped by the caller, which says where; addresses are plain numbers.

use vstd::prelude::*;
use crate::core_engine::allocator::{align_up, lemma_align_up};
use crate::gateways::fix_protocol_engine::digits::{dec, is_digit};
use crate::text::{lemma_back_is_dropped, lemma_plain_text_is_kept, trim, trimmed};

verus! {

broadcast use vstd::array::group_array_axioms;

/// Maximum number of nodes.
pub const MAX_NUMA_NODES: usize = 8;

/// Memory pool of a node.
#[derive(Debug, Clone, Copy)]
pub struct NumaNodePool {
    /// Node.
    pub node_id: usize,
    /// First address.
    pub start: u64,
    /// Address behind the pool.
    pub end: u64,
    /// Bytes in use.
    pub offset: u64,
    /// Size in bytes.
    pub pool_size: u64,
    /// Memory is mapped.
    pub active: bool,
}

impl NumaNodePool {
    /// The pool lies within the address space, and no more is in use than there is.
    pub open spec fn wf(&self) -> bool {
        self.active ==> {
            &&& self.start > 0
            &&& self.start + self.pool_size == self.end
            &&& self.offset <= self.pool_size
        }
    }

    /// Pool without memory.
    pub open spec fn spec_new() -> Self {
        NumaNodePool { node_id: 0, start: 0, end: 0, offset: 0, pool_size: 0, active: false }
    }

    /// Pool without memory.
    pub fn new() -> (r: Self)
        ensures
            r == Self::spec_new(),
            r.wf(),
    {
        NumaNodePool { node_id: 0, start: 0, end: 0, offset: 0, pool_size: 0, active: false }
    }

    /// Pool on memory that was mapped at an address.
    pub open spec fn mapped(node_id: usize, size: u64, address: u64) -> Self {
        NumaNodePool {
            node_id,
            start: address,
            end: (address + size) as u64,
            offset: 0,
            pool_size: size,
            active: true,
        }
    }

    /// Take over memory: its address, or nothing if it could not be mapped.
    pub fn init(&mut self, node_id: usize, size: u64, memory: Option<u64>) -> (r: bool)
        requires
            old(self).wf(),
            memory is Some ==> memory->0 > 0 && memory->0 + size <= u64::MAX,
        ensures
            final(self).wf(),
            r == (memory is Some),
            *final(self) == match memory {
                Some(address) => Self::mapped(node_id, size, address),
                None => *old(self),
            },
    {
        match memory {
            None => false,
            Some(address) => {
                self.node_id = node_id;
                self.start = address;
                self.end = address + size;
                self.pool_size = size;
                self.offset = 0;
                self.active = true;
                true
            },
        }
    }

    /// Offset of the next allocation.
    pub open spec fn placed(&self, align: u64) -> int {
        align_up(self.offset as int, align as int)
    }

    /// An allocation is served.
    pub open spec fn serves(&self, size: u64, align: u64) -> bool {
        self.active && self.placed(align) + size <= self.pool_size
    }

    /// Pool after an allocation.
    pub open spec fn allocated(self, size: u64, align: u64) -> Self {
        if self.serves(size, align) {
            NumaNodePool { offset: (self.placed(align) + size) as u64, ..self }
        } else {
            self
        }
    }

    /// Allocate `size` bytes at an offset that is a multiple of `align`. Gives the
    /// address, or nothing if the pool has no memory or no room.
    pub fn allocate(&mut self, size: u64, align: u64) -> (r: Option<u64>)
        requires
            old(self).wf(),
            align > 0,
        ensures
            final(self).wf(),
            r == if old(self).serves(size, align) {
                Some((old(self).start + old(self).placed(align)) as u64)
            } else {
                None
            },
            *final(self) == old(self).allocated(size, align),
    {
        if !self.active {
            return None;
        }
        proof {
            lemma_align_up(self.offset as int, align as int);
        }
        let over: u64 = self.offset % align;
        let aligned: u128 = if over == 0 {
            self.offset as u128
        } else {
            self.offset as u128 + (align - over) as u128
        };
        let new_offset: u128 = aligned + size as u128;
        if new_offset > self.pool_size as u128 {
            return None;
        }
        self.offset = new_offset as u64;
        Some(self.start + aligned as u64)
    }

    /// Give all memory of the pool free.
    pub fn reset(&mut self)
        requires
            old(self).wf(),
        ensures
            final(self).wf(),
            *final(self) == (NumaNodePool { offset: 0, ..*old(self) }),
    {
        self.offset = 0;
    }
}

/// Two allocations in a row lie within the pool and do not overlap.
pub proof fn lemma_pool_allocations_disjoint(
    pool: NumaNodePool,
    size: u64,
    align: u64,
    next_size: u64,
    next_align: u64,
)
    requires
        pool.wf(),
        align > 0,
        next_align > 0,
        pool.serves(size, align),
        pool.allocated(size, align).serves(next_size, next_align),
    ensures
        pool.start + pool.placed(align) >= pool.start,
        pool.placed(align) + size <= pool.allocated(size, align).placed(next_align),
        pool.start + pool.allocated(size, align).placed(next_align) + next_size <= pool.end,
{
    lemma_align_up(pool.offset as int, align as int);
    lemma_align_up(pool.placed(align) + size, next_align as int);
}

/// Allocator over the pools of all nodes.
#[derive(Debug)]
pub struct NumaAllocator {
    /// Pools.
    pub pools: [NumaNodePool; 8],
    /// Node that allocations without a node go to.
    pub default_node: usize,
    /// Bytes allocated in all.
    pub total_allocated: u64,
}

impl NumaAllocator {
    /// All pools are in order, and the default node exists.
    pub open spec fn wf(&self) -> bool {
        &&& self.default_node < MAX_NUMA_NODES
        &&& forall|i: int| 0 <= i < MAX_NUMA_NODES ==> (#[trigger] self.pools@[i]).wf()
    }

    /// Allocator without memory.
    pub fn new() -> (r: Self)
        ensures
            r.wf(),
            forall|i: int| 0 <= i < MAX_NUMA_NODES ==> r.pools@[i] == NumaNodePool::spec_new(),
            r.default_node == 0,
            r.total_allocated == 0,
    {
        NumaAllocator { pools: [NumaNodePool::new();8], default_node: 0, total_allocated: 0 }
    }

    /// Give a node memory: its address, or nothing if it could not be mapped. Fails
    /// for an unknown node.
    pub fn init_node(&mut self, node_id: usize, pool_size: u64, memory: Option<u64>) -> (r: bool)
        requires
            old(self).wf(),
            memory is Some ==> memory->0 > 0 && memory->0 + pool_size <= u64::MAX,
        ensures
            final(self).wf(),
            r == (node_id < MAX_NUMA_NODES && memory is Some),
            r ==> final(self).pools@ == old(self).pools@.update(
                node_id as int,
                NumaNodePool::mapped(node_id, pool_size, memory->0),
            ),
            !r ==> final(self).pools@ == old(self).pools@,
            *final(self) == (NumaAllocator { pools: final(self).pools, ..*old(self) }),
    {
        if node_id >= MAX_NUMA_NODES {
            return false;
        }
        let mut pool = self.pools[node_id];
        let r = pool.init(node_id, pool_size, memory);
        self.pools[node_id] = pool;
        r
    }

    /// An allocation on a node is served.
    pub open spec fn serves(&self, node_id: usize, size: u64, align: u64) -> bool {
        node_id < MAX_NUMA_NODES && self.pools@[node_id as int].serves(size, align)
    }

    /// Allocate from a node. Gives the address, or nothing if the node is unknown or
    /// has no room.
    pub fn allocate_on_node(&mut self, node_id: usize, size: u64, align: u64) -> (r: Option<u64>)
        requires
            old(self).wf(),
            align > 0,
        ensures
            final(self).wf(),
            r == if old(self).serves(node_id, size, align) {
                let pool = old(self).pools@[node_id as int];
                Some((pool.start + pool.placed(align)) as u64)
            } else {
                None
            },
            old(self).serves(node_id, size, align) ==> {
                &&& final(self).pools@ == old(self).pools@.update(
                    node_id as int,
                    old(self).pools@[node_id as int].allocated(size, align),
                )
                &&& final(self).total_allocated == old(self).total_allocated.wrapping_add(size)
            },
            !old(self).serves(node_id, size, align) ==> final(self).pools@ == old(self).pools@
                && final(self).total_allocated == old(self).total_allocated,
            final(self).default_node == old(self).default_node,
    {
        if node_id >= MAX_NUMA_NODES {
            return None;
        }
        let mut pool = self.pools[node_id];
        let r = pool.allocate(size, align);
        self.pools[node_id] = pool;
        if r.is_some() {
            self.total_allocated = self.total_allocated.wrapping_add(size);
        }
        r
    }

    /// Allocate from the default node.
    pub fn allocate(&mut self, size: u64, align: u64) -> (r: Option<u64>)
        requires
            old(self).wf(),
            align > 0,
        ensures
            final(self).wf(),
            r == if old(self).serves(old(self).default_node, size, align) {
                let pool = old(self).pools@[old(self).default_node as int];
                Some((pool.start + pool.placed(align)) as u64)
            } else {
                None
            },
            old(self).serves(old(self).default_node, size, align) ==> {
                let node = old(self).default_node as int;
                &&& final(self).pools@ == old(self).pools@.update(
                    node,
                    old(self).pools@[node].allocated(size, align),
                )
                &&& final(self).total_allocated == old(self).total_allocated.wrapping_add(size)
            },
            !old(self).serves(old(self).default_node, size, align) ==> final(self).pools@ == old(self).pools@ && final(self).total_allocated == old(self).total_allocated,
            final(self).default_node == old(self).default_node,
    {
        let node: usize = self.default_node;
        self.allocate_on_node(node, size, align)
    }

    /// Set the default node. An unknown node changes nothing.
    pub fn set_default_node(&mut self, node_id: usize)
        requires
            old(self).wf(),
        ensures
            final(self).wf(),
            *final(self) == (NumaAllocator {
                default_node: if node_id < MAX_NUMA_NODES {
                    node_id
                } else {
                    old(self).default_node
                },
                ..*old(self)
            }),
    {
        if node_id < MAX_NUMA_NODES {
            self.default_node = node_id;
        }
    }

    /// Default node.
    pub fn default_node(&self) -> (r: usize)
        ensures
            r == self.default_node,
    {
        self.default_node
    }

    /// Give all memory of a node free. An unknown node changes nothing.
    pub fn reset_node(&mut self, node_id: usize)
        requires
            old(self).wf(),
        ensures
            final(self).wf(),
            final(self).pools@ == if node_id < MAX_NUMA_NODES {
                old(self).pools@.update(
                    node_id as int,
                    NumaNodePool { offset: 0, ..old(self).pools@[node_id as int] },
                )
            } else {
                old(self).pools@
            },
            *final(self) == (NumaAllocator { pools: final(self).pools, ..*old(self) }),
    {
        if node_id < MAX_NUMA_NODES {
            let mut pool = self.pools[node_id];
            pool.reset();
            self.pools[node_id] = pool;
        }
    }

    /// Bytes allocated in all.
    pub fn total_allocated(&self) -> (r: u64)
        ensures
            r == self.total_allocated,
    {
        self.total_allocated
    }

    /// Number of nodes of the machine, from the names that the system lists.
    pub fn node_count(&self, names: &Vec<Vec<u8>>) -> (r: usize)
        ensures
            r == node_total(names@),
    {
        detect_numa_nodes(names)
    }
}

impl Default for NumaAllocator {
    fn default() -> (r: Self)
        ensures
            r.wf(),
            forall|i: int| 0 <= i < MAX_NUMA_NODES ==> r.pools@[i] == NumaNodePool::spec_new(),
            r.default_node == 0,
            r.total_allocated == 0,
    {
        Self::new()
    }
}

/// A name stands for a node: it starts with `node`.
pub open spec fn is_node(name: Seq<u8>) -> bool {
    name.len() >= 4 && name[0] == 110 && name[1] == 111 && name[2] == 100 && name[3] == 101
}

/// Number of names that stand for nodes.
pub open spec fn node_names(names: Seq<Vec<u8>>) -> nat
    decreases names.len(),
{
    if names.len() == 0 {
        0
    } else {
        node_names(names.drop_last()) + if is_node(names.last()@) {
            1nat
        } else {
            0nat
        }
    }
}

/// Number of nodes of a machine: at least one.
pub open spec fn node_total(names: Seq<Vec<u8>>) -> nat {
    if node_names(names) > 0 {
        node_names(names)
    } else {
        1
    }
}

/// Number of nodes of the machine, from the names that the system lists.
pub fn detect_numa_nodes(names: &Vec<Vec<u8>>) -> (r: usize)
    ensures
        r == node_total(names@),
{
    let mut count: usize = 0;
    let mut i: usize = 0;
    assert(names@.take(0) =~= Seq::empty());
    while i < names.len()
        invariant
            i <= names@.len(),
            count <= i,
            count == node_names(names@.take(i as int)),
        decreases names@.len() - i,
    {
        assert(names@.take(i + 1).drop_last() =~= names@.take(i as int));
        let name = &names[i];
        if name.len() >= 4 && name[0] == 110 && name[1] == 111 && name[2] == 100 && name[3] == 101 {
            count = count + 1;
        }
        i = i + 1;
    }
    assert(names@.take(i as int) =~= names@);
    if count > 0 {
        count
    } else {
        1
    }
}

/// Digits of a number that may have a plus sign.
pub open spec fn unsigned(s: Seq<u8>) -> Seq<u8> {
    if s.len() > 0 && s[0] == 43 {
        s.drop_first()
    } else {
        s
    }
}

/// A text is a number: digits, after a plus sign if there is one.
pub open spec fn is_number(s: Seq<u8>) -> bool {
    unsigned(s).len() > 0 && forall|i: int|
        0 <= i < unsigned(s).len() ==> is_digit(#[trigger] unsigned(s)[i])
}

/// Node of a core, from what the system says of it: the number read, or zero if
/// there is none or it is too large.
pub open spec fn node_of(content: Option<Seq<u8>>) -> int {
    match content {
        None => 0,
        Some(text) => {
            let s = trimmed(text);
            if is_number(s) && dec(unsigned(s)) <= usize::MAX {
                dec(unsigned(s))
            } else {
                0
            }
        },
    }
}

/// A prefix of digits stands for no more than all of them.
proof fn lemma_dec_grows(s: Seq<u8>, i: int)
    requires
        0 <= i <= s.len(),
    ensures
        0 <= dec(s.take(i)) <= dec(s),
    decreases s.len(),
{
    crate::gateways::fix_protocol_engine::digits::lemma_dec(s.take(i));
    if i < s.len() {
        lemma_dec_grows(s.drop_last(), i);
        assert(s.drop_last().take(i) =~= s.take(i));
    } else {
        assert(s.take(i) =~= s);
    }
}

/// Node of a core, from what the system says of it.
pub fn get_node_for_cpu(content: Option<&[u8]>) -> (r: usize)
    ensures
        r == node_of(
            match content {
                Some(text) => Some(text@),
                None => None,
            },
        ),
{
    let text: &[u8] = match content {
        Some(text) => text,
        None => {
            return 0;
        },
    };
    let (start, to) = trim(text);
    let mut from: usize = start;
    let ghost s = text@.subrange(from as int, to as int);
    if from < to && text[from] == 43 {
        from = from + 1;
    }
    let ghost d = unsigned(s);
    assert(d =~= text@.subrange(from as int, to as int));
    if from == to {
        return 0;
    }
    let mut val: usize = 0;
    let mut fits = true;
    let mut i: usize = from;
    assert(d.take(0) =~= Seq::empty());
    while i < to
        invariant
            from <= i <= to <= text@.len(),
            d == text@.subrange(from as int, to as int),
            d == unsigned(s),
            trimmed(text@) == s,
            content is Some,
            content->0@ == text@,
            forall|k: int| 0 <= k < i - from ==> is_digit(#[trigger] d[k]),
            fits ==> val == dec(d.take(i - from)),
            !fits ==> dec(d.take(i - from)) > usize::MAX,
        decreases to - i,
    {
        let b: u8 = text[i];
        assert(d[i - from] == b);
        assert(d.take(i - from + 1).drop_last() =~= d.take(i - from));
        if b < 48 || b > 57 {
            assert(!is_digit(d[i - from]));
            return 0;
        }
        if fits {
            let next: u128 = val as u128 * 10 + (b - 48) as u128;
            if next <= usize::MAX as u128 {
                val = next as usize;
            } else {
                fits = false;
            }
        }
        i = i + 1;
    }
    assert(d.take(to - from) =~= d);
    if fits {
        val
    } else {
        0
    }
}

/// A pool places an allocation at the lowest aligned offset at or above its mark, and
/// serves it whenever it is active and any such offset leaves room for it.
pub proof fn lemma_lowest_aligned_offset(pool: NumaNodePool, size: u64, align: u64, at: int)
    requires
        pool.wf(),
        align > 0,
        at >= pool.offset,
        at % (align as int) == 0,
    ensures
        pool.offset <= pool.placed(align) <= at,
        pool.placed(align) % (align as int) == 0,
        pool.active && at + size <= pool.pool_size ==> pool.serves(size, align),
        pool.serves(size, align) ==> pool.active && pool.placed(align) + size <= pool.pool_size,
        pool.serves(size, align) ==> pool.allocated(size, align).offset == pool.placed(align)
            + size && pool.allocated(size, align).start == pool.start && pool.allocated(
            size,
            align,
        ).pool_size == pool.pool_size,
        !pool.serves(size, align) ==> pool.allocated(size, align) == pool,
{
    let (b, n) = (pool.offset as int, align as int);
    lemma_align_up(b, n);
    let p = pool.placed(align);
    if at < p {
        vstd::arithmetic::div_mod::lemma_fundamental_div_mod(at, n);
        vstd::arithmetic::div_mod::lemma_fundamental_div_mod(p, n);
        let (q, t) = (at / n, p / n);
        assert(false) by (nonlinear_arith)
            requires
                n > 0,
                at == n * q,
                p == n * t,
                at < p,
                p < at + n,
        ;
    }
}

/// A mapped pool begins at the address that it was given, reaches as far as its size and
/// is empty.
pub proof fn lemma_mapped_pool(node_id: usize, size: u64, address: u64)
    requires
        address + size <= 0xffff_ffff_ffff_ffff,
    ensures
        ({
            let pool = NumaNodePool::mapped(node_id, size, address);
            &&& pool.node_id == node_id
            &&& pool.start == address
            &&& pool.end == address + size
            &&& pool.pool_size == size
            &&& pool.offset == 0
            &&& pool.active
        }),
{
}

/// Every entry whose name begins with `node` is a node; where there is none, one is
/// taken to be there.
pub proof fn lemma_nodes_are_counted(names: Seq<Vec<u8>>, name: Vec<u8>)
    ensures
        node_names(Seq::<Vec<u8>>::empty()) == 0,
        name@.len() >= 4 && name@.take(4) == seq![110u8, 111, 100, 101] ==> node_names(
            names.push(name),
        ) == node_names(names) + 1,
        !(name@.len() >= 4 && name@.take(4) == seq![110u8, 111, 100, 101]) ==> node_names(
            names.push(name),
        ) == node_names(names),
        node_names(names) == 0 ==> node_total(names) == 1,
        node_names(names) > 0 ==> node_total(names) == node_names(names),
{
    assert(names.push(name).drop_last() =~= names);
    if name@.len() >= 4 {
        let four = name@.take(4);
        let node = seq![110u8, 111, 100, 101];
        if is_node(name@) {
            assert(four =~= node);
        }
        if four == node {
            assert(four[0] == 110 && four[1] == 111 && four[2] == 100 && four[3] == 101);
            assert(name@[0] == four[0] && name@[1] == four[1] && name@[2] == four[2] && name@[3]
                == four[3]);
        }
    }
}

/// The node of a processor is the number that stands in its file, with or without an end
/// of line behind it or a plus in front. It is zero where there is no file, and where the
/// number is too large.
pub proof fn lemma_node_is_number(text: Seq<u8>)
    requires
        text.len() > 0,
        forall|i: int| 0 <= i < text.len() ==> 48 <= #[trigger] text[i] <= 57,
    ensures
        node_of(None) == 0,
        dec(text) <= usize::MAX ==> {
            &&& node_of(Some(text)) == dec(text)
            &&& node_of(Some(text.push(10))) == dec(text)
            &&& node_of(Some(seq![43u8] + text)) == dec(text)
        },
        dec(text) > usize::MAX ==> node_of(Some(text)) == 0,
{
    assert(48 <= text[0] <= 57 && 48 <= text[text.len() - 1] <= 57);
    lemma_plain_text_is_kept(text);
    lemma_back_is_dropped(text, 10);
    let plus = seq![43u8] + text;
    assert(plus.last() == text.last());
    lemma_plain_text_is_kept(plus);
    assert(plus.drop_first() =~= text);
    assert(unsigned(text) == text);
    assert(is_number(text));
    assert(unsigned(plus) == text);
}

/// Text that holds anything but digits behind its first byte names node zero.
pub proof fn lemma_node_of_other_text(text: Seq<u8>, i: int)
    requires
        0 < i < text.len(),
        33 <= text[0] <= 126,
        33 <= text.last() <= 126,
        !(48 <= text[i] <= 57),
    ensures
        node_of(Some(text)) == 0,
{
    lemma_plain_text_is_kept(text);
    if text[0] == 43 {
        assert(unsigned(text)[i - 1] == text[i]);
        assert(!is_digit(unsigned(text)[i - 1]));
    } else {
        assert(!is_digit(unsigned(text)[i]));
    }
}

/// A file that holds nothing but white space or a lone plus names node zero.
pub proof fn lemma_node_of_nothing()
    ensures
        node_of(Some(Seq::<u8>::empty())) == 0,
        node_of(Some(seq![10u8])) == 0,
        node_of(Some(seq![43u8])) == 0,
{
    let nothing = Seq::<u8>::empty();
    assert(trimmed(nothing) == nothing);
    assert(seq![10u8] =~= nothing.push(10));
    lemma_back_is_dropped(nothing, 10);
    let plus = seq![43u8];
    lemma_plain_text_is_kept(plus);
    assert(unsigned(plus) =~= nothing);
}

} // verus!
