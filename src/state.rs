use vstd::prelude::*;

use crate::config::{
    fits_segment, lemma_segment_widths, segment_bits, value_fits, Segment, MAX_CONTEXTS,
    NUM_SEGMENTS,
};
use crate::memory::{MemoryAddress, MemoryOp, MemoryOpKind};

verus! {

/// Word at index `i` of a segment's contents; cells past the end read as zero.
pub open spec fn cell(s: Seq<u32>, i: int) -> u32 {
    if 0 <= i < s.len() {
        s[i]
    } else {
        0
    }
}

/// A segment's contents after storing `v` at index `i`: the contents are
/// first extended with zeros until `i` is in range.
pub open spec fn write_cell(s: Seq<u32>, i: nat, v: u32) -> Seq<u32> {
    if i < s.len() {
        s.update(i as int, v)
    } else {
        (s + Seq::new((i - s.len()) as nat, |_j: int| 0u32)).push(v)
    }
}

/// Storing a word changes that cell alone, and leaves the contents exactly
/// long enough to hold it.
pub proof fn lemma_write_cell(s: Seq<u32>, i: nat, v: u32)
    ensures
        write_cell(s, i, v).len() == if i < s.len() {
            s.len()
        } else {
            i + 1
        },
        forall|j: int| #[trigger]
            cell(write_cell(s, i, v), j) == if j == i {
                v
            } else {
                cell(s, j)
            },
{
}

/// The contents of one segment: a growable array of words.
#[derive(Clone, Debug)]
pub struct MemorySegmentState {
    pub content: Vec<u32>,
}

impl View for MemorySegmentState {
    type V = Seq<u32>;

    open spec fn view(&self) -> Seq<u32> {
        self.content@
    }
}

impl MemorySegmentState {
    /// An empty segment.
    pub fn new() -> (r: Self)
        ensures
            r@ == Seq::<u32>::empty(),
    {
        MemorySegmentState { content: Vec::new() }
    }

    /// The word at `virtual_addr`, zero past the end.
    pub fn get(&self, virtual_addr: usize) -> (r: u32)
        ensures
            r == cell(self@, virtual_addr as int),
    {
        if virtual_addr < self.content.len() {
            self.content[virtual_addr]
        } else {
            0
        }
    }

    /// Stores `value` at `virtual_addr`, extending the contents with zeros
    /// first where needed.
    pub fn set(&mut self, virtual_addr: usize, value: u32)
        requires
            virtual_addr < usize::MAX,
        ensures
            final(self)@ == write_cell(old(self)@, virtual_addr as nat, value),
    {
        if virtual_addr >= self.content.len() {
            let ghost pre = self.content@;
            while self.content.len() < virtual_addr
                invariant
                    pre.len() <= self.content.len() <= virtual_addr,
                    self.content@ == pre + Seq::new(
                        (self.content.len() - pre.len()) as nat,
                        |_j: int| 0u32,
                    ),
                decreases virtual_addr - self.content.len(),
            {
                self.content.push(0);
            }
            self.content.push(value);
            assert(self.content@ =~= write_cell(pre, virtual_addr as nat, value));
        } else {
            self.content.set(virtual_addr, value);
        }
    }
}

/// The address space of one execution context: one segment per catalog kind.
#[derive(Clone, Debug)]
pub struct MemoryContextState {
    pub segments: Vec<MemorySegmentState>,
}

impl MemoryContextState {
    /// Holds exactly one segment per catalog kind.
    pub open spec fn wf(self) -> bool {
        self.segments.len() == NUM_SEGMENTS
    }

    /// Every segment is empty.
    pub open spec fn is_empty(self) -> bool {
        forall|s: int| 0 <= s < self.segments.len() ==> #[trigger] self.segments@[s]@.len() == 0
    }
}

impl Default for MemoryContextState {
    /// A context with every segment empty.
    fn default() -> (r: Self)
        ensures
            r.wf(),
            r.is_empty(),
    {
        let mut segments: Vec<MemorySegmentState> = Vec::new();
        while segments.len() < NUM_SEGMENTS
            invariant
                segments.len() <= NUM_SEGMENTS,
                forall|s: int| 0 <= s < segments.len() ==> #[trigger] segments@[s]@.len() == 0,
            decreases NUM_SEGMENTS - segments.len(),
        {
            segments.push(MemorySegmentState::new());
        }
        MemoryContextState { segments }
    }
}

/// The whole memory image: one address space per context id.
#[derive(Clone, Debug)]
pub struct MemoryState {
    pub contexts: Vec<MemoryContextState>,
}

impl MemoryState {
    /// At least the root context exists, every context holds one segment
    /// per catalog kind, and every stored word fits its segment's width.
    pub open spec fn wf(self) -> bool {
        &&& self.contexts.len() >= 1
        &&& forall|c: int| 0 <= c < self.contexts.len() ==> (#[trigger] self.contexts@[c]).wf()
        &&& forall|c: int, s: int, i: int|
            value_fits(#[trigger] cell(self.segment_content(c, s), i), segment_bits(s))
    }

    /// Number of materialized contexts.
    pub open spec fn num_contexts(self) -> nat {
        self.contexts.len() as nat
    }

    /// Contents of segment `s` of context `c`; empty where not materialized.
    pub open spec fn segment_content(self, c: int, s: int) -> Seq<u32> {
        if 0 <= c < self.contexts.len() && 0 <= s < self.contexts@[c].segments.len() {
            self.contexts@[c].segments@[s]@
        } else {
            Seq::empty()
        }
    }

    /// The word at `a`: zero wherever nothing was stored.
    pub open spec fn value_at(self, a: MemoryAddress) -> u32 {
        cell(self.segment_content(a.context as int, a.segment as int), a.virt as int)
    }
}

/// The word at `a` after the writes of `ops`, applied in order, to a memory
/// where `a` held `before`: the value of the last write to `a`, or `before`
/// where there is none.
pub open spec fn last_write(ops: Seq<MemoryOp>, a: MemoryAddress, before: u32) -> u32
    decreases ops.len(),
{
    if ops.len() == 0 {
        before
    } else if ops.last().kind == MemoryOpKind::Write && ops.last().address == a {
        ops.last().value
    } else {
        last_write(ops.drop_last(), a, before)
    }
}

impl MemoryState {
    /// What a checked store of `val` at `address` reports.
    pub open spec fn store_outcome(address: MemoryAddress, val: u32) -> Result<(), MemoryError> {
        if !address.is_valid() {
            Err(MemoryError::SegmentIndexOverflow)
        } else if address.virt == usize::MAX {
            Err(MemoryError::OffsetOverflow)
        } else if address.context >= MAX_CONTEXTS {
            Err(MemoryError::ContextIndexOverflow)
        } else if !value_fits(val, segment_bits(address.segment as int)) {
            Err(MemoryError::ValueRangeViolation)
        } else {
            Ok(())
        }
    }
}

/// Number of contexts after the writes of `ops`, applied in order, to a
/// memory that had `n`: each write to a context past the end grows the
/// collection to just hold it.
pub open spec fn contexts_after(ops: Seq<MemoryOp>, n: nat) -> nat
    decreases ops.len(),
{
    if ops.len() == 0 {
        n
    } else {
        let m = contexts_after(ops.drop_last(), n);
        let op = ops.last();
        if op.kind == MemoryOpKind::Write && op.address.context >= m {
            (op.address.context + 1) as nat
        } else {
            m
        }
    }
}

/// Contents of segment `s` of context `c` after the writes of `ops`, applied
/// in order, to contents `before`.
pub open spec fn content_after(ops: Seq<MemoryOp>, c: int, s: int, before: Seq<u32>) -> Seq<u32>
    decreases ops.len(),
{
    if ops.len() == 0 {
        before
    } else {
        let prev = content_after(ops.drop_last(), c, s, before);
        let op = ops.last();
        if op.kind == MemoryOpKind::Write && op.address.context == c && op.address.segment == s {
            write_cell(prev, op.address.virt as nat, op.value)
        } else {
            prev
        }
    }
}

/// Every write of `ops` names a catalog segment and an offset below the
/// largest one, and its value fits that segment's width.
pub open spec fn writes_in_range(ops: Seq<MemoryOp>) -> bool {
    forall|i: int|
        0 <= i < ops.len() && (#[trigger] ops[i]).kind == MemoryOpKind::Write ==> {
            &&& ops[i].address.is_valid()
            &&& ops[i].address.virt < usize::MAX
            &&& value_fits(ops[i].value, segment_bits(ops[i].address.segment as int))
        }
}

/// The initial program image, one byte per word.
pub open spec fn widen(image: Seq<u8>) -> Seq<u32> {
    Seq::new(image.len(), |i: int| image[i] as u32)
}

/// Why a store was refused.
#[derive(Clone, Copy, Debug, PartialEq, Eq, Structural)]
pub enum MemoryError {
    /// The segment index names no entry of the catalog.
    SegmentIndexOverflow,
    /// The offset is the largest representable one, past which a segment
    /// cannot grow.
    OffsetOverflow,
    /// The context id is not below `MAX_CONTEXTS`.
    ContextIndexOverflow,
    /// The value does not fit the declared width of the addressed segment.
    ValueRangeViolation,
}

impl MemoryState {
    /// The memory as first built from `image`: the root context alone, its
    /// code segment holding the image one byte per word, every other segment
    /// empty.
    pub open spec fn is_fresh(self, image: Seq<u8>) -> bool {
        &&& self.wf()
        &&& self.num_contexts() == 1
        &&& self.segment_content(0, Segment::Code.spec_index() as int) == widen(image)
        &&& forall|c: int, s: int|
            !(c == 0 && s == Segment::Code.spec_index()) ==> #[trigger] self.segment_content(c, s)
                == Seq::<u32>::empty()
    }

    /// A memory whose root context holds `kernel_code` in its code segment,
    /// one byte per word from offset 0, and nothing else.
    pub fn new(kernel_code: &[u8]) -> (r: Self)
        ensures
            r.is_fresh(kernel_code@),
    {
        let mut code_u32s: Vec<u32> = Vec::new();
        let mut i: usize = 0;
        while i < kernel_code.len()
            invariant
                i <= kernel_code@.len(),
                code_u32s@ == widen(kernel_code@.subrange(0, i as int)),
            decreases kernel_code@.len() - i,
        {
            code_u32s.push(kernel_code[i] as u32);
            i = i + 1;
            assert(code_u32s@ =~= widen(kernel_code@.subrange(0, i as int)));
        }
        assert(kernel_code@.subrange(0, i as int) =~= kernel_code@);
        let mut result = Self::default();
        let ghost empty = result;
        let code = Segment::Code.index();
        result.contexts[0].segments[code].content = code_u32s;
        assert forall|c: int, s: int|
            !(c == 0 && s == Segment::Code.spec_index()) implies #[trigger] result.segment_content(c, s)
                == Seq::<u32>::empty() by {
            assert(empty.segment_content(c, s) == Seq::<u32>::empty());
            if 0 <= c < result.contexts.len() && 0 <= s < NUM_SEGMENTS {
                assert(result.contexts@[c].segments@[s] == empty.contexts@[c].segments@[s]);
            }
        }
        assert forall|c: int, s: int, i: int|
            value_fits(#[trigger] cell(result.segment_content(c, s), i), segment_bits(s)) by {
            let v = cell(result.segment_content(c, s), i);
            lemma_segment_widths(s, v);
            if !(c == 0 && s == Segment::Code.spec_index()) {
                assert(result.segment_content(c, s) == Seq::<u32>::empty());
            } else if 0 <= i < kernel_code@.len() {
                assert(v == kernel_code@[i] as u32);
            }
        }
        result
    }

    /// The word stored at `address`, zero where nothing was stored; reads
    /// never materialize storage.
    pub fn get(&self, address: MemoryAddress) -> (r: u32)
        requires
            self.wf(),
            address.is_valid(),
        ensures
            r == self.value_at(address),
            value_fits(r, segment_bits(address.segment as int)),
    {
        proof {
            lemma_segment_widths(address.segment as int, 0);
        }
        if address.context >= self.contexts.len() {
            return 0;
        }
        self.contexts[address.context].segments[address.segment].get(address.virt)
    }

    /// Stores `val` at `address`. Missing contexts up to `address.context`
    /// are added empty, and the addressed segment is extended with zeros up
    /// to `address.virt`; nothing else changes.
    pub fn set(&mut self, address: MemoryAddress, val: u32)
        requires
            old(self).wf(),
            address.is_valid(),
            address.virt < usize::MAX,
            value_fits(val, segment_bits(address.segment as int)),
        ensures
            final(self).wf(),
            final(self).num_contexts() == if address.context < old(self).num_contexts() {
                old(self).num_contexts() as int
            } else {
                address.context + 1
            },
            final(self).segment_content(address.context as int, address.segment as int)
                == write_cell(
                old(self).segment_content(address.context as int, address.segment as int),
                address.virt as nat,
                val,
            ),
            forall|c: int, s: int|
                !(c == address.context && s == address.segment) ==> #[trigger] final(self).segment_content(c, s) == old(self).segment_content(c, s),
            forall|b: MemoryAddress| #[trigger]
                final(self).value_at(b) == if b == address {
                    val
                } else {
                    old(self).value_at(b)
                },
    {
        let ghost pre = *self;
        while address.context >= self.contexts.len()
            invariant
                self.wf(),
                pre.wf(),
                pre.contexts.len() <= self.contexts.len(),
                self.contexts.len() == pre.contexts.len() || self.contexts.len() <= address.context
                    + 1,
                forall|c: int, s: int| #[trigger]
                    self.segment_content(c, s) == pre.segment_content(c, s),
            decreases address.context + 1 - self.contexts.len(),
        {
            let ghost mid = *self;
            let fresh = MemoryContextState::default();
            self.contexts.push(fresh);
            assert forall|c: int, s: int| #[trigger]
                self.segment_content(c, s) == pre.segment_content(c, s) by {
                if 0 <= c < mid.contexts.len() {
                    assert(self.contexts@[c] == mid.contexts@[c]);
                    assert(self.segment_content(c, s) == mid.segment_content(c, s));
                } else if c == mid.contexts.len() && 0 <= s < NUM_SEGMENTS {
                    assert(self.contexts@[c] == fresh);
                    assert(fresh.segments@[s]@.len() == 0);
                    assert(self.segment_content(c, s) =~= Seq::<u32>::empty());
                }
            }
            assert forall|c: int, s: int, i: int|
                value_fits(#[trigger] cell(self.segment_content(c, s), i), segment_bits(s)) by {
                assert(self.segment_content(c, s) == pre.segment_content(c, s));
                assert(value_fits(cell(pre.segment_content(c, s), i), segment_bits(s)));
            }
        }
        let ghost mid = *self;
        self.contexts[address.context].segments[address.segment].set(address.virt, val);
        assert(mid.segment_content(address.context as int, address.segment as int)
            == pre.segment_content(address.context as int, address.segment as int));
        assert(mid.contexts@[address.context as int].wf());
        assert forall|c: int, s: int|
            !(c == address.context && s == address.segment) implies #[trigger] self.segment_content(c, s) == pre.segment_content(c, s) by {
            assert(self.segment_content(c, s) == mid.segment_content(c, s));
        }
        proof {
            lemma_write_cell(
                pre.segment_content(address.context as int, address.segment as int),
                address.virt as nat,
                val,
            );
        }
        assert forall|b: MemoryAddress| #[trigger]
            self.value_at(b) == if b == address {
                val
            } else {
                pre.value_at(b)
            } by {
            if b.context == address.context && b.segment == address.segment {
                assert(mid.segment_content(b.context as int, b.segment as int)
                    == pre.segment_content(b.context as int, b.segment as int));
            } else {
                assert(self.segment_content(b.context as int, b.segment as int)
                    == pre.segment_content(b.context as int, b.segment as int));
            }
        }
        assert forall|c: int, s: int, i: int|
            value_fits(#[trigger] cell(self.segment_content(c, s), i), segment_bits(s)) by {
            if !(c == address.context && s == address.segment) {
                assert(self.segment_content(c, s) == pre.segment_content(c, s));
            } else {
                assert(value_fits(cell(pre.segment_content(c, s), i), segment_bits(s)));
            }
        }
    }

    /// Stores `val` at `address` as `set` does, or refuses the store and
    /// changes nothing: for a segment outside the catalog, an offset that
    /// cannot be reached, a context id not below `MAX_CONTEXTS`, or a value
    /// wider than the segment's declared width, in that order.
    pub fn try_set(&mut self, address: MemoryAddress, val: u32) -> (r: Result<(), MemoryError>)
        requires
            old(self).wf(),
        ensures
            final(self).wf(),
            r == Self::store_outcome(address, val),
            r is Err ==> *final(self) == *old(self),
            r is Ok ==> {
                &&& final(self).num_contexts() == if address.context < old(self).num_contexts() {
                    old(self).num_contexts() as int
                } else {
                    address.context + 1
                }
                &&& forall|c: int, s: int| #[trigger]
                    final(self).segment_content(c, s) == if c == address.context && s
                        == address.segment {
                        write_cell(old(self).segment_content(c, s), address.virt as nat, val)
                    } else {
                        old(self).segment_content(c, s)
                    }
                &&& forall|b: MemoryAddress| #[trigger]
                    final(self).value_at(b) == if b == address {
                        val
                    } else {
                        old(self).value_at(b)
                    }
            },
    {
        if address.segment >= NUM_SEGMENTS {
            return Err(MemoryError::SegmentIndexOverflow);
        }
        if address.virt == usize::MAX {
            return Err(MemoryError::OffsetOverflow);
        }
        if address.context >= MAX_CONTEXTS {
            return Err(MemoryError::ContextIndexOverflow);
        }
        if !fits_segment(address.segment, val) {
            return Err(MemoryError::ValueRangeViolation);
        }
        self.set(address, val);
        Ok(())
    }

    /// Applies the writes of `ops` in the order given; reads change nothing.
    pub fn apply_ops(&mut self, ops: &[MemoryOp])
        requires
            old(self).wf(),
            writes_in_range(ops@),
        ensures
            final(self).wf(),
            final(self).num_contexts() == contexts_after(ops@, old(self).num_contexts()),
            forall|c: int, s: int| #[trigger]
                final(self).segment_content(c, s) == content_after(
                    ops@,
                    c,
                    s,
                    old(self).segment_content(c, s),
                ),
            forall|a: MemoryAddress| #[trigger]
                final(self).value_at(a) == last_write(ops@, a, old(self).value_at(a)),
    {
        let ghost pre = *self;
        let mut i: usize = 0;
        while i < ops.len()
            invariant
                i <= ops@.len(),
                writes_in_range(ops@),
                self.wf(),
                self.num_contexts() == contexts_after(
                    ops@.subrange(0, i as int),
                    pre.num_contexts(),
                ),
                forall|c: int, s: int| #[trigger]
                    self.segment_content(c, s) == content_after(
                        ops@.subrange(0, i as int),
                        c,
                        s,
                        pre.segment_content(c, s),
                    ),
                forall|a: MemoryAddress| #[trigger]
                    self.value_at(a) == last_write(ops@.subrange(0, i as int), a, pre.value_at(a)),
            decreases ops@.len() - i,
        {
            let op = ops[i];
            let ghost mid = *self;
            if op.kind == MemoryOpKind::Write {
                self.set(op.address, op.value);
            }
            assert(ops@.subrange(0, i + 1).drop_last() =~= ops@.subrange(0, i as int));
            i = i + 1;
            assert forall|a: MemoryAddress| #[trigger]
                self.value_at(a) == last_write(ops@.subrange(0, i as int), a, pre.value_at(a)) by {
                assert(ops@.subrange(0, i as int).last() == op);
                assert(mid.value_at(a) == last_write(ops@.subrange(0, i - 1), a, pre.value_at(a)));
            }
            assert forall|c: int, s: int| #[trigger]
                self.segment_content(c, s) == content_after(
                    ops@.subrange(0, i as int),
                    c,
                    s,
                    pre.segment_content(c, s),
                ) by {
                assert(ops@.subrange(0, i as int).last() == op);
                assert(mid.segment_content(c, s) == content_after(
                    ops@.subrange(0, i - 1),
                    c,
                    s,
                    pre.segment_content(c, s),
                ));
            }
        }
        assert(ops@.subrange(0, i as int) =~= ops@);
    }
}

/// In a freshly built memory, a cell of the image holds its byte and every
/// other cell reads as zero.
pub proof fn lemma_fresh_memory_values(m: MemoryState, image: Seq<u8>, a: MemoryAddress)
    requires
        m.is_fresh(image),
    ensures
        m.value_at(a) == if a.context == 0 && a.segment == Segment::Code.spec_index() && a.virt
            < image.len() {
            image[a.virt as int] as u32
        } else {
            0
        },
{
    if !(a.context == 0 && a.segment == Segment::Code.spec_index()) {
        assert(m.segment_content(a.context as int, a.segment as int) == Seq::<u32>::empty());
    }
}

/// Writes to one address applied in order leave the value of the last one
/// there.
pub proof fn lemma_last_write_wins(ops: Seq<MemoryOp>, a: MemoryAddress, before: u32)
    requires
        ops.len() > 0,
        forall|i: int|
            0 <= i < ops.len() ==> (#[trigger] ops[i]).kind == MemoryOpKind::Write
                && ops[i].address == a,
    ensures
        last_write(ops, a, before) == ops.last().value,
{
}

/// Reads alone leave every cell as it was and grow no storage.
pub proof fn lemma_reads_change_nothing(
    ops: Seq<MemoryOp>,
    a: MemoryAddress,
    before: u32,
    c: int,
    s: int,
    content: Seq<u32>,
    n: nat,
)
    requires
        forall|i: int| 0 <= i < ops.len() ==> (#[trigger] ops[i]).kind == MemoryOpKind::Read,
    ensures
        last_write(ops, a, before) == before,
        content_after(ops, c, s, content) == content,
        contexts_after(ops, n) == n,
    decreases ops.len(),
{
    if ops.len() > 0 {
        let rest = ops.drop_last();
        assert(ops[ops.len() - 1].kind == MemoryOpKind::Read);
        assert forall|i: int| 0 <= i < rest.len() implies (#[trigger] rest[i]).kind
            == MemoryOpKind::Read by {
            assert(rest[i] == ops[i]);
        }
        lemma_reads_change_nothing(rest, a, before, c, s, content, n);
    }
}

/// Applying a log in two parts, one after the other, leaves the same values,
/// contents and number of contexts as applying it at once.
pub proof fn lemma_apply_in_two_parts(
    ops1: Seq<MemoryOp>,
    ops2: Seq<MemoryOp>,
    a: MemoryAddress,
    before: u32,
    c: int,
    s: int,
    content: Seq<u32>,
    n: nat,
)
    ensures
        last_write(ops1 + ops2, a, before) == last_write(ops2, a, last_write(ops1, a, before)),
        content_after(ops1 + ops2, c, s, content) == content_after(
            ops2,
            c,
            s,
            content_after(ops1, c, s, content),
        ),
        contexts_after(ops1 + ops2, n) == contexts_after(ops2, contexts_after(ops1, n)),
    decreases ops2.len(),
{
    if ops2.len() == 0 {
        assert(ops1 + ops2 =~= ops1);
    } else {
        assert((ops1 + ops2).drop_last() =~= ops1 + ops2.drop_last());
        assert((ops1 + ops2).last() == ops2.last());
        lemma_apply_in_two_parts(ops1, ops2.drop_last(), a, before, c, s, content, n);
    }
}

/// One past the largest offset that the writes of `ops` to segment `s` of
/// context `c` reach; zero where there is none.
pub open spec fn reach(ops: Seq<MemoryOp>, c: int, s: int) -> nat
    decreases ops.len(),
{
    if ops.len() == 0 {
        0
    } else {
        let r = reach(ops.drop_last(), c, s);
        let op = ops.last();
        if op.kind == MemoryOpKind::Write && op.address.context == c && op.address.segment == s
            && op.address.virt + 1 > r {
            (op.address.virt + 1) as nat
        } else {
            r
        }
    }
}

/// Word `j` of segment `s` of context `c` after the writes of `ops`, where it
/// held `d` before.
pub open spec fn cell_after(ops: Seq<MemoryOp>, c: int, s: int, j: int, d: u32) -> u32
    decreases ops.len(),
{
    if ops.len() == 0 {
        d
    } else {
        let op = ops.last();
        if op.kind == MemoryOpKind::Write && op.address.context == c && op.address.segment == s
            && op.address.virt == j {
            op.value
        } else {
            cell_after(ops.drop_last(), c, s, j, d)
        }
    }
}

/// Contents after a log: long enough for the old contents and every write,
/// each word the last one written there or the old one.
pub proof fn lemma_content_after_shape(ops: Seq<MemoryOp>, c: int, s: int, b: Seq<u32>, j: int)
    ensures
        content_after(ops, c, s, b).len() == if b.len() >= reach(ops, c, s) {
            b.len()
        } else {
            reach(ops, c, s)
        },
        cell(content_after(ops, c, s, b), j) == cell_after(ops, c, s, j, cell(b, j)),
    decreases ops.len(),
{
    if ops.len() > 0 {
        lemma_content_after_shape(ops.drop_last(), c, s, b, j);
        let op = ops.last();
        lemma_write_cell(content_after(ops.drop_last(), c, s, b), op.address.virt as nat, op.value);
    }
}

/// Where `ops` writes a word, the old word does not matter; elsewhere it
/// stays.
pub proof fn lemma_cell_after_default(
    ops: Seq<MemoryOp>,
    c: int,
    s: int,
    j: int,
    d: u32,
    e: u32,
)
    ensures
        cell_after(ops, c, s, j, d) == d || cell_after(ops, c, s, j, d) == cell_after(
            ops,
            c,
            s,
            j,
            e,
        ),
        cell_after(ops, c, s, j, d) != d ==> cell_after(ops, c, s, j, e) == cell_after(
            ops,
            c,
            s,
            j,
            d,
        ),
        cell_after(ops, c, s, j, d) == d && cell_after(ops, c, s, j, e) != e ==> cell_after(
            ops,
            c,
            s,
            j,
            e,
        ) == d,
    decreases ops.len(),
{
    if ops.len() > 0 {
        lemma_cell_after_default(ops.drop_last(), c, s, j, d, e);
    }
}

/// One past the largest context id that the writes of `ops` name; zero
/// where there is none.
pub open spec fn context_reach(ops: Seq<MemoryOp>) -> nat
    decreases ops.len(),
{
    if ops.len() == 0 {
        0
    } else {
        let r = context_reach(ops.drop_last());
        let op = ops.last();
        if op.kind == MemoryOpKind::Write && op.address.context + 1 > r {
            (op.address.context + 1) as nat
        } else {
            r
        }
    }
}

/// Number of contexts after a log: the old number, or one past the largest
/// context written, whichever is larger.
pub proof fn lemma_contexts_after_shape(ops: Seq<MemoryOp>, n: nat)
    ensures
        contexts_after(ops, n) == if n >= context_reach(ops) {
            n
        } else {
            context_reach(ops)
        },
    decreases ops.len(),
{
    if ops.len() > 0 {
        lemma_contexts_after_shape(ops.drop_last(), n);
    }
}

/// Applying the same log a second time changes no contents and adds no
/// context.
pub proof fn lemma_replay_changes_nothing(ops: Seq<MemoryOp>, c: int, s: int, b: Seq<u32>, n: nat)
    ensures
        content_after(ops, c, s, content_after(ops, c, s, b)) == content_after(ops, c, s, b),
        contexts_after(ops, contexts_after(ops, n)) == contexts_after(ops, n),
{
    let x = content_after(ops, c, s, b);
    let z = content_after(ops, c, s, x);
    lemma_content_after_shape(ops, c, s, b, 0);
    lemma_content_after_shape(ops, c, s, x, 0);
    assert forall|j: int| 0 <= j < z.len() implies z[j] == x[j] by {
        lemma_content_after_shape(ops, c, s, b, j);
        lemma_content_after_shape(ops, c, s, x, j);
        lemma_cell_after_default(ops, c, s, j, cell(x, j), cell(b, j));
        lemma_cell_after_default(ops, c, s, j, cell(b, j), cell(x, j));
        assert(cell(z, j) == z[j]);
        assert(cell(x, j) == x[j]);
    }
    assert(z =~= x);
    lemma_contexts_after_shape(ops, n);
    lemma_contexts_after_shape(ops, contexts_after(ops, n));
}

impl Default for MemoryState {
    /// The root context alone, with every segment empty.
    fn default() -> (r: Self)
        ensures
            r.wf(),
            r.num_contexts() == 1,
            forall|c: int, s: int| #[trigger] r.segment_content(c, s) == Seq::<u32>::empty(),
    {
        let r = MemoryState { contexts: vec![MemoryContextState::default()] };
        assert forall|c: int, s: int| #[trigger] r.segment_content(c, s) == Seq::<u32>::empty() by {
            if 0 <= c < r.contexts.len() && 0 <= s < r.contexts@[c].segments.len() {
                assert(r.contexts@[c].segments@[s]@.len() == 0);
            }
        }
        assert forall|c: int, s: int, i: int|
            value_fits(#[trigger] cell(r.segment_content(c, s), i), segment_bits(s)) by {
            lemma_segment_widths(s, 0);
        }
        r
    }
}

} // verus!
