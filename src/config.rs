use vstd::arithmetic::power2::{lemma2_to64, pow2};
use vstd::prelude::*;

verus! {

/// Number of general-purpose data lanes in one clock cycle.
pub const NUM_GP_CHANNELS: usize = 5;

/// Total number of access lanes in one clock cycle: the instruction-fetch
/// lane followed by the general-purpose lanes.
pub const NUM_CHANNELS: usize = NUM_GP_CHANNELS + 1;

/// Number of segment kinds in the catalog; every context holds one segment
/// store per kind.
pub const NUM_SEGMENTS: usize = 3;

/// Largest number of contexts that a memory may grow to.
pub const MAX_CONTEXTS: usize = 65536;

/// Declared value width, in bits, of the segment with catalog index `s`:
/// the code segment holds the program image one byte per word, the others
/// hold full words.
pub open spec fn segment_bits(s: int) -> nat {
    if s == 0 {
        8
    } else {
        32
    }
}

/// `v` is representable in `bits` bits.
pub open spec fn value_fits(v: u32, bits: nat) -> bool {
    (v as nat) < pow2(bits)
}

/// Every declared width holds zero and is at most a full word.
pub proof fn lemma_segment_widths(s: int, v: u32)
    ensures
        value_fits(0, segment_bits(s)),
        s != 0 ==> value_fits(v, segment_bits(s)),
        s == 0 ==> (value_fits(v, segment_bits(s)) <==> v < 256),
{
    lemma2_to64();
}

/// Whether `v` fits the declared width of the segment with catalog index
/// `segment`.
pub fn fits_segment(segment: usize, v: u32) -> (r: bool)
    requires
        segment < NUM_SEGMENTS,
    ensures
        r == value_fits(v, segment_bits(segment as int)),
{
    proof {
        lemma_segment_widths(segment as int, v);
    }
    if segment == 0 {
        v < 256
    } else {
        true
    }
}

/// The catalog of segment kinds.
#[derive(Clone, Copy, Debug, PartialEq, Eq, Structural)]
pub enum Segment {
    /// The program image.
    Code,
    /// The call stack.
    Stack,
    /// Dynamically allocated data.
    Heap,
}

impl Segment {
    /// Dense catalog index of the segment kind.
    pub open spec fn spec_index(self) -> nat {
        match self {
            Segment::Code => 0,
            Segment::Stack => 1,
            Segment::Heap => 2,
        }
    }

    /// Declared value width of the segment kind, in bits.
    pub open spec fn spec_bit_range(self) -> nat {
        segment_bits(self.spec_index() as int)
    }

    /// Declared value width of the segment kind, in bits.
    pub fn bit_range(&self) -> (r: usize)
        ensures
            r == self.spec_bit_range(),
            r <= 32,
    {
        match *self {
            Segment::Code => 8,
            Segment::Stack => 32,
            Segment::Heap => 32,
        }
    }

    /// Catalog index of the segment kind, always below `NUM_SEGMENTS`.
    pub fn index(&self) -> (r: usize)
        ensures
            r == self.spec_index(),
            r < NUM_SEGMENTS,
    {
        match *self {
            Segment::Code => 0,
            Segment::Stack => 1,
            Segment::Heap => 2,
        }
    }
}

} // verus!
