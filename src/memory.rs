use vstd::prelude::*;

use crate::config::{Segment, NUM_CHANNELS, NUM_GP_CHANNELS, NUM_SEGMENTS};

verus! {

/// The access lane within one clock cycle that produced a memory operation.
#[derive(Clone, Copy, Debug, PartialEq, Eq, Structural)]
pub enum MemoryChannel {
    /// The instruction-fetch lane.
    Code,
    /// A general-purpose data lane, numbered from zero.
    GeneralPurpose(usize),
}

/// Why a channel has no lane index.
#[derive(Clone, Copy, Debug, PartialEq, Eq, Structural)]
pub enum ChannelError {
    /// A general-purpose lane id is not below `NUM_GP_CHANNELS`.
    InvalidChannelLane,
}

impl MemoryChannel {
    /// The lane id lies in the configured range.
    pub open spec fn is_valid(self) -> bool {
        match self {
            MemoryChannel::Code => true,
            MemoryChannel::GeneralPurpose(n) => n < NUM_GP_CHANNELS,
        }
    }

    /// Dense lane index: the fetch lane is 0, general-purpose lane `n` is `n + 1`.
    pub open spec fn spec_index(self) -> nat {
        match self {
            MemoryChannel::Code => 0,
            MemoryChannel::GeneralPurpose(n) => (n + 1) as nat,
        }
    }

    /// Dense lane index of a channel whose lane id is in range.
    pub fn index(&self) -> (r: usize)
        requires
            self.is_valid(),
        ensures
            r == self.spec_index(),
            r < NUM_CHANNELS,
    {
        match *self {
            MemoryChannel::Code => 0,
            MemoryChannel::GeneralPurpose(n) => n + 1,
        }
    }

    /// Dense lane index, or `InvalidChannelLane` for a general-purpose lane id
    /// that is not below `NUM_GP_CHANNELS`.
    pub fn try_index(&self) -> (r: Result<usize, ChannelError>)
        ensures
            self.is_valid() ==> r == Ok::<usize, ChannelError>(self.spec_index() as usize),
            !self.is_valid() ==> r == Err::<usize, ChannelError>(ChannelError::InvalidChannelLane),
    {
        match *self {
            MemoryChannel::Code => Ok(0),
            MemoryChannel::GeneralPurpose(n) => {
                if n < NUM_GP_CHANNELS {
                    Ok(n + 1)
                } else {
                    Err(ChannelError::InvalidChannelLane)
                }
            },
        }
    }
}

/// Every general-purpose lane id from `NUM_GP_CHANNELS` up is out of range:
/// `index` does not accept it, and `try_index` reports `InvalidChannelLane`.
pub proof fn lemma_lane_bound(n: usize)
    requires
        n >= NUM_GP_CHANNELS,
    ensures
        !MemoryChannel::GeneralPurpose(n).is_valid(),
{
}

/// One memory cell: an execution context, a segment of the catalog and an
/// offset within that segment.
#[derive(Clone, Copy, Debug, PartialEq, Eq, Hash, Structural)]
pub struct MemoryAddress {
    pub context: usize,
    pub segment: usize,
    pub virt: usize,
}

impl MemoryAddress {
    /// The segment index names an entry of the catalog.
    pub open spec fn is_valid(self) -> bool {
        self.segment < NUM_SEGMENTS
    }

    /// Address of cell `virt` of `segment` in `context`.
    pub fn new(context: usize, segment: Segment, virt: usize) -> (r: Self)
        ensures
            r.context == context,
            r.segment == segment.spec_index(),
            r.virt == virt,
            r.is_valid(),
    {
        MemoryAddress { context, segment: segment.index(), virt }
    }

    /// Moves to the next offset, staying at `usize::MAX` once there.
    pub fn increment(&mut self)
        ensures
            final(self).context == old(self).context,
            final(self).segment == old(self).segment,
            final(self).virt == if old(self).virt == usize::MAX {
                usize::MAX as int
            } else {
                old(self).virt + 1
            },
    {
        self.virt = self.virt.saturating_add(1);
    }
}

/// Whether an operation observes or changes a cell.
#[derive(Clone, Copy, Debug, PartialEq, Eq, Structural)]
pub enum MemoryOpKind {
    Read,
    Write,
}

/// One memory access of the trace.
#[derive(Clone, Copy, Debug, PartialEq, Eq, Structural)]
pub struct MemoryOp {
    /// True for a real access, false for a padding row.
    pub filter: bool,
    pub timestamp: usize,
    pub address: MemoryAddress,
    pub kind: MemoryOpKind,
    pub value: u32,
}

/// The timestamp of an access on `channel` at `clock`.
pub open spec fn encode_timestamp(channel: MemoryChannel, clock: nat) -> nat {
    (clock * NUM_CHANNELS + channel.spec_index()) as nat
}

impl MemoryOp {
    /// A real access on `channel` at `clock`; its timestamp is
    /// `clock * NUM_CHANNELS + channel.index()`.
    pub fn new(
        channel: MemoryChannel,
        clock: usize,
        address: MemoryAddress,
        kind: MemoryOpKind,
        value: u32,
    ) -> (r: Self)
        requires
            channel.is_valid(),
            encode_timestamp(channel, clock as nat) <= usize::MAX,
        ensures
            r.filter,
            r.timestamp == encode_timestamp(channel, clock as nat),
            channel == MemoryChannel::Code ==> r.timestamp == clock * NUM_CHANNELS,
            forall|k: usize|
                channel == MemoryChannel::GeneralPurpose(k) ==> r.timestamp == clock
                    * NUM_CHANNELS + k + 1,
            r.address == address,
            r.kind == kind,
            r.value == value,
    {
        let idx = channel.index();
        assert(clock * NUM_CHANNELS <= usize::MAX) by (nonlinear_arith)
            requires
                clock * NUM_CHANNELS + idx <= usize::MAX,
        ;
        let timestamp = clock * NUM_CHANNELS + idx;
        MemoryOp { filter: true, timestamp, address, kind, value }
    }

    /// A padding row: an invalid read carrying the given timestamp and value.
    pub fn new_dummy_read(address: MemoryAddress, timestamp: usize, value: u32) -> (r: Self)
        ensures
            !r.filter,
            r.timestamp == timestamp,
            r.address == address,
            r.kind == MemoryOpKind::Read,
            r.value == value,
    {
        MemoryOp { filter: false, timestamp, address, kind: MemoryOpKind::Read, value }
    }

    /// The padding row at address zero with timestamp zero and value zero.
    pub fn dummy() -> (r: Self)
        ensures
            !r.filter,
            r.timestamp == 0,
            r.address == (MemoryAddress { context: 0, segment: 0, virt: 0 }),
            r.kind == MemoryOpKind::Read,
            r.value == 0,
    {
        MemoryOp::new_dummy_read(MemoryAddress { context: 0, segment: 0, virt: 0 }, 0, 0)
    }

    /// The key that sorts the log by address, then by timestamp.
    pub open spec fn spec_sorting_key(self) -> (usize, usize, usize, usize) {
        (self.address.context, self.address.segment, self.address.virt, self.timestamp)
    }

    /// `(context, segment, offset, timestamp)` of the access.
    pub fn sorting_key(&self) -> (r: (usize, usize, usize, usize))
        ensures
            r == self.spec_sorting_key(),
    {
        (self.address.context, self.address.segment, self.address.virt, self.timestamp)
    }
}

} // verus!
