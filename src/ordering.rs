use vstd::prelude::*;

use crate::config::NUM_CHANNELS;
use crate::memory::{encode_timestamp, MemoryChannel, MemoryOp};

verus! {

/// Lexicographic order on sorting keys.
pub open spec fn key_le(x: (usize, usize, usize, usize), y: (usize, usize, usize, usize)) -> bool {
    if x.0 != y.0 {
        x.0 < y.0
    } else if x.1 != y.1 {
        x.1 < y.1
    } else if x.2 != y.2 {
        x.2 < y.2
    } else {
        x.3 <= y.3
    }
}

/// The log is in ascending order of sorting keys.
pub open spec fn sorted_by_key(ops: Seq<MemoryOp>) -> bool {
    forall|i: int, j: int|
        0 <= i < j < ops.len() ==> key_le(
            (#[trigger] ops[i]).spec_sorting_key(),
            (#[trigger] ops[j]).spec_sorting_key(),
        )
}

/// The key order is total, antisymmetric and transitive.
pub proof fn lemma_key_order_total(x: MemoryOp, y: MemoryOp, z: MemoryOp)
    ensures
        key_le(x.spec_sorting_key(), y.spec_sorting_key()) || key_le(
            y.spec_sorting_key(),
            x.spec_sorting_key(),
        ),
        key_le(x.spec_sorting_key(), y.spec_sorting_key()) && key_le(
            y.spec_sorting_key(),
            x.spec_sorting_key(),
        ) ==> x.address == y.address && x.timestamp == y.timestamp,
        key_le(x.spec_sorting_key(), y.spec_sorting_key()) && key_le(
            y.spec_sorting_key(),
            z.spec_sorting_key(),
        ) ==> key_le(x.spec_sorting_key(), z.spec_sorting_key()),
{
}

/// In a log sorted by key, the accesses to one address stand together and
/// in ascending order of timestamp.
pub proof fn lemma_sorted_groups(ops: Seq<MemoryOp>)
    requires
        sorted_by_key(ops),
    ensures
        forall|i: int, j: int, k: int|
            0 <= i <= j <= k < ops.len() && (#[trigger] ops[i]).address == (#[trigger] ops[k]).address
                ==> (#[trigger] ops[j]).address == ops[i].address,
        forall|i: int, j: int|
            0 <= i < j < ops.len() && (#[trigger] ops[i]).address == (#[trigger] ops[j]).address
                ==> ops[i].timestamp <= ops[j].timestamp,
{
    assert forall|i: int, j: int, k: int|
        0 <= i <= j <= k < ops.len() && (#[trigger] ops[i]).address == (#[trigger] ops[k]).address
            implies (#[trigger] ops[j]).address == ops[i].address by {
        if i < j {
            assert(key_le(ops[i].spec_sorting_key(), ops[j].spec_sorting_key()));
        }
        if j < k {
            assert(key_le(ops[j].spec_sorting_key(), ops[k].spec_sorting_key()));
        }
    }
    assert forall|i: int, j: int|
        0 <= i < j < ops.len() && (#[trigger] ops[i]).address == (#[trigger] ops[j]).address
            implies ops[i].timestamp <= ops[j].timestamp by {
        assert(key_le(ops[i].spec_sorting_key(), ops[j].spec_sorting_key()));
    }
}

/// Timestamps order accesses by clock first, then by lane: an access at an
/// earlier clock comes before any at a later one, and distinct (clock, lane)
/// pairs never share a timestamp.
pub proof fn lemma_timestamp_order(ch1: MemoryChannel, c1: nat, ch2: MemoryChannel, c2: nat)
    requires
        ch1.is_valid(),
        ch2.is_valid(),
    ensures
        c1 < c2 ==> encode_timestamp(ch1, c1) < encode_timestamp(ch2, c2),
        c1 == c2 ==> (encode_timestamp(ch1, c1) < encode_timestamp(ch2, c2) <==> ch1.spec_index()
            < ch2.spec_index()),
        encode_timestamp(ch1, c1) == encode_timestamp(ch2, c2) ==> c1 == c2 && ch1 == ch2,
{
    let i1 = ch1.spec_index();
    let i2 = ch2.spec_index();
    assert(i1 < NUM_CHANNELS && i2 < NUM_CHANNELS);
    if c1 < c2 {
        assert(c1 * NUM_CHANNELS + NUM_CHANNELS <= c2 * NUM_CHANNELS) by (nonlinear_arith)
            requires
                c1 < c2,
        ;
    }
    if c2 < c1 {
        assert(c2 * NUM_CHANNELS + NUM_CHANNELS <= c1 * NUM_CHANNELS) by (nonlinear_arith)
            requires
                c2 < c1,
        ;
    }
}

} // verus!
