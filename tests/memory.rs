use trace_memory::config::{fits_segment, Segment, MAX_CONTEXTS, NUM_CHANNELS, NUM_GP_CHANNELS, NUM_SEGMENTS};
use trace_memory::memory::{ChannelError, MemoryAddress, MemoryChannel, MemoryOp, MemoryOpKind};
use trace_memory::state::{MemoryContextState, MemoryError, MemorySegmentState, MemoryState};

fn addr(context: usize, segment: Segment, virt: usize) -> MemoryAddress {
    MemoryAddress::new(context, segment, virt)
}

#[test]
fn image_then_stack_write() {
    let mut m = MemoryState::new(&[0xAA, 0xBB]);
    assert_eq!(m.get(addr(0, Segment::Code, 0)), 0xAA);
    assert_eq!(m.get(addr(0, Segment::Code, 1)), 0xBB);
    assert_eq!(m.get(addr(0, Segment::Code, 2)), 0);
    m.set(addr(0, Segment::Stack, 5), 42);
    for i in 0..5 {
        assert_eq!(m.get(addr(0, Segment::Stack, i)), 0);
    }
    assert_eq!(m.get(addr(0, Segment::Stack, 5)), 42);
    assert_eq!(m.contexts[0].segments[Segment::Stack.index()].content, vec![0, 0, 0, 0, 0, 42]);
}

#[test]
fn fresh_memory_reads_zero() {
    let m = MemoryState::new(&[]);
    assert_eq!(m.contexts.len(), 1);
    assert_eq!(m.get(addr(0, Segment::Code, 0)), 0);
    assert_eq!(m.get(addr(0, Segment::Heap, 1000)), 0);
    assert_eq!(m.get(addr(7, Segment::Stack, 3)), 0);
    assert_eq!(m.get(addr(usize::MAX, Segment::Code, usize::MAX)), 0);
    // reads never materialize storage
    assert_eq!(m.contexts.len(), 1);
}

#[test]
fn default_memory_has_root_context_only() {
    let m = MemoryState::default();
    assert_eq!(m.contexts.len(), 1);
    assert_eq!(m.contexts[0].segments.len(), NUM_SEGMENTS);
    for s in &m.contexts[0].segments {
        assert!(s.content.is_empty());
    }
}

#[test]
fn image_bytes_widen_to_words() {
    let m = MemoryState::new(&[0x00, 0x7F, 0x80, 0xFF]);
    assert_eq!(m.get(addr(0, Segment::Code, 2)), 0x80);
    assert_eq!(m.get(addr(0, Segment::Code, 3)), 0xFF);
    assert_eq!(m.get(addr(0, Segment::Stack, 0)), 0);
    assert_eq!(m.get(addr(1, Segment::Code, 0)), 0);
}

#[test]
fn last_write_wins() {
    let mut m = MemoryState::new(&[]);
    let a = addr(2, Segment::Heap, 9);
    let ops = vec![
        MemoryOp::new(MemoryChannel::GeneralPurpose(0), 1, a, MemoryOpKind::Write, 5),
        MemoryOp::new(MemoryChannel::GeneralPurpose(1), 2, a, MemoryOpKind::Write, 6),
        MemoryOp::new(MemoryChannel::Code, 3, a, MemoryOpKind::Write, 7),
    ];
    m.apply_ops(&ops);
    assert_eq!(m.get(a), 7);
}

#[test]
fn reads_change_nothing() {
    let mut m = MemoryState::new(&[1, 2, 3]);
    m.set(addr(0, Segment::Stack, 2), 99);
    let before = m.clone();
    let ops = vec![
        MemoryOp::new(MemoryChannel::Code, 0, addr(0, Segment::Code, 0), MemoryOpKind::Read, 50),
        MemoryOp::new(MemoryChannel::GeneralPurpose(2), 0, addr(0, Segment::Stack, 2), MemoryOpKind::Read, 51),
        MemoryOp::new(MemoryChannel::GeneralPurpose(3), 1, addr(4, Segment::Heap, 8), MemoryOpKind::Read, 52),
    ];
    m.apply_ops(&ops);
    assert_eq!(m.contexts.len(), before.contexts.len());
    for (c, s, v) in [(0, Segment::Code, 0), (0, Segment::Code, 2), (0, Segment::Stack, 2), (4, Segment::Heap, 8)] {
        assert_eq!(m.get(addr(c, s, v)), before.get(addr(c, s, v)));
    }
    assert_eq!(m.get(addr(0, Segment::Stack, 2)), 99);
}

#[test]
fn apply_mixes_reads_and_writes() {
    let mut m = MemoryState::new(&[]);
    let a = addr(0, Segment::Stack, 1);
    let b = addr(1, Segment::Heap, 0);
    let ops = vec![
        MemoryOp::new(MemoryChannel::GeneralPurpose(0), 0, a, MemoryOpKind::Write, 10),
        MemoryOp::new(MemoryChannel::GeneralPurpose(1), 0, b, MemoryOpKind::Write, 20),
        MemoryOp::new(MemoryChannel::GeneralPurpose(0), 1, a, MemoryOpKind::Read, 77),
        MemoryOp::new_dummy_read(b, 100, 88),
    ];
    m.apply_ops(&ops);
    assert_eq!(m.get(a), 10);
    assert_eq!(m.get(b), 20);
    assert_eq!(m.contexts.len(), 2);
}

#[test]
fn set_grows_contexts_lazily() {
    let mut m = MemoryState::new(&[]);
    m.set(addr(3, Segment::Heap, 0), 1);
    assert_eq!(m.contexts.len(), 4);
    for c in 1..3 {
        assert_eq!(m.contexts[c].segments.len(), NUM_SEGMENTS);
        for s in &m.contexts[c].segments {
            assert!(s.content.is_empty());
        }
    }
    assert!(m.contexts[3].segments[Segment::Code.index()].content.is_empty());
    assert!(m.contexts[3].segments[Segment::Stack.index()].content.is_empty());
    assert_eq!(m.contexts[3].segments[Segment::Heap.index()].content, vec![1]);
    // a lower context id does not grow the collection
    m.set(addr(1, Segment::Code, 2), 4);
    assert_eq!(m.contexts.len(), 4);
    assert_eq!(m.get(addr(1, Segment::Code, 2)), 4);
}

#[test]
fn overwrite_keeps_length() {
    let mut m = MemoryState::new(&[]);
    m.set(addr(0, Segment::Heap, 2), 9);
    m.set(addr(0, Segment::Heap, 1), 0xDEAD_BEEF);
    assert_eq!(m.contexts[0].segments[Segment::Heap.index()].content, vec![0, 0xDEAD_BEEF, 9]);
    assert_eq!(m.get(addr(0, Segment::Heap, 1)), 0xDEAD_BEEF);
}

#[test]
fn segment_store_get_and_set() {
    let mut s = MemorySegmentState::new();
    assert_eq!(s.get(0), 0);
    s.set(2, 8);
    assert_eq!(s.content, vec![0, 0, 8]);
    assert_eq!(s.get(2), 8);
    assert_eq!(s.get(3), 0);
    s.set(0, 1);
    assert_eq!(s.content, vec![1, 0, 8]);
}

#[test]
fn context_default_is_empty() {
    let c = MemoryContextState::default();
    assert_eq!(c.segments.len(), NUM_SEGMENTS);
    assert!(c.segments.iter().all(|s| s.content.is_empty()));
}

#[test]
fn channel_indices() {
    assert_eq!(MemoryChannel::Code.index(), 0);
    assert_eq!(MemoryChannel::GeneralPurpose(0).index(), 1);
    assert_eq!(MemoryChannel::GeneralPurpose(NUM_GP_CHANNELS - 1).index(), NUM_GP_CHANNELS);
    assert_eq!(NUM_CHANNELS, NUM_GP_CHANNELS + 1);
}

#[test]
fn channel_lane_out_of_range() {
    assert_eq!(MemoryChannel::Code.try_index(), Ok(0));
    assert_eq!(MemoryChannel::GeneralPurpose(2).try_index(), Ok(3));
    for n in [NUM_GP_CHANNELS, NUM_GP_CHANNELS + 1, 1000, usize::MAX] {
        assert_eq!(MemoryChannel::GeneralPurpose(n).try_index(), Err(ChannelError::InvalidChannelLane));
    }
}

#[test]
fn timestamp_encoding() {
    let a = addr(0, Segment::Stack, 0);
    let op = MemoryOp::new(MemoryChannel::Code, 7, a, MemoryOpKind::Read, 0);
    assert_eq!(op.timestamp, 7 * NUM_CHANNELS);
    assert!(op.filter);
    let op = MemoryOp::new(MemoryChannel::GeneralPurpose(3), 7, a, MemoryOpKind::Write, 12);
    assert_eq!(op.timestamp, 7 * NUM_CHANNELS + 4);
    assert_eq!(op.timestamp, 46);
    assert_eq!(op.kind, MemoryOpKind::Write);
    assert_eq!(op.value, 12);
    assert_eq!(op.address, a);
    let later = MemoryOp::new(MemoryChannel::Code, 8, a, MemoryOpKind::Read, 0);
    assert!(later.timestamp > op.timestamp);
}

#[test]
fn dummy_read_is_padding() {
    let a = addr(1, Segment::Heap, 4);
    let op = MemoryOp::new_dummy_read(a, 123, 9);
    assert!(!op.filter);
    assert_eq!(op.kind, MemoryOpKind::Read);
    assert_eq!(op.timestamp, 123);
    assert_eq!(op.value, 9);
    assert_eq!(op.address, a);
    let d = MemoryOp::dummy();
    assert!(!d.filter);
    assert_eq!(d.sorting_key(), (0, 0, 0, 0));
    assert_eq!(d.value, 0);
}

#[test]
fn address_fields_and_increment() {
    let mut a = addr(3, Segment::Heap, 10);
    assert_eq!((a.context, a.segment, a.virt), (3, 2, 10));
    a.increment();
    assert_eq!(a.virt, 11);
    let mut top = addr(0, Segment::Code, usize::MAX);
    top.increment();
    assert_eq!(top.virt, usize::MAX);
    assert_eq!(Segment::Code.index(), 0);
    assert_eq!(Segment::Stack.index(), 1);
}

#[test]
fn sorting_groups_addresses() {
    let x = addr(0, Segment::Stack, 1);
    let y = addr(0, Segment::Code, 5);
    let z = addr(1, Segment::Code, 0);
    let mut log = vec![
        MemoryOp::new(MemoryChannel::GeneralPurpose(0), 2, x, MemoryOpKind::Read, 3),
        MemoryOp::new(MemoryChannel::Code, 0, z, MemoryOpKind::Read, 0),
        MemoryOp::new(MemoryChannel::GeneralPurpose(1), 0, x, MemoryOpKind::Write, 3),
        MemoryOp::new(MemoryChannel::Code, 1, y, MemoryOpKind::Read, 0),
        MemoryOp::new(MemoryChannel::GeneralPurpose(0), 1, x, MemoryOpKind::Read, 3),
    ];
    assert_eq!(log[0].sorting_key(), (0, 1, 1, 13));
    log.sort_by_key(|op| op.sorting_key());
    let keys: Vec<_> = log.iter().map(|op| op.sorting_key()).collect();
    assert_eq!(keys, vec![(0, 0, 5, 6), (0, 1, 1, 2), (0, 1, 1, 7), (0, 1, 1, 13), (1, 0, 0, 0)]);
    assert_eq!(log[1].kind, MemoryOpKind::Write);
}

#[test]
fn checked_store_refuses_bad_addresses() {
    let mut m = MemoryState::new(&[5]);
    let bad_segment = MemoryAddress { context: 0, segment: NUM_SEGMENTS, virt: 0 };
    assert_eq!(m.try_set(bad_segment, 1), Err(MemoryError::SegmentIndexOverflow));
    let bad_offset = addr(2, Segment::Stack, usize::MAX);
    assert_eq!(m.try_set(bad_offset, 1), Err(MemoryError::OffsetOverflow));
    assert_eq!(m.contexts.len(), 1);
    assert_eq!(m.get(addr(0, Segment::Code, 0)), 5);
    assert_eq!(m.try_set(addr(2, Segment::Stack, 1), 3), Ok(()));
    assert_eq!(m.contexts.len(), 3);
    assert_eq!(m.get(addr(2, Segment::Stack, 1)), 3);
    assert_eq!(m.get(addr(2, Segment::Stack, 0)), 0);
}

#[test]
fn checked_store_refuses_wide_values_and_far_contexts() {
    let mut m = MemoryState::new(&[1, 2]);
    assert_eq!(m.try_set(addr(0, Segment::Code, 0), 256), Err(MemoryError::ValueRangeViolation));
    assert_eq!(m.get(addr(0, Segment::Code, 0)), 1);
    assert_eq!(m.try_set(addr(0, Segment::Code, 0), 255), Ok(()));
    assert_eq!(m.get(addr(0, Segment::Code, 0)), 255);
    assert_eq!(m.try_set(addr(0, Segment::Stack, 0), u32::MAX), Ok(()));
    assert_eq!(m.get(addr(0, Segment::Stack, 0)), u32::MAX);
    assert_eq!(m.try_set(addr(MAX_CONTEXTS, Segment::Stack, 0), 1), Err(MemoryError::ContextIndexOverflow));
    assert_eq!(m.try_set(addr(usize::MAX, Segment::Stack, 0), 1), Err(MemoryError::ContextIndexOverflow));
    assert_eq!(m.contexts.len(), 1);
    assert_eq!(m.try_set(addr(MAX_CONTEXTS - 1, Segment::Code, 3), 7), Ok(()));
    assert_eq!(m.contexts.len(), MAX_CONTEXTS);
}

#[test]
fn segment_widths() {
    assert_eq!(Segment::Code.bit_range(), 8);
    assert_eq!(Segment::Stack.bit_range(), 32);
    assert_eq!(Segment::Heap.bit_range(), 32);
    assert!(fits_segment(0, 255));
    assert!(!fits_segment(0, 256));
    assert!(fits_segment(1, u32::MAX));
    assert!(fits_segment(2, 0));
}

#[test]
fn read_only_log_grows_nothing() {
    let mut m = MemoryState::new(&[3]);
    let ops = vec![
        MemoryOp::new(MemoryChannel::Code, 0, addr(5, Segment::Heap, 100), MemoryOpKind::Read, 0),
        MemoryOp::new_dummy_read(addr(2, Segment::Stack, 7), 3, 0),
    ];
    m.apply_ops(&ops);
    assert_eq!(m.contexts.len(), 1);
    assert_eq!(m.contexts[0].segments[Segment::Code.index()].content, vec![3]);
    assert!(m.contexts[0].segments[Segment::Heap.index()].content.is_empty());
}

#[test]
fn apply_in_two_parts_matches_once() {
    let a = addr(1, Segment::Stack, 2);
    let b = addr(3, Segment::Heap, 0);
    let ops = vec![
        MemoryOp::new(MemoryChannel::GeneralPurpose(0), 0, a, MemoryOpKind::Write, 1),
        MemoryOp::new(MemoryChannel::GeneralPurpose(1), 0, b, MemoryOpKind::Write, 2),
        MemoryOp::new(MemoryChannel::GeneralPurpose(0), 1, a, MemoryOpKind::Write, 3),
    ];
    let mut once = MemoryState::new(&[]);
    once.apply_ops(&ops);
    let mut twice = MemoryState::new(&[]);
    twice.apply_ops(&ops[..1]);
    assert_eq!(twice.contexts.len(), 2);
    twice.apply_ops(&ops[1..]);
    assert_eq!(once.contexts.len(), 4);
    assert_eq!(twice.contexts.len(), 4);
    for c in 0..4 {
        for s in 0..NUM_SEGMENTS {
            assert_eq!(once.contexts[c].segments[s].content, twice.contexts[c].segments[s].content);
        }
    }
    assert_eq!(once.contexts[1].segments[Segment::Stack.index()].content, vec![0, 0, 3]);
    // replaying the log grows nothing and changes nothing
    once.apply_ops(&ops);
    assert_eq!(once.contexts.len(), 4);
    assert_eq!(once.contexts[1].segments[Segment::Stack.index()].content, vec![0, 0, 3]);
    assert_eq!(once.get(b), 2);
}
