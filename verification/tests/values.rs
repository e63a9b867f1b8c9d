use std::sync::atomic::Ordering;

use cfw::execution_log::{
    Direction, ExecutionLogEntry, ExecutionLogMessage, LoggedMessage, Saturating,
    ENTRIES_PER_MESSAGE, MESSAGES_PER_ENTRY,
};
use cfw::message::{Message, MessageHeader};
use cfw::string_interner::StringInterner;
use cfw::time::{AtomicFrameworkTime, Duration, FrameworkTime};

#[test]
fn default_message_has_all_invalid_entries() {
    let msg = ExecutionLogMessage::default();
    assert_eq!(msg.number_of_dropped_entries, Saturating(0));
    // Every entry slot starts INVALID, so the first free slot is 0 and the
    // rest are reported invalid by is_valid.
    assert_eq!(msg.next_free_entry(), Some(0));
    assert!(msg.entries.iter().all(|e| !e.is_valid()));
}

#[test]
fn default_entry_has_all_invalid_messages() {
    let entry = ExecutionLogEntry::default();
    assert!(!entry.is_valid());
    assert_eq!(entry.next_free(), Some(0));
    assert!(entry.messages.iter().all(|m| !m.is_valid()));
}

#[test]
fn sentinel_occupancy_walks_messages_then_next_entry() {
    let mut entry = ExecutionLogEntry {
        execution_time: FrameworkTime::from_nanoseconds(1),
        ..Default::default()
    };
    // Fill 3 of 24 message slots with valid headers; rest stay INVALID.
    for i in 0..3 {
        entry.messages[i] = LoggedMessage {
            ordinal: i as u16,
            direction: Direction::Received,
            header: MessageHeader::new(FrameworkTime::from_nanoseconds(10 + i as i64)),
        };
    }
    assert_eq!(entry.next_free(), Some(3));
    assert_eq!(entry.messages.iter().filter(|m| m.is_valid()).count(), 3);
}

#[test]
fn split_execution_entries_share_grouping_key() {
    let node = 5u32;
    let time = FrameworkTime::from_nanoseconds(7);
    let dur = 1234u64;

    let a = ExecutionLogEntry {
        callback_node_index: node,
        execution_time: time,
        execution_duration_ns: dur,
        ..Default::default()
    };
    let b = ExecutionLogEntry {
        callback_node_index: node,
        execution_time: time,
        execution_duration_ns: dur,
        ..Default::default()
    };

    assert_eq!(a.callback_node_index, b.callback_node_index);
    assert_eq!(a.execution_time, b.execution_time);
    assert_eq!(a.execution_duration_ns, b.execution_duration_ns);
}

#[test]
fn entries_beyond_a_message_are_dropped() {
    let valid = ExecutionLogEntry {
        execution_time: FrameworkTime::from_nanoseconds(3),
        ..Default::default()
    };
    let mut entries = Vec::new();
    for _ in 0..ENTRIES_PER_MESSAGE + 2 {
        entries.push(valid);
    }
    let message = ExecutionLogMessage::from_entries(0, &entries);
    assert_eq!(message.next_free_entry(), None);
    assert_eq!(message.entries.len(), 64);
    assert_eq!(valid.messages.len(), MESSAGES_PER_ENTRY);
    assert_eq!(MESSAGES_PER_ENTRY, 24);
}

#[derive(Debug)]
struct DummyMarker {}
type TestInterner = StringInterner<DummyMarker>;

#[test]
fn test_intern() {
    let mut interner = TestInterner::new();
    let interned_hello = interner.intern("hello");
    let interned_world = interner.intern("world");
    interner.shrink_to_fit();

    assert_eq!(interner.lookup_by_id(interned_hello), "hello");
    assert_eq!(interner.lookup_by_id(interned_world), "world");

    assert_eq!(interner.lookup_by_value("hello").unwrap(), interned_hello);
    assert_eq!(interner.lookup_by_value("world").unwrap(), interned_world);
    assert!(interner.lookup_by_value("not-there").is_none());
}

#[test]
fn interning_twice_gives_one_id() {
    let mut interner = TestInterner::new();
    let first = interner.intern("hello");
    let _ = interner.intern("world");
    assert_eq!(interner.intern("hello"), first);
}

#[test]
fn atomic_framework_time_round_trips() {
    let mut t = AtomicFrameworkTime::new(FrameworkTime::from_nanoseconds(1234));
    assert_eq!(
        t.load(Ordering::Relaxed),
        FrameworkTime::from_nanoseconds(1234)
    );

    t.store(FrameworkTime::from_nanoseconds(5678), Ordering::Release);
    assert_eq!(
        t.load(Ordering::Acquire),
        FrameworkTime::from_nanoseconds(5678)
    );

    assert_eq!(
        t.swap(FrameworkTime::invalid(), Ordering::AcqRel),
        FrameworkTime::from_nanoseconds(5678)
    );
    assert_eq!(t.load(Ordering::Relaxed), FrameworkTime::invalid());
}

#[test]
fn atomic_framework_time_from_conversion() {
    let t: AtomicFrameworkTime = FrameworkTime::from_nanoseconds(-42).into();
    assert_eq!(
        t.load(Ordering::Relaxed),
        FrameworkTime::from_nanoseconds(-42)
    );
    assert_eq!(
        t.load(Ordering::Relaxed).to_nanoseconds(),
        AtomicFrameworkTime::from_nanoseconds(-42)
            .load(Ordering::Relaxed)
            .to_nanoseconds()
    );
}

#[test]
fn times_add_and_subtract() {
    let t = FrameworkTime::from_nanoseconds(100);
    assert_eq!(
        t + Duration::from_nanos(5),
        FrameworkTime::from_nanoseconds(105)
    );
    assert_eq!(
        FrameworkTime::from_nanoseconds(105).checked_duration_since(t),
        Some(Duration::from_nanos(5))
    );
    assert_eq!(
        t.checked_duration_since(FrameworkTime::from_nanoseconds(105)),
        None
    );
    assert_eq!(
        FrameworkTime::max_value().saturating_add(Duration::from_nanos(1)),
        FrameworkTime::max_value()
    );
    assert_eq!(Duration::from_millis(3).as_nanos(), 3_000_000);
    assert_eq!(FrameworkTime::from_nanoseconds(-7).to_string(), "-7ns");
}

#[test]
fn new_messages_are_not_published() {
    let message: Message<u64> = Message::default();
    assert_eq!(message.header.published_at, FrameworkTime::invalid());
    assert_eq!(message.message, 0);
    assert_eq!(Message::unpublished(3u64).message, 3);
}
