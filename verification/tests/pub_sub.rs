use cfw::arena::{Arena, ArenaSlot};
use cfw::double_buffer::DoubleBuffer;
use cfw::generic_subscriber::GenericSubscriber;
use cfw::input::{
    ForwardableInputSpan, ForwardableOptionalInput, ForwardableRequiredInput, InputSpan,
    OptionalInput, RequiredInput,
};
use cfw::mpsc_queue::MpscQueue;
use cfw::output::{ForwardingOutput, Output, OutputSpan};
use cfw::pub_sub::PubSub;
use cfw::publisher::{Publisher, PublisherConfig};
use cfw::subscriber::{Subscriber, SubscriberConfig};
use cfw::time::FrameworkTime;

const NUMBER: u64 = 1;
const FORWARDED: u64 = 2;

#[derive(Debug, Clone, PartialEq)]
enum Payload {
    Number(u32),
    Flag(bool),
    Nothing,
}

fn publisher_config(capacity: usize, channel: &str) -> PublisherConfig {
    PublisherConfig {
        capacity,
        channel_name: channel.to_string(),
    }
}

fn subscriber_config(is_optional: bool, capacity: usize, channel: &str) -> SubscriberConfig {
    SubscriberConfig {
        is_optional,
        capacity,
        is_trigger: true,
        keep_across_runs: true,
        channel_name: channel.to_string(),
    }
}

fn lone_publisher(capacity: usize) -> PubSub<i32> {
    let mut system = PubSub::new();
    system.add_publisher(Publisher::new(publisher_config(capacity, "channel"), NUMBER));
    system.allocate_arena(0);
    system
}

#[test]
fn one_allocation() {
    let mut system = lone_publisher(1);
    assert!(system.loan_with(0, 0).is_ok());
    assert!(system.loan_with(0, 0).is_err());
}

#[test]
fn multi_allocation() {
    let mut system = lone_publisher(3);
    assert!(system.loan_with(0, 0).is_ok());
    assert!(system.loan_with(0, 0).is_ok());
    assert!(system.loan_with(0, 0).is_ok());
    assert!(system.loan_with(0, 0).is_err());
}

#[test]
fn send() {
    let mut system = lone_publisher(1);
    let output = Output::new_default(&mut system, 0, 0);
    *output.value_mut(&mut system) = 42;
    assert_eq!(*output.value(&system), 42);
    output.send(&mut system);
    assert!(system.publishers[0].loaned_values[0].sent);
}

#[test]
fn send_to_subscriber() {
    let mut system: PubSub<i32> = PubSub::new();
    let p = system.add_publisher(Publisher::new(publisher_config(1, "channel"), NUMBER));
    let s = system.add_subscriber(Subscriber::new(
        subscriber_config(false, 1, "channel"),
        NUMBER,
    ));
    system.add_typed_subscriber(p, s);
    system.allocate_arena(p);
    assert!(!system.subscribers[s].able_to_run());
    assert!(!system.subscribers[s].requests_execution());
    let output = Output::new_default(&mut system, p, 0);
    *output.value_mut(&mut system) = 42;
    output.send(&mut system);

    system.flush_loaned_values(p, FrameworkTime::from_nanoseconds(99));

    assert!(system.subscribers[s].queue_info().writer_size == 1);
    assert!(system.subscribers[s].queue_info().reader_size == 0);

    assert!(system.subscribers[s].requests_execution());

    system.drain_writer_to_reader(s);

    assert!(system.subscribers[s].able_to_run());

    assert!(system.subscribers[s].queue_info().writer_size == 0);
    assert!(system.subscribers[s].queue_info().reader_size == 1);

    let front = system.front(s);
    assert!(front.is_some());
    let front_message = front.unwrap();
    assert_eq!(
        front_message.header.published_at,
        FrameworkTime::from_nanoseconds(99)
    );
    assert_eq!(front_message.message, 42);
}

#[test]
fn default_allocation_of_header() {
    let mut system = lone_publisher(1);
    assert!(system.loan_with(0, 0).is_ok());
    let header = system.loaned_message(0, 0).header;
    assert_eq!(header.published_at, FrameworkTime::invalid());
}

#[test]
fn add_typed_subscriber_sizes_arena_for_write_and_read_buffers() {
    let mut system: PubSub<u32> = PubSub::new();
    let p = system.add_publisher(Publisher::new(publisher_config(2, "ch"), NUMBER));
    assert_eq!(
        system.publishers[p].arena.capacity(),
        2,
        "arena starts sized for the publisher's own loan capacity"
    );

    let s = system.add_subscriber(Subscriber::new(subscriber_config(false, 4, "ch"), NUMBER));
    system.add_typed_subscriber(p, s);
    assert_eq!(
        system.publishers[p].arena.capacity(),
        2 + 2 * 4,
        "subscriber must bump arena by 2 * capacity (write + read buffers)"
    );

    let second = system.add_subscriber(Subscriber::new(subscriber_config(true, 3, "ch"), NUMBER));
    system.add_typed_subscriber(p, second);
    assert_eq!(
        system.publishers[p].arena.capacity(),
        2 + 2 * 4 + 2 * 3,
        "each additional subscriber adds another 2 * capacity"
    );
}

fn send_number(system: &mut PubSub<u32>, publisher: usize, value: u32) {
    let output = Output::new_default(system, publisher, 0);
    *output.value_mut(system) = value;
    output.send(system);
}

#[test]
fn back_to_back_publish_does_not_exhaust_arena() {
    const PUB_CAPACITY: usize = 1;
    const SUB_CAPACITY: usize = 1;

    let mut system: PubSub<u32> = PubSub::new();
    let p = system.add_publisher(Publisher::new(publisher_config(PUB_CAPACITY, "ch"), NUMBER));
    let s = system.add_subscriber(Subscriber::new(
        subscriber_config(false, SUB_CAPACITY, "ch"),
        NUMBER,
    ));
    system.add_typed_subscriber(p, s);
    system.allocate_arena(p);
    assert_eq!(
        system.publishers[p].arena.capacity(),
        PUB_CAPACITY + 2 * SUB_CAPACITY
    );

    let time = FrameworkTime::from_nanoseconds(0);

    send_number(&mut system, p, 10);
    system.flush_loaned_values(p, time);
    system.drain_writer_to_reader(s);
    assert_eq!(system.subscribers[s].queue_info().reader_size, 1);

    send_number(&mut system, p, 20);
    system.flush_loaned_values(p, time);
    assert_eq!(system.subscribers[s].queue_info().writer_size, 1);
    assert_eq!(system.subscribers[s].queue_info().reader_size, 1);

    assert!(system.loan_available(p));
    send_number(&mut system, p, 30);
    system.flush_loaned_values(p, time);

    system.drain_writer_to_reader(s);
    assert_eq!(*RequiredInput::new(&system, s).value(&system), 30);
}

#[test]
fn pub_sub() {
    let mut system: PubSub<u32> = PubSub::new();
    let p = system.add_publisher(Publisher::new(publisher_config(1, "channel"), NUMBER));
    let s = system.add_subscriber(Subscriber::new(
        subscriber_config(true, 2, "channel"),
        NUMBER,
    ));

    system.add_typed_subscriber(p, s);
    system.increase_arena_size(p, 2);
    system.allocate_arena(p);

    assert!(
        system.subscribers[s].able_to_run(),
        "Optional inputs should allow execution even when empty"
    );

    send_number(&mut system, p, 42);

    let timestamp = FrameworkTime::from_nanoseconds(42);
    system.flush_loaned_values(p, timestamp);
    system.drain_writer_to_reader(s);

    let input = OptionalInput::new(s);
    assert!(input.value(&system).is_some());
    assert_eq!(*input.value(&system).unwrap(), 42);
    input.clear(&mut system);
    assert!(input.value(&system).is_none());
}

#[test]
fn pub_sub_test_forwarded_pub_sub() {
    let mut system: PubSub<u32> = PubSub::new();
    let p = system.add_publisher(Publisher::new_with_forwards(
        publisher_config(1, "channel"),
        NUMBER,
        vec!["channel".to_string()],
    ));
    let s = system.add_subscriber(Subscriber::new(
        subscriber_config(true, 2, "channel"),
        NUMBER,
    ));

    system.add_typed_subscriber(p, s);
    system.increase_arena_size(p, 2);
    system.allocate_arena(p);

    assert!(
        system.subscribers[s].able_to_run(),
        "Optional inputs should allow execution even when empty"
    );

    send_number(&mut system, p, 42);

    let timestamp = FrameworkTime::from_nanoseconds(42);
    system.flush_loaned_values(p, timestamp);
    system.drain_writer_to_reader(s);

    let input = OptionalInput::new(s);
    assert!(input.value(&system).is_some());
    assert_eq!(*input.value(&system).unwrap(), 42);
}

/// A publisher, an input that can be forwarded, a forwarding publisher and the
/// input that listens to it, in that order.
fn forwarding_system() -> (PubSub<Payload>, usize, usize, usize, usize) {
    let normal_channel = "channel";
    let forwarded_channel = "forwarded_channel";
    let mut system: PubSub<Payload> = PubSub::new();
    let normal = system.add_publisher(Publisher::new(
        publisher_config(1, forwarded_channel),
        NUMBER,
    ));
    let forwardable = system.add_subscriber(Subscriber::new(
        subscriber_config(true, 2, normal_channel),
        NUMBER,
    ));
    let forwarding = system.add_publisher(Publisher::new_with_forwards(
        publisher_config(1, forwarded_channel),
        FORWARDED,
        vec![forwarded_channel.to_string()],
    ));
    let forwarded = system.add_subscriber(Subscriber::new(
        subscriber_config(true, 2, forwarded_channel),
        FORWARDED,
    ));
    system.add_typed_subscriber(normal, forwardable);
    system.allocate_arena(normal);
    system.add_typed_subscriber(forwarding, forwarded);
    system.allocate_arena(forwarding);
    assert_eq!(
        system.publishers[forwarding].forwarded_channels,
        vec![forwarded_channel.to_string()]
    );
    (system, normal, forwardable, forwarding, forwarded)
}

fn forward_one(extra: Payload) {
    let (mut system, normal, forwardable, forwarding, forwarded) = forwarding_system();
    let t_original = FrameworkTime::from_nanoseconds(42);
    let t_forwarding = FrameworkTime::from_nanoseconds(99);

    let output = Output::new_default(&mut system, normal, Payload::Number(0));
    *output.value_mut(&mut system) = Payload::Number(42);
    output.send(&mut system);
    system.flush_loaned_values(normal, t_original);

    system.drain_writer_to_reader(forwardable);
    let input = ForwardableOptionalInput::new(forwardable);
    assert!(input.value(&system).is_some());
    assert_eq!(*input.value(&system).unwrap(), Payload::Number(42));
    let out = ForwardingOutput::new(forwarding);
    let sent = input.forward(&mut system, &out, extra.clone()).unwrap();
    assert_eq!(*sent.value(&system), extra);
    sent.send(&mut system);
    system.flush_loaned_values(forwarding, t_forwarding);
    assert!(input.value(&system).is_none());

    system.drain_writer_to_reader(forwarded);
    let msg = system.front(forwarded).unwrap();
    assert_eq!(msg.header.published_at, t_forwarding);
    assert_eq!(msg.message, extra);
    let r = system.subscribers[forwarded].buffers.read_at(0);
    let fwd = system.forwarded_message(r).unwrap();
    assert_eq!(fwd.message, Payload::Number(42));
    assert_eq!(fwd.header.published_at, t_original);
}

#[test]
fn forwarded_message_forwarded_pub_sub() {
    forward_one(Payload::Flag(true));
}

#[test]
fn forwarded_without_extra_data() {
    forward_one(Payload::Nothing);
}

#[test]
fn nothing_is_forwarded_from_an_empty_input() {
    let (mut system, _, forwardable, forwarding, _) = forwarding_system();
    let input = ForwardableOptionalInput::new(forwardable);
    let out = ForwardingOutput::new(forwarding);
    assert!(input
        .forward(&mut system, &out, Payload::Nothing)
        .is_none());
}

#[test]
fn a_forwarded_message_outlives_its_subscribers() {
    let (mut system, normal, forwardable, forwarding, forwarded) = forwarding_system();
    let output = Output::new_default(&mut system, normal, Payload::Number(1));
    output.send(&mut system);
    system.flush_loaned_values(normal, FrameworkTime::from_nanoseconds(1));
    system.drain_writer_to_reader(forwardable);
    let input = ForwardableRequiredInput::new(&system, forwardable);
    assert_eq!(*input.value(&system), Payload::Number(1));
    let sent = input.forward(&mut system, &ForwardingOutput::new(forwarding), Payload::Flag(true));
    sent.send(&mut system);
    system.flush_loaned_values(forwarding, FrameworkTime::from_nanoseconds(2));
    system.cleanup_buffers(forwardable);
    system.drain_writer_to_reader(forwarded);
    let r = system.subscribers[forwarded].buffers.read_at(0);
    assert_eq!(
        system.forwarded_message(r).unwrap().message,
        Payload::Number(1)
    );
    system.cleanup_buffers(forwarded);
    assert!(system.loan_available(normal));
    assert_eq!(system.publishers[normal].arena.storage[0].ref_count, 0);
}

#[test]
fn spans_hold_as_many_messages_as_the_capacity() {
    let mut system: PubSub<u32> = PubSub::new();
    let p = system.add_publisher(Publisher::new(publisher_config(3, "ch"), NUMBER));
    let s = system.add_subscriber(Subscriber::new(subscriber_config(true, 4, "ch"), NUMBER));
    system.add_typed_subscriber(p, s);
    system.allocate_arena(p);
    let span = OutputSpan::new(&mut system, p, vec![7, 8, 9]);
    assert_eq!(span.outputs(&system), vec![&7, &8, &9]);
    let second = span.output_at(&system, 1);
    *second.value_mut(&mut system) = 80;
    span.output_at(&system, 0).send(&mut system);
    second.send(&mut system);
    system.flush_loaned_values(p, FrameworkTime::from_nanoseconds(5));
    system.drain_writer_to_reader(s);
    let input = InputSpan::new(s);
    let values: Vec<u32> = input.inputs(&system).iter().map(|m| m.message).collect();
    assert_eq!(values, vec![7, 80]);
    input.drain_inputs(&mut system);
    assert!(input.inputs(&system).is_empty());
}

#[test]
fn a_span_forwards_the_oldest_messages() {
    let mut system: PubSub<u32> = PubSub::new();
    let source = system.add_publisher(Publisher::new(publisher_config(3, "in"), NUMBER));
    let s = system.add_subscriber(Subscriber::new(subscriber_config(true, 3, "in"), NUMBER));
    let p = system.add_publisher(Publisher::new(publisher_config(2, "out"), FORWARDED));
    system.add_typed_subscriber(source, s);
    system.allocate_arena(source);
    system.allocate_arena(p);
    for value in [1, 2, 3] {
        Output::new_default(&mut system, source, value).send(&mut system);
    }
    system.flush_loaned_values(source, FrameworkTime::from_nanoseconds(1));
    system.drain_writer_to_reader(s);
    let span = ForwardableInputSpan::new(s).drain_forwards(
        &mut system,
        &ForwardingOutput::new(p),
        vec![100, 200],
    );
    assert_eq!(span.outputs(&system), vec![&100, &200]);
    assert_eq!(system.subscribers[s].queue_info().reader_size, 0);
    let slot = system.publishers[p].loaned_values[1].ptr.slot;
    assert_eq!(
        system.forwarded_message((p, slot as u64)).unwrap().message,
        2
    );
    assert!(system.loan_available(source));
}

#[test]
fn test_arena_ptr() {
    let mut slot = ArenaSlot::<u32>::default();
    let claimed = slot.try_claim(10);
    assert!(claimed.is_ok());
    assert_eq!(slot.payload, Some(10));
    assert_eq!(slot.ref_count, 1);
    assert_eq!(slot.try_claim(11), Err(11));
}

#[test]
fn test_arena_allocation() {
    let mut arena: Arena<u32> = Arena::new(2);
    arena.allocate_slots();
    assert_eq!(arena.storage.len(), 2);

    let maybe_ptr1 = arena.try_allocate_with(1);
    assert!(maybe_ptr1.is_ok());
    let ptr1 = maybe_ptr1.unwrap();

    let maybe_ptr2 = arena.try_allocate_with(2);
    assert!(maybe_ptr2.is_ok());
    let ptr2 = maybe_ptr2.unwrap();

    assert_eq!(arena.storage[ptr1.slot].ref_count, 1);
    assert_eq!(arena.storage[ptr2.slot].ref_count, 1);
    assert!(!arena.has_room());
    assert_eq!(arena.try_allocate_with(3).err(), Some(3));

    let ptr1_clone = arena.clone_ptr(&ptr1);
    assert_eq!(arena.storage[ptr1_clone.slot].ref_count, 2);
    assert_eq!(arena.release(ptr1), None);
    assert_eq!(arena.storage[ptr1_clone.slot].ref_count, 1);
    assert_eq!(*arena.get(&ptr1_clone), 1);
    assert_eq!(*arena.get(&ptr2), 2);
    assert_eq!(arena.release(ptr1_clone), Some(1));
    assert!(arena.has_room());
}

#[test]
fn a_full_queue_displaces_its_oldest_element() {
    let mut queue = MpscQueue::new(2);
    assert!(queue.is_empty());
    assert_eq!(queue.push((0, 1)), None);
    assert_eq!(queue.push((0, 2)), None);
    assert_eq!(queue.push((0, 3)), Some((0, 1)));
    assert_eq!(queue.len(), 2);
    assert_eq!(queue.pop(), Some((0, 2)));
    assert_eq!(queue.pop(), Some((0, 3)));
    assert_eq!(queue.pop(), None);
}

#[test]
fn a_drain_keeps_the_newest_elements() {
    let mut buffers = DoubleBuffer::new(2);
    assert_eq!(buffers.write((0, 1)), None);
    assert_eq!(buffers.write((0, 2)), None);
    assert_eq!(buffers.drain_writer_to_reader(), vec![]);
    assert_eq!(buffers.write((0, 3)), None);
    assert_eq!(buffers.drain_writer_to_reader(), vec![(0, 1)]);
    assert_eq!(buffers.read_buffer.drops, 1);
    let mut guard = buffers.read_buffer();
    assert_eq!(guard.len(), 2);
    assert!(!guard.is_empty());
    assert_eq!(guard.front(), Some((0, 2)));
    assert_eq!(guard.as_slice(), vec![(0, 2), (0, 3)]);
    assert_eq!(guard.pop_back(), Some((0, 3)));
    assert_eq!(guard.pop_front(), Some((0, 2)));
    assert_eq!(guard.pop_front(), None);
}
