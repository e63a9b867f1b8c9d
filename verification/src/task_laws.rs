//! What tasks are made of: texts say what they stand for, signatures become
//! ports, and every node and every step of a graph has its say.
use vstd::prelude::*;

use crate::callback::{
    Callback, CallbackNode, InputKind, Memory, NodePorts, OutputKind, Run, SubscriberPort,
};
use crate::callback_storage::CallbackStorage;
use crate::channel_registry::ChannelRegistry;
use crate::connect::MismatchTypeError;
use crate::pub_sub::PubSub;
use crate::signature::{
    FnArgument, GenericArgument, ImplFunction, PathArguments, PathSegment,
    PortKind, SigArg, SignatureError, TypeForm,
};
use crate::subscriber::Subscriber;
use crate::task_builder::AnyBuildStep;
use crate::task_graph_builder::{PoolBuilder, TaskGraphBuildError};
use crate::test_tasks::{FizzBuzzCalculator, IncrementingIntegerPublisher, Sample, StringCollector};
use crate::time::FrameworkTime;
use crate::unit_test_builder::{FixtureError, TestSubscriber, UnitTestExecutorBuilder};
use crate::unit_test_executor::UnitTestExecutor;

verus! {

/// The decimal digits of a number give that number back.
pub proof fn law_decimal_digits_give_the_number(n: nat)
    ensures
        crate::text::decimal(n).len() > 0,
        forall|i: int|
            0 <= i < crate::text::decimal(n).len() ==> '0' <= #[trigger] crate::text::decimal(n)[i]
                <= '9',
        n >= 10 ==> crate::text::decimal(n)[0] != '0',
        crate::text::decimal(n).len() == 1 ==> n < 10,
        crate::text::decimal(n).fold_left(
            0,
            |value: int, digit: char| 10 * value + (digit as int - '0' as int),
        ) == n,
    decreases n,
{
    let digits = crate::text::decimal(n);
    let next = |value: int, digit: char| 10 * value + (digit as int - '0' as int);
    if n >= 10 {
        let tens = n / 10;
        law_decimal_digits_give_the_number(tens);
        let before = crate::text::decimal(tens);
        assert(digits.drop_last() =~= before);
        assert(digits[0] == before[0]);
        assert(digits.fold_left(0, next) == next(before.fold_left(0, next), digits.last()));
        if tens < 10 {
            assert(before =~= seq![crate::text::digit_char(tens as int)]);
            assert(before[0] == crate::text::digit_char(tens as int));
        }
        assert forall|i: int| 0 <= i < digits.len() implies '0' <= #[trigger] digits[i] <= '9' by {
            if i < before.len() {
                assert(digits[i] == before[i]);
            }
        }
    } else {
        assert(digits.drop_last() =~= Seq::<char>::empty());
        assert(digits.drop_last().fold_left(0, next) == 0);
        assert(digits.fold_left(0, next) == next(0, digits.last()));
    }
}

/// A number below zero is written as a sign and the digits of what it lacks.
pub proof fn law_signs_come_first(n: int)
    ensures
        n >= 0 ==> crate::text::signed_decimal(n) == crate::text::decimal(n as nat),
        n < 0 ==> crate::text::signed_decimal(n)[0] == '-' && crate::text::signed_decimal(n).skip(1)
            == crate::text::decimal((-n) as nat),
{
    reveal_strlit("-");
    if n < 0 {
        assert(crate::text::signed_decimal(n).skip(1) =~= crate::text::decimal((-n) as nat));
    }
}

/// Multiples of three are told as fizz, multiples of five as buzz, multiples of
/// both as both, and all other numbers by their digits.
pub proof fn law_fizz_buzz_tells_multiples(n: u64)
    ensures
        n % 15 == 0 ==> crate::test_tasks::fizz_buzz_text(n) == "FizzBuzz"@,
        n % 3 == 0 && n % 5 != 0 ==> crate::test_tasks::fizz_buzz_text(n) == "Fizz"@,
        n % 5 == 0 && n % 3 != 0 ==> crate::test_tasks::fizz_buzz_text(n) == "Buzz"@,
        n % 3 != 0 && n % 5 != 0 ==> crate::test_tasks::fizz_buzz_text(n) == crate::text::decimal(
            n as nat,
        ),
{
}

/// A calculator that is handed a number and has a loan left sends one text, and
/// that text tells the number's multiples. Otherwise it does nothing.
pub proof fn law_calculator_answers_each_number(
    calculator: FizzBuzzCalculator,
    memory: Memory,
    ports: NodePorts,
    now: FrameworkTime,
    before: PubSub<Sample>,
    after: PubSub<Sample>,
    r: Run,
    next: Memory,
    n: u64,
)
    requires
        calculator.runs(memory, ports, now, before, after, r, next),
        before.wf(),
        after.wf(),
        ports.within(before),
        ports.subscriber_count > 0,
        ports.publisher_count > 0,
        before.subscribers@[ports.first_subscriber as int].buffers.readable().len() > 0,
        before.entry(
            before.subscribers@[ports.first_subscriber as int].buffers.readable()[0],
        ).message.message == Sample::Integer(n),
        before.publishers@[ports.first_publisher as int].loaned_values@.len()
            < before.publishers@[ports.first_publisher as int].config.capacity,
        exists|i: int|
            0 <= i < before.publishers@[ports.first_publisher as int].arena.storage@.len() && (
            #[trigger] before.publishers@[ports.first_publisher as int].arena.storage@[i]).ref_count
                == 0,
    ensures
        ({
            let loans = after.publishers@[ports.first_publisher as int].loaned_values@;
            let slot =
                after.publishers@[ports.first_publisher as int].arena.storage@[loans.last().ptr.slot as int];
            let told = slot.payload->0.message.message;
            &&& loans.len()
                == before.publishers@[ports.first_publisher as int].loaned_values@.len() + 1
            &&& loans.last().sent
            &&& told is Text
            &&& n % 15 == 0 ==> told->Text_0@ == "FizzBuzz"@
            &&& n % 3 == 0 && n % 5 != 0 ==> told->Text_0@ == "Fizz"@
            &&& n % 5 == 0 && n % 3 != 0 ==> told->Text_0@ == "Buzz"@
            &&& n % 3 != 0 && n % 5 != 0 ==> told->Text_0@ == crate::text::decimal(n as nat)
        }),
        next == memory,
{
    let p = ports.first_publisher;
    let s = ports.first_subscriber;
    assert(before.publishers@[p as int].arena.has_free_slot());
    assert(crate::input::inputs_of(before, s)[0].message == Sample::Integer(n));
    assert(crate::test_tasks::integer_at(before, s) == Some(n));
    let text = crate::test_tasks::fizz_buzz_text(n);
    let sent = choose|sent: String| #[trigger]
        crate::test_tasks::publishes(before, after, p, Sample::Text(sent)) && sent@ == text;
    crate::flow_laws::law_published_message_holds_its_payload(
        before,
        after,
        p,
        Sample::Text(sent),
    );
}

/// A publisher of numbers that has a loan left sends its number and goes on to
/// the next one.
pub proof fn law_numbers_follow_each_other(
    publisher: IncrementingIntegerPublisher,
    value: u64,
    ports: NodePorts,
    now: FrameworkTime,
    before: PubSub<Sample>,
    after: PubSub<Sample>,
    r: Run,
    next: Memory,
)
    requires
        publisher.runs(Memory::Number(value as int), ports, now, before, after, r, next),
        before.wf(),
        after.wf(),
        ports.within(before),
        ports.publisher_count > 0,
        before.publishers@[ports.first_publisher as int].loaned_values@.len()
            < before.publishers@[ports.first_publisher as int].config.capacity,
        exists|i: int|
            0 <= i < before.publishers@[ports.first_publisher as int].arena.storage@.len() && (
            #[trigger] before.publishers@[ports.first_publisher as int].arena.storage@[i]).ref_count
                == 0,
    ensures
        ({
            let loans = after.publishers@[ports.first_publisher as int].loaned_values@;
            let slot =
                after.publishers@[ports.first_publisher as int].arena.storage@[loans.last().ptr.slot as int];
            &&& loans.len()
                == before.publishers@[ports.first_publisher as int].loaned_values@.len() + 1
            &&& loans.last().sent
            &&& slot.payload->0.message.message == Sample::Integer(value)
        }),
        value < u64::MAX ==> next == Memory::Number(value + 1),
        value == u64::MAX ==> next == Memory::Number(0),
{
    let p = ports.first_publisher;
    assert(before.publishers@[p as int].arena.has_free_slot());
    crate::flow_laws::law_published_message_holds_its_payload(
        before,
        after,
        p,
        Sample::Integer(value),
    );
}

/// A collector keeps every text that it is handed, behind those it has, and asks
/// to stop once it has as many as it is to collect.
pub proof fn law_texts_are_collected(
    collector: StringCollector,
    kept: Seq<Memory>,
    stop: bool,
    ports: NodePorts,
    now: FrameworkTime,
    before: PubSub<Sample>,
    after: PubSub<Sample>,
    r: Run,
    next: Memory,
    text: String,
)
    requires
        collector.runs(
            Memory::List(
                seq![
                    Memory::List(kept),
                    Memory::Number(
                        if stop {
                            1
                        } else {
                            0
                        },
                    ),
                ],
            ),
            ports,
            now,
            before,
            after,
            r,
            next,
        ),
        ports.subscriber_count > 0,
        ports.within(before),
        before.subscribers@[ports.first_subscriber as int].buffers.readable().len() > 0,
        before.entry(
            before.subscribers@[ports.first_subscriber as int].buffers.readable()[0],
        ).message.message == Sample::Text(text),
    ensures
        after == before,
        next is List,
        next->List_0[0] == Memory::List(kept.push(Memory::Text(text@))),
        collector.ends(next) <==> stop || kept.len() + 1 >= collector.target_count,
{
    let s = ports.first_subscriber;
    assert(crate::input::inputs_of(before, s)[0].message == Sample::Text(text));
    assert(crate::test_tasks::text_at(before, s) == Some(text));
}

/// Exactly the threads that did not join are reported, in order.
pub proof fn law_lost_threads_are_reported(joined: Seq<bool>, n: int, i: int)
    requires
        0 <= n <= joined.len(),
        n <= usize::MAX,
        0 <= i <= usize::MAX,
    ensures
        ({
            let lost = crate::simulation_executor::panicked(joined, n);
            &&& (exists|j: int| 0 <= j < lost.len() && #[trigger] lost[j] == i) <==> i < n
                && !joined[i]
            &&& forall|j: int| 0 <= j < lost.len() ==> #[trigger] lost[j] < n
            &&& forall|j: int, k: int|
                0 <= j < k < lost.len() ==> #[trigger] lost[j] < #[trigger] lost[k]
        }),
    decreases n,
{
    if n > 0 {
        law_lost_threads_are_reported(joined, n - 1, i);
        let rest = crate::simulation_executor::panicked(joined, n - 1);
        let lost = crate::simulation_executor::panicked(joined, n);
        if !joined[n - 1] {
            assert(lost[rest.len() as int] == n - 1);
            if exists|j: int| 0 <= j < rest.len() && #[trigger] rest[j] == i {
                let j = choose|j: int| 0 <= j < rest.len() && #[trigger] rest[j] == i;
                assert(lost[j] == i);
            }
            if exists|j: int| 0 <= j < lost.len() && #[trigger] lost[j] == i {
                let j = choose|j: int| 0 <= j < lost.len() && #[trigger] lost[j] == i;
                if j < rest.len() {
                    assert(rest[j] == i);
                }
            }
        }
    }
}

/// The arguments of a `run` function are its typed inputs, in order, each under
/// its own name.
pub proof fn law_arguments_stand_in_order(inputs: Seq<FnArgument>, n: int)
    requires
        0 <= n <= inputs.len(),
        crate::signature::arguments_of(inputs, n) is Ok,
    ensures
        ({
            let arguments = crate::signature::arguments_of(inputs, n)->Ok_0;
            let typed = inputs.take(n).filter(|input: FnArgument| input is Typed);
            &&& arguments.len() == typed.len()
            &&& forall|i: int|
                0 <= i < arguments.len() ==> typed[i]->Typed_0.name == Some(
                    (#[trigger] arguments[i]).field_name,
                )
        }),
    decreases n,
{
    reveal(Seq::filter);
    if n > 0 {
        law_arguments_stand_in_order(inputs, n - 1);
        assert(inputs.take(n).drop_last() =~= inputs.take(n - 1));
        assert(inputs.take(n).last() == inputs[n - 1]);
    }
}

/// A `run` function is refused exactly if one of its typed inputs is, and for
/// the reason of the first one that is.
pub proof fn law_first_bad_argument_is_reported(inputs: Seq<FnArgument>, n: int) -> (at: int)
    requires
        0 <= n <= inputs.len(),
    ensures
        crate::signature::arguments_of(inputs, n) is Err <==> exists|i: int|
            0 <= i < n && (#[trigger] inputs[i]) is Typed && crate::signature::argument_of(
                inputs[i]->Typed_0,
            ) is Err,
        crate::signature::arguments_of(inputs, n) is Err ==> {
            &&& 0 <= at < n
            &&& inputs[at] is Typed
            &&& crate::signature::argument_of(inputs[at]->Typed_0) == Err::<SigArg, SignatureError>(
                crate::signature::arguments_of(inputs, n)->Err_0,
            )
            &&& forall|i: int|
                0 <= i < at && (#[trigger] inputs[i]) is Typed ==> crate::signature::argument_of(
                    inputs[i]->Typed_0,
                ) is Ok
        },
    decreases n,
{
    if n > 0 {
        let at = law_first_bad_argument_is_reported(inputs, n - 1);
        if crate::signature::arguments_of(inputs, n - 1) is Err {
            assert(inputs[at] is Typed);
            at
        } else {
            if crate::signature::arguments_of(inputs, n) is Err {
                assert(inputs[n - 1] is Typed);
            }
            n - 1
        }
    } else {
        0
    }
}

/// The names of the views are all different.
proof fn lemma_view_names()
    ensures
        "RequiredInput"@ != "OptionalInput"@,
        "RequiredInput"@.len() == 13,
        "OptionalInput"@.len() == 13,
        "InputSpan"@.len() == 9,
        "ForwardableRequiredInput"@.len() == 24,
        "ForwardableOptionalInput"@.len() == 24,
        "ForwardableRequiredInput"@ != "ForwardableOptionalInput"@,
        "ForwardableInputSpan"@.len() == 20,
        "Output"@.len() == 6,
        "OutputSpan"@.len() == 10,
        "ForwardingOutput"@.len() == 16,
        "Context"@.len() == 7,
{
    reveal_strlit("RequiredInput");
    reveal_strlit("OptionalInput");
    reveal_strlit("InputSpan");
    reveal_strlit("ForwardableRequiredInput");
    reveal_strlit("ForwardableOptionalInput");
    reveal_strlit("ForwardableInputSpan");
    reveal_strlit("Output");
    reveal_strlit("OutputSpan");
    reveal_strlit("ForwardingOutput");
    reveal_strlit("Context");
    assert("RequiredInput"@[0] != "OptionalInput"@[0]);
    assert("ForwardableRequiredInput"@[11] != "ForwardableOptionalInput"@[11]);
}

/// An argument that is taken by value and names a view of messages stands for a
/// port of that view and of those messages.
pub proof fn law_views_become_ports(
    segment: PathSegment,
    arguments: Vec<GenericArgument>,
    message: String,
)
    requires
        segment.arguments == PathArguments::AngleBracketed(arguments),
        arguments@.len() > 0,
        arguments@.last() == GenericArgument::Ident(message),
    ensures
        ({
            let kind = crate::signature::port_kind(segment, TypeForm::Value);
            let input = |forwardable: bool, ikind: InputKind|
                if forwardable {
                    Ok::<PortKind, SignatureError>(
                        PortKind::ForwardableSub { msg: message, ikind },
                    )
                } else {
                    Ok(PortKind::Sub { msg: message, ikind })
                };
            &&& segment.ident@ == "RequiredInput"@ ==> kind == input(false, InputKind::Required)
            &&& segment.ident@ == "OptionalInput"@ ==> kind == input(false, InputKind::Optional)
            &&& segment.ident@ == "InputSpan"@ ==> kind == input(false, InputKind::Span)
            &&& segment.ident@ == "ForwardableRequiredInput"@ ==> kind == input(
                true,
                InputKind::Required,
            )
            &&& segment.ident@ == "ForwardableOptionalInput"@ ==> kind == input(
                true,
                InputKind::Optional,
            )
            &&& segment.ident@ == "ForwardableInputSpan"@ ==> kind == input(true, InputKind::Span)
            &&& segment.ident@ == "Output"@ ==> kind == Ok::<PortKind, SignatureError>(
                PortKind::Pub { msg: message, okind: OutputKind::Default },
            )
            &&& segment.ident@ == "OutputSpan"@ ==> kind == Ok::<PortKind, SignatureError>(
                PortKind::Pub { msg: message, okind: OutputKind::Span },
            )
            &&& segment.ident@ == "Context"@ ==> kind == Ok::<PortKind, SignatureError>(
                PortKind::Context,
            )
        }),
{
    lemma_view_names();
}

/// A forwarding output names its own messages first and those that it forwards
/// second.
pub proof fn law_forwarding_outputs_name_both_messages(
    segment: PathSegment,
    arguments: Vec<GenericArgument>,
    own: String,
    forwarded: String,
)
    requires
        segment.ident@ == "ForwardingOutput"@,
        segment.arguments == PathArguments::AngleBracketed(arguments),
        arguments@.len() >= 2,
        arguments@[0] == GenericArgument::Ident(own),
        arguments@[1] == GenericArgument::Ident(forwarded),
    ensures
        crate::signature::port_kind(segment, TypeForm::Value) == Ok::<PortKind, SignatureError>(
            PortKind::ForwardingPub { user_data: own, forwarded },
        ),
{
    lemma_view_names();
}

/// The ports of a callback are its arguments without the context, in order.
pub proof fn law_ports_are_all_but_the_context(arguments: Seq<SigArg>, n: int)
    requires
        0 <= n <= arguments.len(),
    ensures
        crate::callback_plan::ports_of(arguments, n) == arguments.take(n).filter(
            |argument: SigArg| !(argument.port_kind is Context),
        ),
    decreases n,
{
    reveal(Seq::filter);
    if n > 0 {
        law_ports_are_all_but_the_context(arguments, n - 1);
        assert(arguments.take(n).drop_last() =~= arguments.take(n - 1));
        assert(arguments.take(n).last() == arguments[n - 1]);
    }
}

/// The places of the inputs are those of the ports that are read, and the places
/// of the outputs those of the ports that are written, both in order.
pub proof fn law_places_stand_in_order(ports: Seq<SigArg>, n: int)
    requires
        0 <= n <= ports.len(),
        n <= usize::MAX,
    ensures
        ({
            let inputs = crate::callback_plan::input_places(ports, n);
            let outputs = crate::callback_plan::output_places(ports, n);
            &&& forall|i: int|
                0 <= i < inputs.len() ==> (#[trigger] inputs[i]) < n && match ports[inputs[i] as int].port_kind {
                    PortKind::Sub { .. } => true,
                    PortKind::ForwardableSub { .. } => true,
                    _ => false,
                }
            &&& forall|i: int|
                0 <= i < outputs.len() ==> (#[trigger] outputs[i]) < n && match ports[outputs[i] as int].port_kind {
                    PortKind::Pub { .. } => true,
                    PortKind::ForwardingPub { .. } => true,
                    _ => false,
                }
            &&& forall|i: int, j: int|
                0 <= i < j < inputs.len() ==> #[trigger] inputs[i] < #[trigger] inputs[j]
            &&& forall|i: int, j: int|
                0 <= i < j < outputs.len() ==> #[trigger] outputs[i] < #[trigger] outputs[j]
            &&& inputs.len() == ports.take(n).filter(
                |port: SigArg| port.port_kind is Sub || port.port_kind is ForwardableSub,
            ).len()
            &&& outputs.len() == ports.take(n).filter(
                |port: SigArg| port.port_kind is Pub || port.port_kind is ForwardingPub,
            ).len()
        }),
    decreases n,
{
    reveal(Seq::filter);
    if n > 0 {
        law_places_stand_in_order(ports, n - 1);
        assert(ports.take(n).drop_last() =~= ports.take(n - 1));
        assert(ports.take(n).last() == ports[n - 1]);
    }
}

/// The `run` function that is left behind names no channels any more and is
/// otherwise the same; every other function stays as it was.
pub proof fn law_only_channels_are_taken_off(before: ImplFunction, after: ImplFunction, i: int)
    requires
        crate::callback_plan::sanitized(before, after),
    ensures
        before.name@ != "run"@ ==> after == before,
        before.name@ == "run"@ ==> {
            &&& after.name@ == "run"@
            &&& after.inputs@.len() == before.inputs@.len()
            &&& 0 <= i < before.inputs@.len() ==> match (before.inputs@[i], after.inputs@[i]) {
                (FnArgument::Receiver, FnArgument::Receiver) => true,
                (FnArgument::Typed(old_argument), FnArgument::Typed(argument)) => {
                    &&& argument.name == old_argument.name
                    &&& argument.ty == old_argument.ty
                    &&& argument.channel is Absent
                },
                _ => false,
            }
        },
{
}

/// The slots of the inputs of one node on a channel.
proof fn lemma_usage_in(ports: Seq<SubscriberPort>, name: Seq<char>)
    ensures
        crate::connect::usage_in(ports, name) == ports.filter(
            |port: SubscriberPort| port.config.channel_name@ == name,
        ).map_values(|port: SubscriberPort| port.config.capacity + port.config.capacity).fold_left(
            0,
            |sum: int, slots: int| sum + slots,
        ),
    decreases ports.len(),
{
    reveal(Seq::filter);
    let plus = |sum: int, slots: int| sum + slots;
    let chosen = |port: SubscriberPort| port.config.channel_name@ == name;
    let slots = |port: SubscriberPort| port.config.capacity + port.config.capacity;
    let all = ports.filter(chosen).map_values(slots);
    if ports.len() > 0 {
        let rest = ports.drop_last();
        lemma_usage_in(rest, name);
        let before = rest.filter(chosen).map_values(slots);
        if chosen(ports.last()) {
            assert(all =~= before.push(slots(ports.last())));
            assert(all.drop_last() =~= before);
            assert(all.fold_left(0, plus) == before.fold_left(0, plus) + all.last());
        } else {
            assert(all =~= before);
        }
    }
}

/// The slots that a forwarded channel needs are those of every input on it of
/// every node, for both buffers of each.
pub proof fn law_forwarded_channels_need_all_their_inputs<T>(
    nodes: Seq<CallbackNode<T>>,
    name: Seq<char>,
)
    ensures
        crate::connect::usage_of(nodes, name) == nodes.map_values(
            |node: CallbackNode<T>|
                node.subscribers@.filter(
                    |port: SubscriberPort| port.config.channel_name@ == name,
                ).map_values(
                    |port: SubscriberPort| port.config.capacity + port.config.capacity,
                ).fold_left(0, |sum: int, slots: int| sum + slots),
        ).fold_left(0, |sum: int, slots: int| sum + slots),
    decreases nodes.len(),
{
    let plus = |sum: int, slots: int| sum + slots;
    let needs = |node: CallbackNode<T>|
        node.subscribers@.filter(
            |port: SubscriberPort| port.config.channel_name@ == name,
        ).map_values(|port: SubscriberPort| port.config.capacity + port.config.capacity).fold_left(
            0,
            |sum: int, slots: int| sum + slots,
        );
    let all = nodes.map_values(needs);
    if nodes.len() > 0 {
        let rest = nodes.drop_last();
        law_forwarded_channels_need_all_their_inputs(rest, name);
        lemma_usage_in(nodes.last().subscribers@, name);
        assert(rest.map_values(needs) =~= all.drop_last());
        assert(all.fold_left(0, plus) == all.drop_last().fold_left(0, plus) + all.last());
    }
}

/// The error for a channel with two payload types names that channel, a node
/// that publishes on it and a node that reads it with another type.
pub proof fn law_mismatch_names_both_nodes<T>(error: MismatchTypeError, nodes: Seq<CallbackNode<T>>) -> (r: (
    int,
    int,
    int,
    int,
))
    requires
        crate::connect_graph::reports_first_mismatch(error, nodes),
    ensures
        0 <= r.0 < nodes.len(),
        0 <= r.1 < nodes.len(),
        0 <= r.2 < nodes[r.0].publishers@.len(),
        0 <= r.3 < nodes[r.1].subscribers@.len(),
        nodes[r.0].publishers@[r.2].config.channel_name@ == error.channel_name@,
        nodes[r.1].subscribers@[r.3].config.channel_name@ == error.channel_name@,
        nodes[r.0].publishers@[r.2].value_type != nodes[r.1].subscribers@[r.3].value_type,
        nodes[r.0].name@ == error.publisher_callback_node@,
        nodes[r.1].name@ == error.subscriber_callback_node@,
        forall|ci: int, oi: int, pi: int, si: int|
            0 <= ci < r.0 && 0 <= oi < nodes.len() && 0 <= pi < nodes[ci].publishers@.len() && 0
                <= si < nodes[oi].subscribers@.len() && (#[trigger]
            nodes[ci].publishers@[pi]).config.channel_name@ == (#[trigger]
            nodes[oi].subscribers@[si]).config.channel_name@
                ==> nodes[ci].publishers@[pi].value_type == nodes[oi].subscribers@[si].value_type,
{
    let (ci, oi, pi, si) = choose|ci: int, oi: int, pi: int, si: int| #[trigger]
        crate::connect_graph::mismatch(nodes, ci, oi, pi, si) && error.channel_name@
            == nodes[ci].publishers@[pi].config.channel_name@ && error.publisher_callback_node@
            == nodes[ci].name@ && error.subscriber_callback_node@ == nodes[oi].name@
            && crate::connect_graph::no_mismatch_before(nodes, (ci, oi, pi, si));
    assert forall|a: int, b: int, p: int, s: int|
        0 <= a < ci && 0 <= b < nodes.len() && 0 <= p < nodes[a].publishers@.len() && 0 <= s
            < nodes[b].subscribers@.len() && (#[trigger]
        nodes[a].publishers@[p]).config.channel_name@ == (#[trigger]
        nodes[b].subscribers@[s]).config.channel_name@ implies nodes[a].publishers@[p].value_type
        == nodes[b].subscribers@[s].value_type by {
        assert(!crate::connect_graph::mismatch(nodes, a, b, p, s));
    }
    (ci, oi, pi, si)
}

/// The callback that is named when a graph is refused is the first one that
/// cannot be built, pool by pool, and the error is its own.
pub proof fn law_first_unbuildable_callback_is_named<T>(
    pools: Seq<PoolBuilder<T>>,
    k: int,
    b: int,
    error: TaskGraphBuildError,
)
    requires
        crate::task_graph_builder::first_failure(pools, k, b, error),
    ensures
        0 <= k < pools.len(),
        0 <= b < pools[k].pending_builders@.len(),
        error is CallbackBuildError,
        error->CallbackBuildError_callback_name@ == pools[k].pending_builders@[b].name@,
        pools[k].pending_builders@[b].first_error is Some ==> Some(
            error->CallbackBuildError_error,
        ) == pools[k].pending_builders@[b].first_error,
        pools[k].pending_builders@[b].first_error is None
            ==> error->CallbackBuildError_error is MissingExecutionDurationCallback,
        forall|l: int, c: int|
            0 <= l < pools.len() && 0 <= c < pools[l].pending_builders@.len() && (l < k || l == k
                && c < b) ==> (#[trigger] pools[l].pending_builders@[c]).first_error is None
                && pools[l].pending_builders@[c].execution_duration_callback is Some,
{
    assert forall|l: int, c: int|
        0 <= l < pools.len() && 0 <= c < pools[l].pending_builders@.len() && (l < k || l == k && c
            < b) implies (#[trigger] pools[l].pending_builders@[c]).first_error is None
        && pools[l].pending_builders@[c].execution_duration_callback is Some by {
        assert(!crate::task_graph_builder::builder_fails(pools, l, c));
    }
}

/// A graph writes execution logs exactly if one of its pools has a thread.
pub proof fn law_threads_write_logs<T>(pools: Seq<PoolBuilder<T>>, n: int)
    requires
        0 <= n <= pools.len(),
    ensures
        crate::task_graph_builder::thread_sum(pools, n) >= 0,
        crate::task_graph_builder::thread_sum(pools, n) > 0 <==> exists|k: int|
            0 <= k < n && (#[trigger] pools[k]).thread_count > 0,
    decreases n,
{
    if n > 0 {
        law_threads_write_logs(pools, n - 1);
        if pools[n - 1].thread_count > 0 {
            assert(pools[n - 1].thread_count > 0);
        }
        if exists|k: int| 0 <= k < n - 1 && (#[trigger] pools[k]).thread_count > 0 {
            let k = choose|k: int| 0 <= k < n - 1 && (#[trigger] pools[k]).thread_count > 0;
            assert(pools[k].thread_count > 0);
        }
    }
}

/// Every node registers what it has to: where registering only adds, whatever a
/// node registers is known when all have.
pub proof fn law_every_node_registers<T>(
    nodes: Seq<CallbackNode<T>>,
    before: ChannelRegistry,
    after: ChannelRegistry,
    n: int,
    value_type: u64,
)
    requires
        crate::task_graph_builder::registers_all(nodes, before, after),
        0 <= n < nodes.len(),
        forall|m: int, a: ChannelRegistry, b: ChannelRegistry|
            0 <= m < nodes.len() && #[trigger] nodes[m].callback.inner.registers(a, b)
                ==> a.serializers@.subset_of(b.serializers@),
        forall|a: ChannelRegistry, b: ChannelRegistry| #[trigger]
            nodes[n].callback.inner.registers(a, b) ==> b.serializers@.contains(value_type),
    ensures
        after.serializers@.contains(value_type),
        before.serializers@.subset_of(after.serializers@),
{
    let registries = choose|registries: Seq<ChannelRegistry>| #[trigger]
        crate::task_graph_builder::registered_in_turn(nodes, registries) && registries[0] == before
            && registries.last() == after;
    assert(nodes[n].callback.inner.registers(registries[n], registries[n + 1]));
    lemma_registered_grow(nodes, registries, n + 1, nodes.len() as int);
    lemma_registered_grow(nodes, registries, 0, nodes.len() as int);
}

/// What is registered stays registered.
proof fn lemma_registered_grow<T>(
    nodes: Seq<CallbackNode<T>>,
    registries: Seq<ChannelRegistry>,
    i: int,
    j: int,
)
    requires
        crate::task_graph_builder::registered_in_turn(nodes, registries),
        0 <= i <= j <= nodes.len(),
        forall|m: int, a: ChannelRegistry, b: ChannelRegistry|
            0 <= m < nodes.len() && #[trigger] nodes[m].callback.inner.registers(a, b)
                ==> a.serializers@.subset_of(b.serializers@),
    ensures
        registries[i].serializers@.subset_of(registries[j].serializers@),
    decreases j - i,
{
    if i < j {
        lemma_registered_grow(nodes, registries, i, j - 1);
        assert(nodes[j - 1].callback.inner.registers(registries[j - 1], registries[j]));
    }
}

/// Every build step of a task runs, in order, on the nodes that are there when
/// its turn comes, and its nodes come behind these.
pub proof fn law_task_steps_add_their_nodes<T>(
    start: Seq<CallbackNode<T>>,
    steps: Seq<AnyBuildStep<T>>,
    k: int,
    nodes: Seq<CallbackNode<T>>,
    j: int,
) -> (r: (Seq<CallbackNode<T>>, Vec<CallbackNode<T>>))
    requires
        0 <= j < k <= steps.len(),
        crate::task_builder::reaches(start, steps, k, nodes),
    ensures
        steps[j].inner.adds(r.0, Ok(r.1)),
        start.len() <= r.0.len(),
        r.0.len() + r.1@.len() <= nodes.len(),
        nodes.take(r.0.len() as int) == r.0,
        nodes.subrange(r.0.len() as int, (r.0.len() + r.1@.len()) as int) == r.1@,
    decreases k,
{
    let (before, added) = choose|before: Seq<CallbackNode<T>>, added: Vec<CallbackNode<T>>|
        #[trigger] steps[k - 1].inner.adds(before, Ok(added)) && crate::task_builder::reaches(
            start,
            steps,
            k - 1,
            before,
        ) && nodes == before + added@;
    crate::task_builder::law_build_steps_only_add(start, steps, k - 1, before);
    if j == k - 1 {
        assert(nodes.take(before.len() as int) =~= before);
        assert(nodes.subrange(before.len() as int, (before.len() + added@.len()) as int)
            =~= added@);
        (before, added)
    } else {
        let (existing, new) = law_task_steps_add_their_nodes(start, steps, k - 1, before, j);
        let a = existing.len() as int;
        let b = (existing.len() + new@.len()) as int;
        assert(nodes.take(a) =~= before.take(a));
        assert(nodes.subrange(a, b) =~= before.subrange(a, b));
        (existing, new)
    }
}

/// The inputs that are cleared are those of every node that is idle.
pub proof fn law_idle_nodes_lose_their_inputs<T>(
    storage: CallbackStorage<T>,
    i: int,
    s: int,
    before: Subscriber,
    after: Subscriber,
)
    requires
        0 <= i < storage.nodes@.len(),
        if storage.idle_owner(storage.nodes@.len() as int, s) {
            crate::callback_storage::emptied(after, before)
        } else {
            after == before
        },
        storage.nodes@[i].node.ports.first_subscriber <= s
            < storage.nodes@[i].node.ports.first_subscriber
            + storage.nodes@[i].node.ports.subscriber_count,
    ensures
        storage.nodes@[i].run_state is Idle ==> after.buffers.pending().len() == 0
            && after.buffers.readable().len() == 0,
        (forall|j: int|
            0 <= j < storage.nodes@.len() && (#[trigger]
            storage.nodes@[j]).node.ports.first_subscriber <= s
                < storage.nodes@[j].node.ports.first_subscriber
                + storage.nodes@[j].node.ports.subscriber_count ==> !(
            storage.nodes@[j].run_state is Idle)) ==> after == before,
{
    if storage.nodes@[i].run_state is Idle {
        assert(storage.nodes@[i].run_state is Idle
            && storage.nodes@[i].node.ports.owns_subscriber(s));
        assert(storage.idle_owner(storage.nodes@.len() as int, s));
    }
}

/// A test fixture shows the newest messages that arrived, as many as fit, oldest
/// first.
pub proof fn law_fixture_shows_the_newest(subscriber: Subscriber)
    ensures
        ({
            let all = subscriber.buffers.readable() + subscriber.buffers.pending();
            let shown = crate::unit_test_builder::captured(subscriber);
            let lost = all.len() - shown.len();
            &&& shown.len() <= all.len()
            &&& shown.len() <= subscriber.config.capacity
            &&& shown.len() == subscriber.config.capacity || shown.len() == all.len()
            &&& forall|i: int| 0 <= i < shown.len() ==> #[trigger] shown[i] == all[lost + i]
        }),
{
}

/// A channel can be captured exactly if some node writes it, and fed exactly if
/// some node reads it.
pub proof fn law_fixtures_need_another_end<T>(nodes: Seq<CallbackNode<T>>, channel: Seq<char>)
    ensures
        crate::unit_test_builder::has_reader(nodes, channel) <==> exists|n: int, i: int|
            0 <= n < nodes.len() && 0 <= i < nodes[n].subscribers@.len() && (#[trigger]
            nodes[n].subscribers@[i]).config.channel_name@ == channel,
        crate::unit_test_builder::has_writer(nodes, channel) <==> exists|n: int, i: int|
            0 <= n < nodes.len() && 0 <= i < nodes[n].publishers@.len() && (#[trigger]
            nodes[n].publishers@[i]).config.channel_name@ == channel,
{
    if crate::unit_test_builder::has_reader(nodes, channel) {
        let (n, i) = choose|n: int, i: int| #[trigger]
            crate::unit_test_builder::reads(nodes, channel, n, i);
        assert(nodes[n].subscribers@[i].config.channel_name@ == channel);
    }
    if exists|n: int, i: int|
        0 <= n < nodes.len() && 0 <= i < nodes[n].subscribers@.len() && (#[trigger]
        nodes[n].subscribers@[i]).config.channel_name@ == channel {
        let (n, i) = choose|n: int, i: int|
            0 <= n < nodes.len() && 0 <= i < nodes[n].subscribers@.len() && (#[trigger]
            nodes[n].subscribers@[i]).config.channel_name@ == channel;
        assert(crate::unit_test_builder::reads(nodes, channel, n, i));
    }
    if crate::unit_test_builder::has_writer(nodes, channel) {
        let (n, i) = choose|n: int, i: int| #[trigger]
            crate::unit_test_builder::writes(nodes, channel, n, i);
        assert(nodes[n].publishers@[i].config.channel_name@ == channel);
    }
    if exists|n: int, i: int|
        0 <= n < nodes.len() && 0 <= i < nodes[n].publishers@.len() && (#[trigger]
        nodes[n].publishers@[i]).config.channel_name@ == channel {
        let (n, i) = choose|n: int, i: int|
            0 <= n < nodes.len() && 0 <= i < nodes[n].publishers@.len() && (#[trigger]
            nodes[n].publishers@[i]).config.channel_name@ == channel;
        assert(crate::unit_test_builder::writes(nodes, channel, n, i));
    }
}

/// A fixture that captures a channel reads it with the capacity that was asked
/// for, keeps what it read, and never makes its node run.
pub proof fn law_captures_do_not_disturb<T>(
    before: UnitTestExecutorBuilder<T>,
    after: UnitTestExecutorBuilder<T>,
    channel: Seq<char>,
    value_type: u64,
    capacity: usize,
    r: Result<TestSubscriber, FixtureError>,
)
    requires
        before.captures(after, channel, value_type, capacity, r),
    ensures
        r is Ok <==> {
            &&& exists|n: int, i: int|
                0 <= n < before.nodes@.len() && 0 <= i < before.nodes@[n].publishers@.len() && (
                #[trigger] before.nodes@[n].publishers@[i]).config.channel_name@ == channel
            &&& forall|n: int, i: int|
                0 <= n < before.nodes@.len() && 0 <= i < before.nodes@[n].publishers@.len() && (
                #[trigger] before.nodes@[n].publishers@[i]).config.channel_name@ == channel
                    ==> before.nodes@[n].publishers@[i].value_type == value_type
        },
        r is Err ==> after.fixtures == before.fixtures,
        r is Ok ==> {
            let fixture = after.fixtures@[before.fixtures@.len() as int];
            let port = fixture.subscribers@[0];
            &&& r->Ok_0.fixture == before.fixtures@.len()
            &&& after.fixtures@.len() == before.fixtures@.len() + 1
            &&& fixture.subscribers@.len() == 1
            &&& fixture.publishers@.len() == 0
            &&& port.config.channel_name@ == channel
            &&& port.config.capacity == capacity
            &&& port.config.is_optional
            &&& !port.config.is_trigger
            &&& port.config.keep_across_runs
            &&& port.value_type == value_type
        },
{
    law_fixtures_need_another_end(before.nodes@, channel);
    let nodes = before.nodes@;
    if r is Ok {
        assert(after.fixtures@.last() == after.fixtures@[before.fixtures@.len() as int]);
        assert forall|n: int, i: int|
            0 <= n < nodes.len() && 0 <= i < nodes[n].publishers@.len() && (#[trigger]
            nodes[n].publishers@[i]).config.channel_name@ == channel implies nodes[n].publishers@[i].value_type
            == value_type by {
            assert(!crate::unit_test_builder::writes_other(nodes, channel, value_type, n, i));
        }
    } else if crate::unit_test_builder::has_writer(nodes, channel) {
        let (n, i) = choose|n: int, i: int| #[trigger]
            crate::unit_test_builder::writes_other(nodes, channel, value_type, n, i);
        assert(nodes[n].publishers@[i].value_type != value_type);
    }
}

/// A test executor runs every node that it was given, with its callback and its
/// ports, and no other.
pub proof fn law_test_executor_runs_every_node<T>(
    executor: UnitTestExecutor<T>,
    nodes: Seq<CallbackNode<T>>,
    n: int,
)
    requires
        crate::unit_test_builder::executes(executor, nodes),
        0 <= n < nodes.len(),
    ensures
        executor.simulation_state.nodes.nodes@.len() == nodes.len(),
        executor.simulation_state.nodes.nodes@[n].node.name == nodes[n].name,
        executor.simulation_state.nodes.nodes@[n].node.callback == nodes[n].callback,
        executor.simulation_state.nodes.nodes@[n].node.subscribers == nodes[n].subscribers,
        executor.simulation_state.nodes.nodes@[n].node.publishers == nodes[n].publishers,
        executor.simulation_state.nodes.nodes@[n].node.execution_duration_callback
            == nodes[n].execution_duration_callback,
        executor.simulation_state.nodes.nodes@[n].node.next_execution_time_callback
            == nodes[n].next_execution_time_callback,
{
    assert(crate::unit_test_builder::same_but_place(
        executor.simulation_state.nodes.nodes@[n].node,
        nodes[n],
    ));
}

/// A node whose callback decides when it runs asks for what the callback wants.
pub proof fn law_callbacks_may_schedule_themselves<T>(
    node: CallbackNode<T>,
    memory: Memory,
    now: FrameworkTime,
    next: Option<FrameworkTime>,
)
    requires
        node.next_execution_time_callback is ByCallback,
    ensures
        node.asks(memory, now, next) <==> next == node.callback.inner.wants(memory),
{
}

} // verus!
