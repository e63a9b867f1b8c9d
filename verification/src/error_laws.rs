//! What error messages are for: whoever reads one can tell which channels and
//! which nodes are meant.
use vstd::prelude::*;

use crate::callback_builder::{CallbackBuildError, CallbackBuilder};
use crate::execution_log::ExecutionLogConnectError;
use crate::task_graph_builder::TaskGraphBuildError;
use crate::unit_test_builder::FixtureError;
use crate::unit_test_iox2::Iox2FixtureError;

verus! {

/// Whether `part` stands somewhere in `text`.
pub open spec fn mentions(text: Seq<char>, part: Seq<char>) -> bool {
    exists|i: int, j: int| 0 <= i <= j <= text.len() && #[trigger] text.subrange(i, j) == part
}

proof fn lemma_mentions(before: Seq<char>, part: Seq<char>, after: Seq<char>)
    ensures
        mentions(before + part + after, part),
{
    let text = before + part + after;
    let i = before.len() as int;
    let j = before.len() + part.len();
    assert(text.subrange(i, j as int) =~= part);
}

/// Where a text ends with a part, it mentions it.
proof fn lemma_mentions_last(before: Seq<char>, part: Seq<char>)
    ensures
        mentions(before + part, part),
{
    lemma_mentions(before, part, Seq::empty());
    assert(before + part + Seq::<char>::empty() =~= before + part);
}

/// The message for a channel with two payload types names the node that
/// publishes, then the channel, then the node that reads it.
pub proof fn law_mismatch_is_told_in_order(error: TaskGraphBuildError) -> (r: (int, int, int))
    requires
        error is ConnectionError,
    ensures
        ({
            let e = error->ConnectionError_0;
            let text = error.text();
            &&& 0 <= r.0
            &&& r.0 + e.publisher_callback_node@.len() <= r.1
            &&& r.1 + e.channel_name@.len() <= r.2
            &&& r.2 + e.subscriber_callback_node@.len() <= text.len()
            &&& text.subrange(r.0, r.0 + e.publisher_callback_node@.len())
                == e.publisher_callback_node@
            &&& text.subrange(r.1, r.1 + e.channel_name@.len()) == e.channel_name@
            &&& text.subrange(r.2, r.2 + e.subscriber_callback_node@.len())
                == e.subscriber_callback_node@
        }),
{
    let e = error->ConnectionError_0;
    let text = error.text();
    let a = "Callback node '"@.len() as int;
    let b = a + e.publisher_callback_node@.len() + "' publishes on '"@.len();
    let c = b + e.channel_name@.len() + "' but subscriber callback node '"@.len();
    assert(text.subrange(a, a + e.publisher_callback_node@.len()) =~= e.publisher_callback_node@);
    assert(text.subrange(b, b + e.channel_name@.len()) =~= e.channel_name@);
    assert(text.subrange(c, c + e.subscriber_callback_node@.len())
        =~= e.subscriber_callback_node@);
    (a, b, c)
}

/// The message for a graph that cannot be built names what it is about: the
/// step or the callback and its error, or the channel and the reason.
pub proof fn law_build_errors_name_their_cause(error: TaskGraphBuildError)
    ensures
        match error {
            TaskGraphBuildError::ConnectionError(e) => mentions(
                error.text(),
                e.publisher_callback_node@,
            ),
            TaskGraphBuildError::BuildStepError { step_name, error: cause } => mentions(
                error.text(),
                step_name@,
            ) && mentions(error.text(), cause@),
            TaskGraphBuildError::CallbackBuildError { callback_name, error: cause } => mentions(
                error.text(),
                callback_name@,
            ) && mentions(error.text(), cause.text()),
            TaskGraphBuildError::ExecutionLogError(e) => mentions(error.text(), e.text()),
            TaskGraphBuildError::MixedTransport { channel } => mentions(error.text(), channel@),
            TaskGraphBuildError::MixedPayloadType { channel } => mentions(error.text(), channel@),
            TaskGraphBuildError::InvalidServiceName { channel, reason } => mentions(
                error.text(),
                channel@,
            ) && mentions(error.text(), reason@),
            TaskGraphBuildError::Iox2ServiceOpen { channel, source } => mentions(
                error.text(),
                channel@,
            ) && mentions(error.text(), source@),
            TaskGraphBuildError::Iox2NodeCreation { source } => mentions(error.text(), source@),
        },
{
    match error {
        TaskGraphBuildError::ConnectionError(e) => {
            let (a, b, c) = law_mismatch_is_told_in_order(error);
            assert(error.text().subrange(a, a + e.publisher_callback_node@.len())
                == e.publisher_callback_node@);
        },
        TaskGraphBuildError::BuildStepError { step_name, error: cause } => {
            let rest = "' failed with "@ + cause@;
            lemma_mentions("Build step '"@, step_name@, rest);
            assert(error.text() =~= "Build step '"@ + step_name@ + rest);
            lemma_mentions_last("Build step '"@ + step_name@ + "' failed with "@, cause@);
        },
        TaskGraphBuildError::CallbackBuildError { callback_name, error: cause } => {
            let rest = "' build failed with "@ + cause.text();
            lemma_mentions("Callback node '"@, callback_name@, rest);
            assert(error.text() =~= "Callback node '"@ + callback_name@ + rest);
            lemma_mentions_last(
                "Callback node '"@ + callback_name@ + "' build failed with "@,
                cause.text(),
            );
        },
        TaskGraphBuildError::ExecutionLogError(e) => {
            lemma_mentions_last("Execution log wiring failed: "@, e.text());
        },
        TaskGraphBuildError::MixedTransport { channel } => {
            lemma_mentions(
                "channel "@,
                channel@,
                " mixes transports: its endpoints are native and iox2"@,
            );
        },
        TaskGraphBuildError::MixedPayloadType { channel } => {
            lemma_mentions_last(
                "iox2 endpoints disagree on the payload type of channel "@,
                channel@,
            );
        },
        TaskGraphBuildError::InvalidServiceName { channel, reason } => {
            let rest = ": "@ + reason@;
            lemma_mentions("no iox2 service name for channel "@, channel@, rest);
            assert(error.text() =~= "no iox2 service name for channel "@ + channel@ + rest);
            lemma_mentions_last(
                "no iox2 service name for channel "@ + channel@ + ": "@,
                reason@,
            );
        },
        TaskGraphBuildError::Iox2ServiceOpen { channel, source } => {
            let rest = ": "@ + source@;
            lemma_mentions("iox2 service open failed for channel "@, channel@, rest);
            assert(error.text() =~= "iox2 service open failed for channel "@ + channel@ + rest);
            lemma_mentions_last(
                "iox2 service open failed for channel "@ + channel@ + ": "@,
                source@,
            );
        },
        TaskGraphBuildError::Iox2NodeCreation { source } => {
            lemma_mentions_last("iox2 node creation failed: "@, source@);
        },
    }
}

/// The message for execution logs that cannot be connected names the channel and
/// the node that listens to it.
pub proof fn law_log_errors_name_their_listener(error: ExecutionLogConnectError)
    ensures
        mentions(error.text(), error.channel_name@),
        mentions(error.text(), error.subscriber_node@),
{
    let end = "') is not a Subscriber<ExecutionLogMessage>"@;
    let rest = "' (node '"@ + error.subscriber_node@ + end;
    lemma_mentions("Subscriber on channel '"@, error.channel_name@, rest);
    assert(error.text() =~= "Subscriber on channel '"@ + error.channel_name@ + rest);
    lemma_mentions(
        "Subscriber on channel '"@ + error.channel_name@ + "' (node '"@,
        error.subscriber_node@,
        end,
    );
}

/// The message for a port count that does not fit tells both counts.
pub proof fn law_count_errors_tell_both_counts(error: CallbackBuildError)
    ensures
        match error {
            CallbackBuildError::MismatchedPublisherCount(e) => mentions(
                error.text(),
                crate::text::decimal(e.expected as nat),
            ) && mentions(error.text(), crate::text::decimal(e.actual as nat)),
            CallbackBuildError::MismatchedSubscriberCount(e) => mentions(
                error.text(),
                crate::text::decimal(e.expected as nat),
            ) && mentions(error.text(), crate::text::decimal(e.actual as nat)),
            CallbackBuildError::MissingExecutionDurationCallback => true,
        },
{
    match error {
        CallbackBuildError::MismatchedPublisherCount(e) => {
            let expected = crate::text::decimal(e.expected as nat);
            let actual = crate::text::decimal(e.actual as nat);
            let start = "Number of configured subscribers doesn't match callback "@
                + "expected: "@;
            lemma_mentions(start, expected, ", actual: "@ + actual);
            assert(error.text() =~= start + expected + (", actual: "@ + actual));
            lemma_mentions_last(start + expected + ", actual: "@, actual);
            assert(error.text() =~= start + expected + ", actual: "@ + actual);
        },
        CallbackBuildError::MismatchedSubscriberCount(e) => {
            let expected = crate::text::decimal(e.expected as nat);
            let actual = crate::text::decimal(e.actual as nat);
            let start = "Number of configured publisher doesn't match callback "@ + "expected: "@;
            lemma_mentions(start, expected, ", actual: "@ + actual);
            assert(error.text() =~= start + expected + (", actual: "@ + actual));
            lemma_mentions_last(start + expected + ", actual: "@, actual);
            assert(error.text() =~= start + expected + ", actual: "@ + actual);
        },
        CallbackBuildError::MissingExecutionDurationCallback => {},
    }
}

/// The message for a test fixture that cannot be added names its channel, and
/// the node whose type is another.
pub proof fn law_fixture_errors_name_their_channel(error: FixtureError)
    ensures
        match error {
            FixtureError::NoSubscriber { channel } => mentions(error.text(), channel@),
            FixtureError::NoPublisher { channel } => mentions(error.text(), channel@),
            FixtureError::PublisherMismatch { channel, node } => mentions(error.text(), channel@)
                && mentions(error.text(), node@),
            FixtureError::SubscriberMismatch { channel, node } => mentions(error.text(), channel@)
                && mentions(error.text(), node@),
        },
{
    match error {
        FixtureError::NoSubscriber { channel } => {
            lemma_mentions("No subscriber for channel '"@, channel@, "'"@);
        },
        FixtureError::NoPublisher { channel } => {
            lemma_mentions("No publisher for channel '"@, channel@, "'"@);
        },
        FixtureError::PublisherMismatch { channel, node } => {
            let start = "Type mismatch connecting TestPublisher to channel '"@;
            let middle = "' on callback node '"@;
            lemma_mentions(start, channel@, middle + node@ + "'"@);
            assert(error.text() =~= start + channel@ + (middle + node@ + "'"@));
            lemma_mentions(start + channel@ + middle, node@, "'"@);
        },
        FixtureError::SubscriberMismatch { channel, node } => {
            let start = "Type mismatch connecting TestSubscriber to channel '"@;
            let middle = "' on callback node '"@;
            lemma_mentions(start, channel@, middle + node@ + "'"@);
            assert(error.text() =~= start + channel@ + (middle + node@ + "'"@));
            lemma_mentions(start + channel@ + middle, node@, "'"@);
        },
    }
}

/// The message for a shared-memory fixture that cannot be added names its
/// channel.
pub proof fn law_outside_fixture_errors_name_their_channel(error: Iox2FixtureError)
    ensures
        match error {
            Iox2FixtureError::NativeSubscriber { channel } => mentions(error.text(), channel@),
            Iox2FixtureError::NoDataSubscriber { channel } => mentions(error.text(), channel@),
            Iox2FixtureError::PublisherMismatch { channel } => mentions(error.text(), channel@),
            Iox2FixtureError::NoEventSubscriber { channel } => mentions(error.text(), channel@),
            Iox2FixtureError::NoPublisher { channel } => mentions(error.text(), channel@),
            Iox2FixtureError::SubscriberMismatch { channel } => mentions(error.text(), channel@),
        },
{
    match error {
        Iox2FixtureError::NativeSubscriber { channel } => {
            lemma_mentions(
                "Channel '"@,
                channel@,
                "' has a native subscriber; iox2 and native transports cannot be mixed"@,
            );
        },
        Iox2FixtureError::NoDataSubscriber { channel } => {
            lemma_mentions("No iox2 data subscriber for channel '"@, channel@, "'"@);
        },
        Iox2FixtureError::PublisherMismatch { channel } => {
            lemma_mentions(
                "Type mismatch connecting iox2 test publisher to channel '"@,
                channel@,
                "'"@,
            );
        },
        Iox2FixtureError::NoEventSubscriber { channel } => {
            lemma_mentions("No iox2 event subscriber for channel '"@, channel@, "'"@);
        },
        Iox2FixtureError::NoPublisher { channel } => {
            lemma_mentions("No publisher for iox2 capture channel '"@, channel@, "'"@);
        },
        Iox2FixtureError::SubscriberMismatch { channel } => {
            lemma_mentions(
                "Type mismatch connecting iox2 test subscriber to channel '"@,
                channel@,
                "'"@,
            );
        },
    }
}

/// A node has all that its builder collected.
pub proof fn law_built_node_has_what_was_collected<T>(builder: CallbackBuilder<T>)
    ensures
        builder.node().name == builder.name,
        builder.node().subscribers == builder.subscribers,
        builder.node().publishers == builder.publishers,
        builder.node().callback == builder.generic_callback,
        builder.node().log_executions == builder.log_executions,
        builder.node().next_execution_time_callback == builder.next_execution_time_callback,
        builder.node().execution_duration_callback == builder.execution_duration_callback,
        builder.node().id is None,
{
}

} // verus!
