//! Step-by-step construction of callback nodes.
use vstd::prelude::*;

use crate::callback::{
    AnyCallback, AnyDuration, AnySchedule, CallbackNode, PublisherPort, SubscriberPort,
};
use crate::time::Duration;

verus! {

#[derive(Debug, Copy, Clone, PartialEq, Eq, Structural)]
pub struct ExpectedVsActual {
    pub expected: usize,
    pub actual: usize,
}

impl ExpectedVsActual {
    /// The two numbers as a message.
    pub open spec fn text(self) -> Seq<char> {
        "expected: "@ + crate::text::decimal(self.expected as nat) + ", actual: "@
            + crate::text::decimal(self.actual as nat)
    }

    pub fn to_string(&self) -> (r: String)
        ensures
            r@ == self.text(),
    {
        let mut text = "expected: ".to_owned();
        crate::text::push_usize(&mut text, self.expected);
        text.append(", actual: ");
        crate::text::push_usize(&mut text, self.actual);
        text
    }
}

#[derive(Debug, Copy, Clone, PartialEq, Eq, Structural)]
pub enum CallbackBuildError {
    MismatchedSubscriberCount(ExpectedVsActual),
    MismatchedPublisherCount(ExpectedVsActual),
    MissingExecutionDurationCallback,
}

impl CallbackBuildError {
    /// The error as a message.
    pub open spec fn text(self) -> Seq<char> {
        match self {
            CallbackBuildError::MismatchedPublisherCount(e) =>
            "Number of configured subscribers doesn't match callback "@ + e.text(),
            CallbackBuildError::MismatchedSubscriberCount(e) =>
            "Number of configured publisher doesn't match callback "@ + e.text(),
            CallbackBuildError::MissingExecutionDurationCallback =>
            "No execution duration callback was added."@,
        }
    }

    pub fn to_string(&self) -> (r: String)
        ensures
            r@ == self.text(),
    {
        match self {
            CallbackBuildError::MismatchedPublisherCount(e) => {
                let mut text = "Number of configured subscribers doesn't match callback ".to_owned();
                text.append(e.to_string().as_str());
                text
            },
            CallbackBuildError::MismatchedSubscriberCount(e) => {
                let mut text = "Number of configured publisher doesn't match callback ".to_owned();
                text.append(e.to_string().as_str());
                text
            },
            CallbackBuildError::MissingExecutionDurationCallback =>
            "No execution duration callback was added.".to_owned(),
        }
    }
}

/// Collects what a callback node needs.
#[verifier::reject_recursive_types(T)]
pub struct CallbackBuilder<T> {
    pub generic_callback: AnyCallback<T>,
    pub subscribers: Vec<SubscriberPort>,
    pub publishers: Vec<PublisherPort>,
    /// When the node wants to run next; never, unless a step says otherwise.
    pub next_execution_time_callback: AnySchedule,
    pub execution_duration_callback: Option<AnyDuration>,
    pub log_executions: bool,
    pub name: String,
    pub first_error: Option<CallbackBuildError>,
}

/// Whether `after` are the inputs `before` with the given channel names.
pub open spec fn subscribers_named(
    before: Seq<SubscriberPort>,
    after: Seq<SubscriberPort>,
    names: Seq<&str>,
) -> bool {
    &&& after.len() == before.len()
    &&& forall|i: int|
        0 <= i < before.len() ==> {
            &&& (#[trigger] after[i]).config.channel_name@ == names[i]@
            &&& same_input_but_name(before[i], after[i])
        }
}

pub open spec fn same_input_but_name(before: SubscriberPort, after: SubscriberPort) -> bool {
    &&& after.value_type == before.value_type
    &&& after.config.is_optional == before.config.is_optional
    &&& after.config.capacity == before.config.capacity
    &&& after.config.is_trigger == before.config.is_trigger
    &&& after.config.keep_across_runs == before.config.keep_across_runs
}

/// Whether `after` are the outputs `before` with the given channel names.
pub open spec fn publishers_named(
    before: Seq<PublisherPort>,
    after: Seq<PublisherPort>,
    names: Seq<&str>,
) -> bool {
    &&& after.len() == before.len()
    &&& forall|i: int|
        0 <= i < before.len() ==> {
            &&& (#[trigger] after[i]).config.channel_name@ == names[i]@
            &&& after[i].config.capacity == before[i].config.capacity
            &&& after[i].value_type == before[i].value_type
            &&& after[i].forwarded_channels == before[i].forwarded_channels
        }
}

/// Renaming channels keeps which inputs gate their node.
proof fn lemma_names_keep_gating(before: Seq<SubscriberPort>, after: Seq<SubscriberPort>)
    requires
        after.len() == before.len(),
        forall|i: int| 0 <= i < before.len() ==> same_input_but_name(before[i], #[trigger] after[i]),
    ensures
        crate::callback::gating_count(after) == crate::callback::gating_count(before),
    decreases before.len(),
{
    if before.len() > 0 {
        let b = before.drop_last();
        let a = after.drop_last();
        assert forall|i: int| 0 <= i < b.len() implies same_input_but_name(b[i], #[trigger] a[i]) by {
            assert(a[i] == after[i]);
        }
        lemma_names_keep_gating(b, a);
        assert(same_input_but_name(before.last(), after[after.len() - 1]));
    }
}

impl<T> CallbackBuilder<T> {
    pub open spec fn wf(&self) -> bool {
        crate::callback::subscriber_ports_valid(self.subscribers@)
    }

    /// Why `build` fails, if it does: the first error of the steps so far, else
    /// a missing execution duration.
    pub open spec fn error(&self) -> Option<CallbackBuildError> {
        if self.first_error is Some {
            self.first_error
        } else if self.execution_duration_callback is None {
            Some(CallbackBuildError::MissingExecutionDurationCallback)
        } else {
            None
        }
    }

    /// What naming the channels of the inputs makes of the builder.
    pub open spec fn names_subscribers(self, r: Self, names: Seq<&str>) -> bool {
        &&& names.len() == self.subscribers@.len() ==> subscribers_named(
            self.subscribers@,
            r.subscribers@,
            names,
        ) && r.first_error == self.first_error
        &&& names.len() != self.subscribers@.len() ==> r.subscribers == self.subscribers
            && r.first_error == if self.first_error is Some {
            self.first_error
        } else {
            Some(
                CallbackBuildError::MismatchedSubscriberCount(
                    ExpectedVsActual {
                        expected: self.subscribers@.len() as usize,
                        actual: names.len() as usize,
                    },
                ),
            )
        }
        &&& r == (CallbackBuilder {
            subscribers: r.subscribers,
            first_error: r.first_error,
            ..self
        })
    }

    /// What naming the channels of the outputs makes of the builder.
    pub open spec fn names_publishers(self, r: Self, names: Seq<&str>) -> bool {
        &&& names.len() == self.publishers@.len() ==> publishers_named(
            self.publishers@,
            r.publishers@,
            names,
        ) && r.first_error == self.first_error
        &&& names.len() != self.publishers@.len() ==> r.publishers == self.publishers
            && r.first_error == if self.first_error is Some {
            self.first_error
        } else {
            Some(
                CallbackBuildError::MismatchedPublisherCount(
                    ExpectedVsActual {
                        expected: self.publishers@.len() as usize,
                        actual: names.len() as usize,
                    },
                ),
            )
        }
        &&& r == (CallbackBuilder { publishers: r.publishers, first_error: r.first_error, ..self })
    }

    /// The node that the steps so far describe.
    pub open spec fn node(&self) -> CallbackNode<T> {
        CallbackNode {
            subscribers: self.subscribers,
            publishers: self.publishers,
            callback: self.generic_callback,
            next_execution_time_callback: self.next_execution_time_callback,
            execution_duration_callback: self.execution_duration_callback,
            name: self.name,
            log_executions: self.log_executions,
            id: None,
            ports: crate::callback::no_ports(),
        }
    }

    pub fn name(&self) -> (r: &str)
        ensures
            r@ == self.name@,
    {
        self.name.as_str()
    }

    pub fn new(name: String, callback: AnyCallback<T>) -> (r: Self)
        ensures
            r.wf(),
            r.name == name,
            r.generic_callback == callback,
            callback.inner.inputs_are(r.subscribers@),
            callback.inner.outputs_are(r.publishers@),
            forall|
                wanted: Option<crate::time::FrameworkTime>,
                now: crate::time::FrameworkTime,
                next: Option<crate::time::FrameworkTime>,
            | #[trigger]
                r.next_execution_time_callback.allows(wanted, now, next) ==> next is None,
            r.execution_duration_callback is None,
            !r.log_executions,
            r.first_error is None,
    {
        CallbackBuilder {
            name,
            subscribers: callback.inner.build_subscribers(),
            publishers: callback.inner.build_publishers(),
            generic_callback: callback,
            next_execution_time_callback: AnySchedule::on_data_only(),
            execution_duration_callback: None,
            log_executions: false,
            first_error: None,
        }
    }

    /// Override the callback node's name.
    pub fn with_name(self, name: String) -> (r: Self)
        ensures
            r == (CallbackBuilder { name, ..self }),
    {
        let mut builder = self;
        builder.name = name;
        builder
    }

    /// Run this callback once every `period`, starting `period` after the
    /// previous execution.
    pub fn with_periodic_execution(self, period: Duration) -> (r: Self)
        ensures
            forall|
                wanted: Option<crate::time::FrameworkTime>,
                now: crate::time::FrameworkTime,
                next: Option<crate::time::FrameworkTime>,
            | #[trigger]
                r.next_execution_time_callback.allows(wanted, now, next) <==> next == Some(
                    crate::time::saturated_time_after(now, period),
                ),
            r == (CallbackBuilder {
                next_execution_time_callback: r.next_execution_time_callback,
                ..self
            }),
    {
        let mut builder = self;
        builder.next_execution_time_callback = AnySchedule::periodic(period);
        builder
    }

    /// Names the channels of the inputs, in order. It is an error if there are
    /// more or fewer names than inputs; the first error is kept.
    pub fn with_subscriber_channels(self, subscriber_channels: &[&str]) -> (r: Self)
        requires
            self.wf(),
        ensures
            r.wf(),
            self.names_subscribers(r, subscriber_channels@),
    {
        let mut builder = self;
        if subscriber_channels.len() != builder.subscribers.len() {
            if builder.first_error.is_none() {
                builder.first_error = Some(
                    CallbackBuildError::MismatchedSubscriberCount(
                        ExpectedVsActual {
                            expected: builder.subscribers.len(),
                            actual: subscriber_channels.len(),
                        },
                    ),
                );
            }
            return builder;
        }
        let mut i: usize = 0;
        while i < subscriber_channels.len()
            invariant
                i <= subscriber_channels@.len(),
                subscriber_channels@.len() == self.subscribers@.len(),
                builder == (CallbackBuilder { subscribers: builder.subscribers, ..self }),
                builder.subscribers@.len() == self.subscribers@.len(),
                forall|j: int|
                    0 <= j < self.subscribers@.len() ==> same_input_but_name(
                        self.subscribers@[j],
                        #[trigger] builder.subscribers@[j],
                    ),
                forall|j: int|
                    0 <= j < i ==> (#[trigger] builder.subscribers@[j]).config.channel_name@
                        == subscriber_channels@[j]@,
            decreases subscriber_channels@.len() - i,
        {
            let ghost before = builder.subscribers@;
            builder.subscribers[i].config.channel_name = subscriber_channels[i].to_owned();
            proof {
                assert(same_input_but_name(self.subscribers@[i as int], before[i as int]));
                assert forall|j: int| 0 <= j < self.subscribers@.len() implies same_input_but_name(
                    self.subscribers@[j],
                    #[trigger] builder.subscribers@[j],
                ) by {
                    assert(same_input_but_name(self.subscribers@[j], before[j]));
                }
            }
            i = i + 1;
        }
        proof {
            lemma_names_keep_gating(self.subscribers@, builder.subscribers@);
            assert forall|j: int| 0 <= j < builder.subscribers@.len() implies (#[trigger]
            builder.subscribers@[j]).config.valid() by {
                assert(same_input_but_name(self.subscribers@[j], builder.subscribers@[j]));
                assert(self.subscribers@[j].config.valid());
            }
        }
        builder
    }

    /// Names the channels of the outputs, in order. It is an error if there are
    /// more or fewer names than outputs; the first error is kept.
    pub fn with_publisher_channels(self, publisher_channels: &[&str]) -> (r: Self)
        ensures
            self.names_publishers(r, publisher_channels@),
    {
        let mut builder = self;
        if publisher_channels.len() != builder.publishers.len() {
            if builder.first_error.is_none() {
                builder.first_error = Some(
                    CallbackBuildError::MismatchedPublisherCount(
                        ExpectedVsActual {
                            expected: builder.publishers.len(),
                            actual: publisher_channels.len(),
                        },
                    ),
                );
            }
            return builder;
        }
        let mut i: usize = 0;
        while i < publisher_channels.len()
            invariant
                i <= publisher_channels@.len(),
                publisher_channels@.len() == self.publishers@.len(),
                builder == (CallbackBuilder { publishers: builder.publishers, ..self }),
                builder.publishers@.len() == self.publishers@.len(),
                forall|j: int|
                    0 <= j < self.publishers@.len() ==> {
                        &&& (#[trigger] builder.publishers@[j]).config.capacity
                            == self.publishers@[j].config.capacity
                        &&& builder.publishers@[j].value_type == self.publishers@[j].value_type
                        &&& builder.publishers@[j].forwarded_channels
                            == self.publishers@[j].forwarded_channels
                    },
                forall|j: int|
                    0 <= j < i ==> (#[trigger] builder.publishers@[j]).config.channel_name@
                        == publisher_channels@[j]@,
            decreases publisher_channels@.len() - i,
        {
            builder.publishers[i].config.channel_name = publisher_channels[i].to_owned();
            i = i + 1;
        }
        builder
    }

    pub fn with_execution_duration_callback(self, callback: AnyDuration) -> (r: Self)
        ensures
            r == (CallbackBuilder { execution_duration_callback: Some(callback), ..self }),
    {
        let mut builder = self;
        builder.execution_duration_callback = Some(callback);
        builder
    }

    pub fn with_next_execution_time_callback(self, callback: AnySchedule) -> (r:
        Self)
        ensures
            r == (CallbackBuilder { next_execution_time_callback: callback, ..self }),
    {
        let mut builder = self;
        builder.next_execution_time_callback = callback;
        builder
    }

    pub fn with_execution_logging(self, enabled: bool) -> (r: Self)
        ensures
            r == (CallbackBuilder { log_executions: enabled, ..self }),
    {
        let mut builder = self;
        builder.log_executions = enabled;
        builder
    }

    /// The node, unless a step failed or the execution duration is missing.
    pub fn build(self) -> (r: Result<CallbackNode<T>, CallbackBuildError>)
        requires
            self.wf(),
        ensures
            r is Ok <==> self.error() is None,
            r matches Err(error) ==> self.error() == Some(error),
            r matches Ok(node) ==> node.wf() && node == self.node(),
    {
        if let Some(error) = self.first_error {
            return Err(error);
        }
        if self.execution_duration_callback.is_none() {
            return Err(CallbackBuildError::MissingExecutionDurationCallback);
        }
        let mut node = CallbackNode::new_with(
            self.generic_callback,
            self.subscribers,
            self.publishers,
            self.name,
        );
        node.set_log_executions(self.log_executions);
        node.execution_duration_callback = self.execution_duration_callback;
        node.set_execution_time_callback(self.next_execution_time_callback);
        Ok(node)
    }
}

/// The first error wins: once naming the inputs or the outputs has failed, no
/// later naming changes what `build` reports.
pub proof fn law_first_error_wins<T>(
    builder: CallbackBuilder<T>,
    failed: CallbackBuilder<T>,
    later: CallbackBuilder<T>,
    wrong: Seq<&str>,
    names: Seq<&str>,
)
    requires
        builder.first_error is None,
        ({
            ||| builder.names_subscribers(failed, wrong) && wrong.len() != builder.subscribers@.len()
            ||| builder.names_publishers(failed, wrong) && wrong.len() != builder.publishers@.len()
        }),
        failed.names_subscribers(later, names) || failed.names_publishers(later, names),
    ensures
        failed.first_error is Some,
        later.error() == failed.first_error,
{
}

} // verus!
