//! Building a connected set of callback nodes.
use vstd::prelude::*;

use crate::callback::CallbackNode;
use crate::connect::MismatchTypeError;
use crate::pub_sub::PubSub;

verus! {

/// Allows for introspection on the entire set of nodes so that new nodes can be
/// added that are derived from the existing ones. For example, a step can add
/// logging or diagnostic nodes. Steps are run in the order in which they were
/// added, and a given step can be run several times.
pub trait BuildStep<T> {
    /// What the step may answer. A step that promises nothing more leaves it
    /// open.
    open spec fn adds(
        &self,
        existing: Seq<CallbackNode<T>>,
        r: Result<Vec<CallbackNode<T>>, String>,
    ) -> bool {
        true
    }

    /// Exposes access to all existing nodes. Allows the step to return
    /// additional nodes to add, if desired.
    fn build_step(&self, callbacks: &Vec<CallbackNode<T>>) -> (r: Result<
        Vec<CallbackNode<T>>,
        String,
    >)
        ensures
            self.adds(callbacks@, r),
            r matches Ok(nodes) ==> forall|n: int|
                0 <= n < nodes@.len() ==> (#[trigger] nodes@[n]).wf(),
    ;
}

/// A build step of whatever kind.
#[verifier::reject_recursive_types(T)]
pub struct AnyBuildStep<T> {
    pub inner: Box<dyn BuildStep<T>>,
}

/// Whether the first `k` steps can take the nodes from `start` to `nodes`.
pub open spec fn reaches<T>(
    start: Seq<CallbackNode<T>>,
    steps: Seq<AnyBuildStep<T>>,
    k: int,
    nodes: Seq<CallbackNode<T>>,
) -> bool
    decreases k,
{
    if k <= 0 {
        nodes == start
    } else {
        exists|before: Seq<CallbackNode<T>>, added: Vec<CallbackNode<T>>| #[trigger]
            steps[k - 1].inner.adds(before, Ok(added)) && reaches(start, steps, k - 1, before)
                && nodes == before + added@
    }
}

/// Whether step `k` can fail with `error`.
pub open spec fn fails_at<T>(
    start: Seq<CallbackNode<T>>,
    steps: Seq<AnyBuildStep<T>>,
    k: int,
    error: String,
) -> bool {
    &&& 0 <= k < steps.len()
    &&& exists|before: Seq<CallbackNode<T>>| #[trigger]
        steps[k].inner.adds(before, Err(error)) && reaches(start, steps, k, before)
}

/// Whether `after` are the nodes `before` up to where their ports stand.
pub open spec fn all_same_but_ports<T>(
    before: Seq<CallbackNode<T>>,
    after: Seq<CallbackNode<T>>,
) -> bool {
    &&& after.len() == before.len()
    &&& forall|n: int|
        0 <= n < before.len() ==> crate::connect::same_but_ports(#[trigger] after[n], before[n])
}

/// Whether each node can be connected.
pub open spec fn all_wf<T>(nodes: Seq<CallbackNode<T>>) -> bool {
    forall|n: int| 0 <= n < nodes.len() ==> (#[trigger] nodes[n]).wf()
}

/// Whether some output and some input share a channel and differ in payload
/// type.
pub open spec fn mismatched<T>(nodes: Seq<CallbackNode<T>>) -> bool {
    exists|ci: int, oi: int, pi: int, si: int| #[trigger]
        crate::connect_graph::mismatch(nodes, ci, oi, pi, si)
}

#[verifier::reject_recursive_types(T)]
pub struct TaskBuilder<T> {
    pub callbacks: Vec<CallbackNode<T>>,
    pub build_steps: Vec<AnyBuildStep<T>>,
}

/// Connected nodes and the system that holds their ports.
#[verifier::reject_recursive_types(T)]
pub struct BuiltTasks<T> {
    pub callbacks: Vec<CallbackNode<T>>,
    pub system: PubSub<T>,
}

#[verifier::reject_recursive_types(T)]
pub struct BuiltTasksWithDebugInfo<T> {
    pub callbacks: Vec<CallbackNode<T>>,
    pub system: PubSub<T>,
    pub dangling_subscribers: Vec<String>,
    pub dangling_publishers: Vec<String>,
}

#[derive(Debug)]
pub enum TaskBuildError {
    /// Error hit during callback connection.
    ConnectionError(MismatchTypeError),
    /// More generic error hit during a build step.
    BuildStepError(String),
}

impl TaskBuildError {
    /// The error as a message.
    pub fn to_string(&self) -> (r: String)
        ensures
            r@ == match *self {
                TaskBuildError::ConnectionError(e) => "Callback node '"@
                    + e.publisher_callback_node@ + "' publishes on '"@ + e.channel_name@
                    + "' but subscriber callback node '"@ + e.subscriber_callback_node@
                    + "' has a different type for that channel"@,
                TaskBuildError::BuildStepError(e) => "Build step failed with "@ + e@,
            },
    {
        match self {
            TaskBuildError::ConnectionError(e) => e.to_string(),
            TaskBuildError::BuildStepError(e) => {
                let mut text = "Build step failed with ".to_owned();
                text.append(e.as_str());
                text
            },
        }
    }
}

/// Runs the steps in order, each on the nodes so far, and adds what each
/// returns. Stops at the first that fails, and returns its number and error.
pub(crate) fn run_build_steps<T>(callbacks: &mut Vec<CallbackNode<T>>, steps: &Vec<AnyBuildStep<T>>) -> (r:
    Result<(), (usize, String)>)
    requires
        all_wf(old(callbacks)@),
    ensures
        all_wf(final(callbacks)@),
        r is Ok ==> reaches(old(callbacks)@, steps@, steps@.len() as int, final(callbacks)@),
        r matches Err(failure) ==> fails_at(
            old(callbacks)@,
            steps@,
            failure.0 as int,
            failure.1,
        ),
{
    let ghost start = callbacks@;
    let mut k: usize = 0;
    while k < steps.len()
        invariant
            k <= steps@.len(),
            all_wf(callbacks@),
            start == old(callbacks)@,
            reaches(start, steps@, k as int, callbacks@),
        decreases steps@.len() - k,
    {
        match steps[k].inner.build_step(callbacks) {
            Ok(added) => {
                let ghost before = callbacks@;
                let ghost new = added;
                let mut added = added;
                callbacks.append(&mut added);
                proof {
                    let m = k + 1;
                    assert(steps@[m - 1].inner.adds(before, Ok(new)));
                    assert(reaches(start, steps@, k + 1, before + new@));
                    assert forall|n: int| 0 <= n < callbacks@.len() implies (#[trigger]
                    callbacks@[n]).wf() by {
                        if n < before.len() {
                            assert(before[n].wf());
                        } else {
                            assert(new@[n - before.len()].wf());
                        }
                    }
                }
            },
            Err(error) => {
                assert(steps@[k as int].inner.adds(callbacks@, Err(error)));
                return Err((k, error));
            },
        }
        k = k + 1;
    }
    Ok(())
}

impl<T> TaskBuilder<T> {
    pub fn new() -> (r: Self)
        ensures
            r.callbacks@.len() == 0,
            r.build_steps@.len() == 0,
    {
        TaskBuilder { callbacks: Vec::new(), build_steps: Vec::new() }
    }

    pub fn add_callback(self, callback: CallbackNode<T>) -> (r: Self)
        ensures
            r.callbacks@ == self.callbacks@.push(callback),
            r.build_steps == self.build_steps,
    {
        let mut builder = self;
        builder.callbacks.push(callback);
        builder
    }

    pub fn add_build_step(self, build_step: AnyBuildStep<T>) -> (r: Self)
        ensures
            r.build_steps@ == self.build_steps@.push(build_step),
            r.callbacks == self.callbacks,
    {
        let mut builder = self;
        builder.build_steps.push(build_step);
        builder
    }

    /// Whether `nodes` can be the nodes after all build steps.
    pub open spec fn may_have(&self, nodes: Seq<CallbackNode<T>>) -> bool {
        reaches(self.callbacks@, self.build_steps@, self.build_steps@.len() as int, nodes)
    }

    /// Whether the sizes of all arenas fit a machine word, whatever the build
    /// steps add.
    pub open spec fn sizes_fit(&self) -> bool {
        forall|nodes: Seq<CallbackNode<T>>| #[trigger]
            self.may_have(nodes) ==> crate::connect_graph::sizes_fit(nodes)
    }

    /// Runs build steps in the order they were added, and then connects all
    /// nodes.
    pub fn build(self) -> (r: Result<BuiltTasks<T>, TaskBuildError>)
        requires
            all_wf(self.callbacks@),
            self.sizes_fit(),
        ensures
            r matches Ok(built) ==> {
                &&& exists|nodes: Seq<CallbackNode<T>>| #[trigger]
                    self.may_have(nodes) && all_same_but_ports(nodes, built.callbacks@)
                &&& !mismatched(built.callbacks@)
                &&& crate::connect_graph::connected(built.system, built.callbacks@)
            },
            r is Err && r->Err_0 is BuildStepError ==> exists|k: int| #[trigger]
                fails_at(
                    self.callbacks@,
                    self.build_steps@,
                    k,
                    r->Err_0->BuildStepError_0,
                ),
            r is Err && r->Err_0 is ConnectionError ==> exists|
                nodes: Seq<CallbackNode<T>>,
                placed: Seq<CallbackNode<T>>,
            |
                #![trigger self.may_have(nodes), all_same_but_ports(nodes, placed)]
                self.may_have(nodes) && all_same_but_ports(nodes, placed) && mismatched(placed)
                    && crate::connect_graph::reports_first_mismatch(
                    r->Err_0->ConnectionError_0,
                    placed,
                ),
    {
        let mut callbacks = self.callbacks;
        match run_build_steps(&mut callbacks, &self.build_steps) {
            Ok(_) => {},
            Err(failure) => {
                let ghost k = failure.0 as int;
                let error = failure.1;
                assert(fails_at(self.callbacks@, self.build_steps@, k, error));
                let r: Result<BuiltTasks<T>, TaskBuildError> = Err(TaskBuildError::BuildStepError(error));
                assert(r->Err_0->BuildStepError_0 == error);
                assert(fails_at(self.callbacks@, self.build_steps@, k, r->Err_0->BuildStepError_0));
                return r;
            },
        }
        let ghost nodes = callbacks@;
        assert(self.may_have(nodes));
        match crate::connect_graph::connect_callback_nodes(&mut callbacks) {
            Ok(system) => {
                assert(all_same_but_ports(nodes, callbacks@));
                Ok(BuiltTasks { callbacks, system })
            },
            Err(error) => {
                assert(all_same_but_ports(nodes, callbacks@));
                Err(TaskBuildError::ConnectionError(error))
            },
        }
    }

    pub fn build_with_debug_info(self) -> (r: Result<BuiltTasksWithDebugInfo<T>, TaskBuildError>)
        requires
            all_wf(self.callbacks@),
            self.sizes_fit(),
        ensures
            r matches Ok(built) ==> {
                &&& exists|nodes: Seq<CallbackNode<T>>| #[trigger]
                    self.may_have(nodes) && all_same_but_ports(nodes, built.callbacks@)
                &&& !mismatched(built.callbacks@)
                &&& crate::connect_graph::connected(built.system, built.callbacks@)
                &&& crate::string_interner::texts(built.dangling_subscribers@)
                    == crate::dangling::unfed_channels(built.callbacks@, false)
                &&& crate::string_interner::texts(built.dangling_publishers@)
                    == crate::dangling::unread_channels(built.callbacks@)
            },
            r is Err && r->Err_0 is BuildStepError ==> exists|k: int| #[trigger]
                fails_at(
                    self.callbacks@,
                    self.build_steps@,
                    k,
                    r->Err_0->BuildStepError_0,
                ),
            r is Err && r->Err_0 is ConnectionError ==> exists|
                nodes: Seq<CallbackNode<T>>,
                placed: Seq<CallbackNode<T>>,
            |
                #![trigger self.may_have(nodes), all_same_but_ports(nodes, placed)]
                self.may_have(nodes) && all_same_but_ports(nodes, placed) && mismatched(placed)
                    && crate::connect_graph::reports_first_mismatch(
                    r->Err_0->ConnectionError_0,
                    placed,
                ),
    {
        match self.build() {
            Ok(built) => {
                let dangling_subscribers = crate::dangling::find_dangling_subscribers(
                    &built.callbacks,
                    false,
                );
                let dangling_publishers = crate::dangling::find_dangling_publishers(
                    &built.callbacks,
                );
                Ok(
                    BuiltTasksWithDebugInfo {
                        callbacks: built.callbacks,
                        system: built.system,
                        dangling_subscribers,
                        dangling_publishers,
                    },
                )
            },
            Err(error) => Err(error),
        }
    }
}

impl<T> Default for TaskBuilder<T> {
    fn default() -> (r: Self)
        ensures
            r.callbacks@.len() == 0,
            r.build_steps@.len() == 0,
    {
        TaskBuilder::new()
    }
}

/// Nodes that are already there stay, in order: build steps only add nodes
/// behind them.
pub proof fn law_build_steps_only_add<T>(
    start: Seq<CallbackNode<T>>,
    steps: Seq<AnyBuildStep<T>>,
    k: int,
    nodes: Seq<CallbackNode<T>>,
)
    requires
        0 <= k <= steps.len(),
        reaches(start, steps, k, nodes),
    ensures
        start.len() <= nodes.len(),
        nodes.take(start.len() as int) == start,
    decreases k,
{
    if k > 0 {
        let (before, added) = choose|
            before: Seq<CallbackNode<T>>,
            added: Vec<CallbackNode<T>>,
        | #[trigger]
            steps[k - 1].inner.adds(before, Ok(added)) && reaches(start, steps, k - 1, before)
                && nodes == before + added@;
        law_build_steps_only_add(start, steps, k - 1, before);
        assert(nodes.take(start.len() as int) =~= before.take(start.len() as int));
    } else {
        assert(nodes.take(start.len() as int) =~= start);
    }
}

} // verus!
