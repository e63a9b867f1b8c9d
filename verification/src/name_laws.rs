//! What the names of a graph are for: every node and every channel can be found
//! again by its name or its number, and a channel that lacks one end is
//! reported.
use vstd::prelude::*;

use crate::callback::CallbackNode;
use crate::callback_storage::{RunState, SharedCallbackNode};
use crate::channel_registry::ChannelRegistry;
use crate::executor::{ExecutorParams, ThreadPoolConfig};
use crate::simulation::{SimulationConfig, SimulationState};
use crate::task_graph_builder::{BuiltTaskGraph, GraphDebugInfo};

verus! {

/// Where a text stands among texts, it stands among the names.
proof fn lemma_texts(names: Seq<String>, text: Seq<char>)
    ensures
        crate::string_interner::texts(names).contains(text) <==> exists|i: int|
            0 <= i < names.len() && (#[trigger] names[i])@ == text,
{
    let all = crate::string_interner::texts(names);
    if all.contains(text) {
        let i = choose|i: int| 0 <= i < all.len() && all[i] == text;
        assert(names[i]@ == text);
    }
    if exists|i: int| 0 <= i < names.len() && (#[trigger] names[i])@ == text {
        let i = choose|i: int| 0 <= i < names.len() && (#[trigger] names[i])@ == text;
        assert(all[i] == text);
    }
}

/// The channels of the inputs of nodes are those of some input of some node.
proof fn lemma_input_channels<T>(nodes: Seq<CallbackNode<T>>, n: int, channel: Seq<char>)
    requires
        0 <= n <= nodes.len(),
    ensures
        crate::dangling::input_channels(nodes, n).contains(channel) <==> exists|k: int, i: int|
            0 <= k < n && 0 <= i < nodes[k].subscribers@.len() && (#[trigger]
            nodes[k].subscribers@[i]).config.channel_name@ == channel,
    decreases n,
{
    if n > 0 {
        lemma_input_channels(nodes, n - 1, channel);
        let before = crate::dangling::input_channels(nodes, n - 1);
        let own = nodes[n - 1].subscribers@.map_values(
            |port: crate::callback::SubscriberPort| port.config.channel_name@,
        );
        let all = before + own;
        if before.contains(channel) {
            let j = choose|j: int| 0 <= j < before.len() && before[j] == channel;
            assert(all[j] == channel);
        }
        if all.contains(channel) && !before.contains(channel) {
            let j = choose|j: int| 0 <= j < all.len() && all[j] == channel;
            if j < before.len() {
                assert(before[j] == channel);
            }
            assert(nodes[n - 1].subscribers@[j - before.len()].config.channel_name@ == channel);
        }
        if exists|k: int, i: int|
            0 <= k < n && 0 <= i < nodes[k].subscribers@.len() && (#[trigger]
            nodes[k].subscribers@[i]).config.channel_name@ == channel {
            let (k, i) = choose|k: int, i: int|
                0 <= k < n && 0 <= i < nodes[k].subscribers@.len() && (#[trigger]
                nodes[k].subscribers@[i]).config.channel_name@ == channel;
            if k == n - 1 {
                assert(own[i] == channel);
                assert(all[before.len() + i] == channel);
            }
        }
    }
}

/// The channels of the outputs of nodes are those of some output of some node.
proof fn lemma_output_channels<T>(nodes: Seq<CallbackNode<T>>, n: int, channel: Seq<char>)
    requires
        0 <= n <= nodes.len(),
    ensures
        crate::dangling::output_channels(nodes, n).contains(channel) <==> exists|k: int, i: int|
            0 <= k < n && 0 <= i < nodes[k].publishers@.len() && (#[trigger]
            nodes[k].publishers@[i]).config.channel_name@ == channel,
    decreases n,
{
    if n > 0 {
        lemma_output_channels(nodes, n - 1, channel);
        let before = crate::dangling::output_channels(nodes, n - 1);
        let own = nodes[n - 1].publishers@.map_values(
            |port: crate::callback::PublisherPort| port.config.channel_name@,
        );
        let all = before + own;
        if before.contains(channel) {
            let j = choose|j: int| 0 <= j < before.len() && before[j] == channel;
            assert(all[j] == channel);
        }
        if all.contains(channel) && !before.contains(channel) {
            let j = choose|j: int| 0 <= j < all.len() && all[j] == channel;
            if j < before.len() {
                assert(before[j] == channel);
            }
            assert(nodes[n - 1].publishers@[j - before.len()].config.channel_name@ == channel);
        }
        if exists|k: int, i: int|
            0 <= k < n && 0 <= i < nodes[k].publishers@.len() && (#[trigger]
            nodes[k].publishers@[i]).config.channel_name@ == channel {
            let (k, i) = choose|k: int, i: int|
                0 <= k < n && 0 <= i < nodes[k].publishers@.len() && (#[trigger]
                nodes[k].publishers@[i]).config.channel_name@ == channel;
            if k == n - 1 {
                assert(own[i] == channel);
                assert(all[before.len() + i] == channel);
            }
        }
    }
}

/// A channel is reported as read in vain exactly if some input reads it and no
/// output publishes on it, unless it is the channel of the execution logs and
/// the graph writes these. It is reported as published in vain exactly if some
/// output publishes on it and no input reads it. Neither is reported twice.
pub proof fn law_dangling_channels_are_reported<T>(
    info: GraphDebugInfo,
    nodes: Seq<CallbackNode<T>>,
    logged: bool,
    channel: Seq<char>,
)
    requires
        crate::task_graph_builder::lists_dangling(info, nodes, logged),
    ensures
        (exists|i: int|
            0 <= i < info.dangling_subscribers@.len() && (#[trigger]
            info.dangling_subscribers@[i])@ == channel) <==> {
            &&& exists|k: int, i: int|
                0 <= k < nodes.len() && 0 <= i < nodes[k].subscribers@.len() && (#[trigger]
                nodes[k].subscribers@[i]).config.channel_name@ == channel
            &&& forall|k: int, i: int|
                0 <= k < nodes.len() && 0 <= i < nodes[k].publishers@.len() ==> (#[trigger]
                nodes[k].publishers@[i]).config.channel_name@ != channel
            &&& logged ==> channel != crate::execution_log::EXECUTION_LOG_CHANNEL@
        },
        (exists|i: int|
            0 <= i < info.dangling_publishers@.len() && (#[trigger]
            info.dangling_publishers@[i])@ == channel) <==> {
            &&& exists|k: int, i: int|
                0 <= k < nodes.len() && 0 <= i < nodes[k].publishers@.len() && (#[trigger]
                nodes[k].publishers@[i]).config.channel_name@ == channel
            &&& forall|k: int, i: int|
                0 <= k < nodes.len() && 0 <= i < nodes[k].subscribers@.len() ==> (#[trigger]
                nodes[k].subscribers@[i]).config.channel_name@ != channel
        },
        forall|i: int, j: int|
            0 <= i < j < info.dangling_subscribers@.len() ==> (#[trigger]
            info.dangling_subscribers@[i])@ != (#[trigger] info.dangling_subscribers@[j])@,
        forall|i: int, j: int|
            0 <= i < j < info.dangling_publishers@.len() ==> (#[trigger]
            info.dangling_publishers@[i])@ != (#[trigger] info.dangling_publishers@[j])@,
{
    let n = nodes.len() as int;
    let inputs = crate::dangling::input_channels(nodes, n);
    let outputs = crate::dangling::output_channels(nodes, n);
    let logs = crate::dangling::log_channels(logged);
    let fed = outputs + logs;
    lemma_texts(info.dangling_subscribers@, channel);
    lemma_texts(info.dangling_publishers@, channel);
    lemma_input_channels(nodes, n, channel);
    lemma_output_channels(nodes, n, channel);
    crate::dangling::law_unmatched_channels_are_listed(inputs, fed, inputs.len() as int, channel);
    crate::dangling::law_unmatched_channels_are_listed(
        outputs,
        inputs,
        outputs.len() as int,
        channel,
    );
    assert(inputs.take(inputs.len() as int) =~= inputs);
    assert(outputs.take(outputs.len() as int) =~= outputs);
    if outputs.contains(channel) {
        let j = choose|j: int| 0 <= j < outputs.len() && outputs[j] == channel;
        assert(fed[j] == channel);
    }
    if logged && channel == crate::execution_log::EXECUTION_LOG_CHANNEL@ {
        assert(fed[outputs.len() as int] == channel);
    }
    if fed.contains(channel) && !outputs.contains(channel) {
        let j = choose|j: int| 0 <= j < fed.len() && fed[j] == channel;
        if j < outputs.len() {
            assert(outputs[j] == channel);
        }
    }
    let unfed = crate::string_interner::texts(info.dangling_subscribers@);
    let unread = crate::string_interner::texts(info.dangling_publishers@);
    assert forall|i: int, j: int| 0 <= i < j < info.dangling_subscribers@.len() implies (#[trigger]
    info.dangling_subscribers@[i])@ != (#[trigger] info.dangling_subscribers@[j])@ by {
        assert(unfed[i] != unfed[j]);
    }
    assert forall|i: int, j: int| 0 <= i < j < info.dangling_publishers@.len() implies (#[trigger]
    info.dangling_publishers@[i])@ != (#[trigger] info.dangling_publishers@[j])@ by {
        assert(unread[i] != unread[j]);
    }
}

/// Interning adds exactly the values.
proof fn lemma_interned(names: Seq<Seq<char>>, values: Seq<Seq<char>>, text: Seq<char>)
    ensures
        crate::string_interner::interned_all(names, values).contains(text) <==> names.contains(text)
            || values.contains(text),
    decreases values.len(),
{
    if values.len() > 0 {
        lemma_interned(names, values.drop_last(), text);
        let before = crate::string_interner::interned_all(names, values.drop_last());
        let last = values.last();
        let after = before.push(last);
        assert(after[before.len() as int] == last);
        if before.contains(text) {
            let j = choose|j: int| 0 <= j < before.len() && before[j] == text;
            assert(after[j] == text);
        }
        if after.contains(text) && text != last {
            let j = choose|j: int| 0 <= j < after.len() && after[j] == text;
            assert(before[j] == text);
        }
        assert(values[values.len() - 1] == last);
        if values.drop_last().contains(text) {
            let j = choose|j: int|
                0 <= j < values.drop_last().len() && values.drop_last()[j] == text;
            assert(values[j] == text);
        }
        if values.contains(text) && text != last {
            let j = choose|j: int| 0 <= j < values.len() && values[j] == text;
            assert(values.drop_last()[j] == text);
        }
    }
}

/// A text among two parts is among one of them.
proof fn lemma_either(a: Seq<Seq<char>>, b: Seq<Seq<char>>, text: Seq<char>)
    ensures
        (a + b).contains(text) <==> a.contains(text) || b.contains(text),
{
    let all = a + b;
    if a.contains(text) {
        let j = choose|j: int| 0 <= j < a.len() && a[j] == text;
        assert(all[j] == text);
    }
    if b.contains(text) {
        let j = choose|j: int| 0 <= j < b.len() && b[j] == text;
        assert(all[a.len() + j] == text);
    }
    if all.contains(text) && !a.contains(text) {
        let j = choose|j: int| 0 <= j < all.len() && all[j] == text;
        if j < a.len() {
            assert(a[j] == text);
        }
        assert(b[j - a.len()] == text);
    }
}

/// Whether a node has an end of a channel.
spec fn has_channel<T>(node: CallbackNode<T>, channel: Seq<char>) -> bool {
    ||| exists|s: int|
        0 <= s < node.subscribers@.len() && (#[trigger] node.subscribers@[s]).config.channel_name@
            == channel
    ||| exists|p: int|
        0 <= p < node.publishers@.len() && (#[trigger] node.publishers@[p]).config.channel_name@
            == channel
}

proof fn lemma_node_channels<T>(node: CallbackNode<T>, channel: Seq<char>)
    ensures
        crate::executor::node_channels(node).contains(channel) <==> has_channel(node, channel),
{
    let read = node.subscribers@.map_values(
        |port: crate::callback::SubscriberPort| port.config.channel_name@,
    );
    let written = node.publishers@.map_values(
        |port: crate::callback::PublisherPort| port.config.channel_name@,
    );
    lemma_either(read, written, channel);
    if read.contains(channel) {
        let s = choose|s: int| 0 <= s < read.len() && read[s] == channel;
        assert(node.subscribers@[s].config.channel_name@ == channel);
    }
    if written.contains(channel) {
        let p = choose|p: int| 0 <= p < written.len() && written[p] == channel;
        assert(node.publishers@[p].config.channel_name@ == channel);
    }
    if exists|s: int|
        0 <= s < node.subscribers@.len() && (#[trigger] node.subscribers@[s]).config.channel_name@
            == channel {
        let s = choose|s: int|
            0 <= s < node.subscribers@.len() && (#[trigger]
            node.subscribers@[s]).config.channel_name@ == channel;
        assert(read[s] == channel);
    }
    if exists|p: int|
        0 <= p < node.publishers@.len() && (#[trigger] node.publishers@[p]).config.channel_name@
            == channel {
        let p = choose|p: int|
            0 <= p < node.publishers@.len() && (#[trigger]
            node.publishers@[p]).config.channel_name@ == channel;
        assert(written[p] == channel);
    }
}

proof fn lemma_storage_texts<T>(nodes: Seq<SharedCallbackNode<T>>, n: int, text: Seq<char>)
    requires
        0 <= n <= nodes.len(),
    ensures
        crate::executor::storage_channels(nodes, n).contains(text) <==> exists|i: int|
            0 <= i < n && has_channel((#[trigger] nodes[i]).node, text),
        crate::executor::storage_names(nodes, n).contains(text) <==> exists|i: int|
            0 <= i < n && (#[trigger] nodes[i]).node.name@ == text,
    decreases n,
{
    if n > 0 {
        lemma_storage_texts(nodes, n - 1, text);
        lemma_either(
            crate::executor::storage_channels(nodes, n - 1),
            crate::executor::node_channels(nodes[n - 1].node),
            text,
        );
        lemma_node_channels(nodes[n - 1].node, text);
        let names = crate::executor::storage_names(nodes, n - 1);
        let own = nodes[n - 1].node.name@;
        lemma_either(names, seq![own], text);
        assert(names.push(own) =~= names + seq![own]);
        assert(seq![own][0] == own);
        if has_channel(nodes[n - 1].node, text) {
            assert(has_channel(nodes[n - 1].node, text));
        }
    }
}

proof fn lemma_pool_texts<T>(pools: Seq<ThreadPoolConfig<T>>, k: int, text: Seq<char>)
    requires
        0 <= k <= pools.len(),
    ensures
        crate::executor::pool_channels(pools, k).contains(text) <==> exists|m: int, i: int|
            0 <= m < k && 0 <= i < pools[m].nodes.nodes@.len() && has_channel(
                (#[trigger] pools[m].nodes.nodes@[i]).node,
                text,
            ),
        crate::executor::pool_names(pools, k).contains(text) <==> exists|m: int, i: int|
            0 <= m < k && 0 <= i < pools[m].nodes.nodes@.len() && (#[trigger]
            pools[m].nodes.nodes@[i]).node.name@ == text,
    decreases k,
{
    if k > 0 {
        lemma_pool_texts(pools, k - 1, text);
        let nodes = pools[k - 1].nodes.nodes@;
        let n = nodes.len() as int;
        lemma_storage_texts(nodes, n, text);
        lemma_either(
            crate::executor::pool_channels(pools, k - 1),
            crate::executor::storage_channels(nodes, n),
            text,
        );
        lemma_either(
            crate::executor::pool_names(pools, k - 1),
            crate::executor::storage_names(nodes, n),
            text,
        );
    }
}

/// What the interned names are.
proof fn lemma_known<T>(
    pools: Seq<ThreadPoolConfig<T>>,
    names: Seq<String>,
    channels: Seq<String>,
    text: Seq<char>,
)
    requires
        crate::string_interner::texts(channels) == crate::string_interner::interned_all(
            Seq::empty(),
            crate::executor::pool_channels(pools, pools.len() as int),
        ),
        crate::string_interner::texts(names) == crate::string_interner::interned_all(
            Seq::empty(),
            crate::executor::pool_names(pools, pools.len() as int),
        ),
    ensures
        (exists|id: int|
            0 <= id < names.len() && (#[trigger] names[id])@ == text) <==> exists|k: int, i: int|
            0 <= k < pools.len() && 0 <= i < pools[k].nodes.nodes@.len() && (#[trigger]
            pools[k].nodes.nodes@[i]).node.name@ == text,
        (exists|id: int|
            0 <= id < channels.len() && (#[trigger] channels[id])@ == text) <==> {
            ||| exists|k: int, i: int, s: int|
                0 <= k < pools.len() && 0 <= i < pools[k].nodes.nodes@.len() && 0 <= s
                    < pools[k].nodes.nodes@[i].node.subscribers@.len() && (#[trigger]
                pools[k].nodes.nodes@[i].node.subscribers@[s]).config.channel_name@ == text
            ||| exists|k: int, i: int, p: int|
                0 <= k < pools.len() && 0 <= i < pools[k].nodes.nodes@.len() && 0 <= p
                    < pools[k].nodes.nodes@[i].node.publishers@.len() && (#[trigger]
                pools[k].nodes.nodes@[i].node.publishers@[p]).config.channel_name@ == text
        },
{
    let n = pools.len() as int;
    let none = Seq::<Seq<char>>::empty();
    lemma_pool_texts(pools, n, text);
    lemma_interned(none, crate::executor::pool_names(pools, n), text);
    lemma_interned(none, crate::executor::pool_channels(pools, n), text);
    lemma_texts(names, text);
    lemma_texts(channels, text);
    if exists|k: int, i: int|
        0 <= k < n && 0 <= i < pools[k].nodes.nodes@.len() && has_channel(
            (#[trigger] pools[k].nodes.nodes@[i]).node,
            text,
        ) {
        let (k, i) = choose|k: int, i: int|
            0 <= k < n && 0 <= i < pools[k].nodes.nodes@.len() && has_channel(
                (#[trigger] pools[k].nodes.nodes@[i]).node,
                text,
            );
        let node = pools[k].nodes.nodes@[i].node;
        if exists|s: int|
            0 <= s < node.subscribers@.len() && (#[trigger]
            node.subscribers@[s]).config.channel_name@ == text {
            let s = choose|s: int|
                0 <= s < node.subscribers@.len() && (#[trigger]
                node.subscribers@[s]).config.channel_name@ == text;
            assert(pools[k].nodes.nodes@[i].node.subscribers@[s].config.channel_name@ == text);
        } else {
            let p = choose|p: int|
                0 <= p < node.publishers@.len() && (#[trigger]
                node.publishers@[p]).config.channel_name@ == text;
            assert(pools[k].nodes.nodes@[i].node.publishers@[p].config.channel_name@ == text);
        }
    }
    if exists|k: int, i: int, s: int|
        0 <= k < pools.len() && 0 <= i < pools[k].nodes.nodes@.len() && 0 <= s
            < pools[k].nodes.nodes@[i].node.subscribers@.len() && (#[trigger]
        pools[k].nodes.nodes@[i].node.subscribers@[s]).config.channel_name@ == text {
        let (k, i, s) = choose|k: int, i: int, s: int|
            0 <= k < pools.len() && 0 <= i < pools[k].nodes.nodes@.len() && 0 <= s
                < pools[k].nodes.nodes@[i].node.subscribers@.len() && (#[trigger]
            pools[k].nodes.nodes@[i].node.subscribers@[s]).config.channel_name@ == text;
        assert(has_channel(pools[k].nodes.nodes@[i].node, text));
    }
    if exists|k: int, i: int, p: int|
        0 <= k < pools.len() && 0 <= i < pools[k].nodes.nodes@.len() && 0 <= p
            < pools[k].nodes.nodes@[i].node.publishers@.len() && (#[trigger]
        pools[k].nodes.nodes@[i].node.publishers@[p]).config.channel_name@ == text {
        let (k, i, p) = choose|k: int, i: int, p: int|
            0 <= k < pools.len() && 0 <= i < pools[k].nodes.nodes@.len() && 0 <= p
                < pools[k].nodes.nodes@[i].node.publishers@.len() && (#[trigger]
            pools[k].nodes.nodes@[i].node.publishers@[p]).config.channel_name@ == text;
        assert(has_channel(pools[k].nodes.nodes@[i].node, text));
    }
}

/// A name is known exactly if a node has it, and a channel exactly if a node
/// has an end of it. No name or channel is known twice.
pub proof fn law_names_are_interned<T>(
    params: ExecutorParams<T>,
    pools: Seq<ThreadPoolConfig<T>>,
    text: Seq<char>,
)
    requires
        crate::executor::is_numbered(params, pools),
    ensures
        (exists|id: int|
            0 <= id < params.callback_interner.names@.len() && (#[trigger] params.callback_interner.names@[id])@ == text) <==> exists|k: int, i: int|
            0 <= k < pools.len() && 0 <= i < pools[k].nodes.nodes@.len() && (#[trigger]
            pools[k].nodes.nodes@[i]).node.name@ == text,
        (exists|id: int|
            0 <= id < params.channel_interner.names@.len() && (#[trigger] params.channel_interner.names@[id])@ == text) <==> {
            ||| exists|k: int, i: int, s: int|
                0 <= k < pools.len() && 0 <= i < pools[k].nodes.nodes@.len() && 0 <= s
                    < pools[k].nodes.nodes@[i].node.subscribers@.len() && (#[trigger]
                pools[k].nodes.nodes@[i].node.subscribers@[s]).config.channel_name@ == text
            ||| exists|k: int, i: int, p: int|
                0 <= k < pools.len() && 0 <= i < pools[k].nodes.nodes@.len() && 0 <= p
                    < pools[k].nodes.nodes@[i].node.publishers@.len() && (#[trigger]
                pools[k].nodes.nodes@[i].node.publishers@[p]).config.channel_name@ == text
        },
        forall|a: int, b: int|
            0 <= a < b < params.callback_interner.names@.len() ==> (#[trigger] params.callback_interner.names@[a])@ != (#[trigger] params.callback_interner.names@[b])@,
        forall|a: int, b: int|
            0 <= a < b < params.channel_interner.names@.len() ==> (#[trigger] params.channel_interner.names@[a])@ != (#[trigger]
            params.channel_interner.names@[b])@,
{
    lemma_known(pools, params.callback_interner.names@, params.channel_interner.names@, text);
}

/// A built graph knows a name exactly if one of its nodes has it, and a channel
/// exactly if one of its nodes has an end of it. None is known twice.
pub proof fn law_built_names_are_interned<T>(built: BuiltTaskGraph<T>, text: Seq<char>)
    requires
        crate::task_graph_builder::interned(built),
    ensures
        (exists|id: int|
            0 <= id < built.callback_interner.names@.len() && (#[trigger] built.callback_interner.names@[id])@ == text) <==> exists|k: int, i: int|
            0 <= k < built.pools@.len() && 0 <= i < built.pools@[k].nodes.nodes@.len() && (#[trigger]
            built.pools@[k].nodes.nodes@[i]).node.name@ == text,
        (exists|id: int|
            0 <= id < built.channel_interner.names@.len() && (#[trigger] built.channel_interner.names@[id])@ == text) <==> {
            ||| exists|k: int, i: int, s: int|
                0 <= k < built.pools@.len() && 0 <= i < built.pools@[k].nodes.nodes@.len() && 0 <= s
                    < built.pools@[k].nodes.nodes@[i].node.subscribers@.len() && (#[trigger]
                built.pools@[k].nodes.nodes@[i].node.subscribers@[s]).config.channel_name@ == text
            ||| exists|k: int, i: int, p: int|
                0 <= k < built.pools@.len() && 0 <= i < built.pools@[k].nodes.nodes@.len() && 0 <= p
                    < built.pools@[k].nodes.nodes@[i].node.publishers@.len() && (#[trigger]
                built.pools@[k].nodes.nodes@[i].node.publishers@[p]).config.channel_name@ == text
        },
        forall|a: int, b: int|
            0 <= a < b < built.callback_interner.names@.len() ==> (#[trigger] built.callback_interner.names@[a])@ != (#[trigger] built.callback_interner.names@[b])@,
        forall|a: int, b: int|
            0 <= a < b < built.channel_interner.names@.len() ==> (#[trigger] built.channel_interner.names@[a])@ != (#[trigger]
            built.channel_interner.names@[b])@,
{
    lemma_known(built.pools@, built.callback_interner.names@, built.channel_interner.names@, text);
}

/// The pools before a pool hold no more nodes than those before a later one.
proof fn lemma_offset_grows<T>(pools: Seq<ThreadPoolConfig<T>>, k: int, l: int)
    requires
        0 <= k <= l <= pools.len(),
    ensures
        0 <= crate::executor::pool_offset(pools, k) <= crate::executor::pool_offset(pools, l),
        k < l ==> crate::executor::pool_offset(pools, k) + pools[k].nodes.nodes@.len()
            <= crate::executor::pool_offset(pools, l),
    decreases l,
{
    if k < l {
        lemma_offset_grows(pools, k, l - 1);
    } else if k > 0 {
        lemma_offset_grows(pools, k - 1, k - 1);
    }
}

/// The nodes are numbered in the order of their pools and of their places in
/// these: of two nodes, the later one has the larger number, and neighbours in
/// a pool have neighbouring numbers. The first node of the first pool has
/// number zero. Nothing else of the nodes and the pools changes.
pub proof fn law_nodes_are_numbered_in_order<T>(
    params: ExecutorParams<T>,
    pools: Seq<ThreadPoolConfig<T>>,
)
    requires
        crate::executor::is_numbered(params, pools),
        crate::executor::pool_offset(pools, pools.len() as int) <= usize::MAX,
    ensures
        params.pools@.len() == pools.len(),
        forall|k: int|
            0 <= k < pools.len() ==> (#[trigger] params.pools@[k]).thread_count
                == pools[k].thread_count && params.pools@[k].nodes.nodes@.len()
                == pools[k].nodes.nodes@.len(),
        forall|k: int, i: int|
            0 <= k < pools.len() && 0 <= i < pools[k].nodes.nodes@.len() ==> {
                let node = (#[trigger] params.pools@[k].nodes.nodes@[i]).node;
                &&& node.id is Some
                &&& node.name@ == pools[k].nodes.nodes@[i].node.name@
                &&& node.subscribers == pools[k].nodes.nodes@[i].node.subscribers
                &&& node.publishers == pools[k].nodes.nodes@[i].node.publishers
                &&& node.callback == pools[k].nodes.nodes@[i].node.callback
            },
        forall|k: int, i: int, l: int, j: int|
            0 <= k < pools.len() && 0 <= i < pools[k].nodes.nodes@.len() && 0 <= l < pools.len()
                && 0 <= j < pools[l].nodes.nodes@.len() && (k < l || k == l && i < j) ==> ((#[trigger] params.pools@[k].nodes.nodes@[i]).node.id->0).0 < ((#[trigger]
            params.pools@[l].nodes.nodes@[j]).node.id->0).0,
        forall|k: int, i: int, j: int|
            0 <= k < pools.len() && 0 <= i && j == i + 1 && j < pools[k].nodes.nodes@.len()
                ==> ((#[trigger] params.pools@[k].nodes.nodes@[j]).node.id->0).0 == ((#[trigger]
            params.pools@[k].nodes.nodes@[i]).node.id->0).0 + 1,
        pools.len() > 0 && pools[0].nodes.nodes@.len() > 0
            ==> (params.pools@[0].nodes.nodes@[0].node.id->0).0 == 0,
{
    let n = pools.len() as int;
    assert forall|k: int| 0 <= k < pools.len() implies (#[trigger] params.pools@[k]).thread_count
        == pools[k].thread_count && params.pools@[k].nodes.nodes@.len()
        == pools[k].nodes.nodes@.len() by {
        assert(crate::executor::same_but_ids(params.pools@[k], pools[k]));
    }
    assert forall|k: int, i: int|
        0 <= k < pools.len() && 0 <= i < pools[k].nodes.nodes@.len() implies ({
        let node = (#[trigger] params.pools@[k].nodes.nodes@[i]).node;
        &&& node.id is Some
        &&& node.name@ == pools[k].nodes.nodes@[i].node.name@
        &&& node.subscribers == pools[k].nodes.nodes@[i].node.subscribers
        &&& node.publishers == pools[k].nodes.nodes@[i].node.publishers
        &&& node.callback == pools[k].nodes.nodes@[i].node.callback
    }) by {
        assert(crate::executor::same_but_ids(params.pools@[k], pools[k]));
        assert(crate::executor::same_node_but_id(
            params.pools@[k].nodes.nodes@[i],
            pools[k].nodes.nodes@[i],
        ));
    }
    assert forall|k: int, i: int|
        0 <= k < pools.len() && 0 <= i < pools[k].nodes.nodes@.len() implies ((#[trigger]
    params.pools@[k].nodes.nodes@[i]).node.id->0).0 == crate::executor::pool_offset(pools, k)
        + i by {
        lemma_offset_grows(pools, k, n);
    }
    assert forall|k: int, i: int, l: int, j: int|
        0 <= k < pools.len() && 0 <= i < pools[k].nodes.nodes@.len() && 0 <= l < pools.len() && 0
            <= j < pools[l].nodes.nodes@.len() && (k < l || k == l && i < j) implies ((#[trigger]
    params.pools@[k].nodes.nodes@[i]).node.id->0).0 < ((#[trigger]
    params.pools@[l].nodes.nodes@[j]).node.id->0).0 by {
        if k < l {
            lemma_offset_grows(pools, k, l);
        }
    }
}

/// A new simulation holds every node of every pool and knows its pool. The
/// nodes stand in the order of their pools and of their places in these, so
/// different nodes stand at different places.
pub proof fn law_simulation_holds_every_node<T>(
    state: SimulationState<T>,
    config: SimulationConfig<T>,
    k: int,
    i: int,
    l: int,
    j: int,
) -> (places: (int, int))
    requires
        crate::simulation::is_new_of(state, config),
        0 <= k < config.executor_params.pools@.len(),
        0 <= i < config.executor_params.pools@[k].nodes.nodes@.len(),
        0 <= l < config.executor_params.pools@.len(),
        0 <= j < config.executor_params.pools@[l].nodes.nodes@.len(),
        k < l || k == l && i < j,
    ensures
        0 <= places.0 < places.1 < state.nodes.nodes@.len(),
        state.nodes.nodes@[places.0] == config.executor_params.pools@[k].nodes.nodes@[i],
        state.nodes.nodes@[places.1] == config.executor_params.pools@[l].nodes.nodes@[j],
        state.schedule.node_to_pool@[places.0] == k,
        state.schedule.node_to_pool@[places.1] == l,
        state.schedule.virtual_pools@[k].virtual_thread_count
            == config.executor_params.pools@[k].thread_count,
        state.schedule.virtual_pools@[l].virtual_thread_count
            == config.executor_params.pools@[l].thread_count,
{
    let pools = config.executor_params.pools@;
    let n = pools.len() as int;
    lemma_offset_grows(pools, k, l);
    lemma_offset_grows(pools, l, n);
    let a = crate::executor::pool_offset(pools, k) + i;
    let b = crate::executor::pool_offset(pools, l) + j;
    assert(state.nodes.nodes@[a] == pools[k].nodes.nodes@[i]);
    assert(state.nodes.nodes@[b] == pools[l].nodes.nodes@[j]);
    (a, b)
}

/// A new simulation holds nothing but the nodes of its pools.
pub proof fn law_simulation_holds_no_other_node<T>(
    state: SimulationState<T>,
    config: SimulationConfig<T>,
    at: int,
) -> (r: (int, int))
    requires
        crate::simulation::is_new_of(state, config),
        0 <= at < state.nodes.nodes@.len(),
    ensures
        0 <= r.0 < config.executor_params.pools@.len(),
        0 <= r.1 < config.executor_params.pools@[r.0].nodes.nodes@.len(),
        state.nodes.nodes@[at] == config.executor_params.pools@[r.0].nodes.nodes@[r.1],
        state.schedule.node_to_pool@[at] == r.0,
{
    let pools = config.executor_params.pools@;
    let (k, i) = lemma_find_place(pools, pools.len() as int, at);
    assert(state.nodes.nodes@[at] == pools[k].nodes.nodes@[i]);
    (k, i)
}

/// Every place below the number of nodes is that of a node in a pool.
proof fn lemma_find_place<T>(pools: Seq<ThreadPoolConfig<T>>, n: int, at: int) -> (r: (int, int))
    requires
        0 <= n <= pools.len(),
        0 <= at < crate::executor::pool_offset(pools, n),
    ensures
        0 <= r.0 < n,
        0 <= r.1 < pools[r.0].nodes.nodes@.len(),
        crate::executor::pool_offset(pools, r.0) + r.1 == at,
    decreases n,
{
    let before = crate::executor::pool_offset(pools, n - 1);
    if at >= before {
        (n - 1, at - before)
    } else {
        lemma_find_place(pools, n - 1, at)
    }
}

/// A registered channel is known with its payload type, and whatever is asked
/// of that type can be had: messages can be written to a log, read from one and
/// published again. Whatever was registered before stays so, unless the channel
/// is registered with another type.
pub proof fn law_registered_channels_are_known(
    before: ChannelRegistry,
    after: ChannelRegistry,
    channel: Seq<char>,
    value_type: u64,
)
    requires
        before.wf(),
        after.wf(),
        crate::channel_registry::channel_added(before, after, channel, value_type),
    ensures
        exists|i: int|
            0 <= i < after.channels.entries@.len() && (#[trigger]
            after.channels.entries@[i]).channel@ == channel && after.channels.entries@[i].value
                == value_type,
        after.serializers@.contains(value_type),
        after.deserializers@.contains(value_type),
        after.publisher_factories@.contains(value_type),
        before.serializers@.subset_of(after.serializers@),
        before.deserializers@.subset_of(after.deserializers@),
        before.publisher_factories@.subset_of(after.publisher_factories@),
        before.forwarded_deserializers@ == after.forwarded_deserializers@,
        forall|i: int|
            0 <= i < before.channels.entries@.len() && (#[trigger]
            before.channels.entries@[i]).channel@ != channel ==> exists|j: int|
                0 <= j < after.channels.entries@.len() && (#[trigger]
                after.channels.entries@[j]).channel@ == before.channels.entries@[i].channel@
                    && after.channels.entries@[j].value == before.channels.entries@[i].value,
        forall|j: int|
            0 <= j < after.channels.entries@.len() && (#[trigger]
            after.channels.entries@[j]).channel@ != channel ==> exists|i: int|
                0 <= i < before.channels.entries@.len() && (#[trigger]
                before.channels.entries@[i]).channel@ == after.channels.entries@[j].channel@
                    && before.channels.entries@[i].value == after.channels.entries@[j].value,
{
    let own = choose|i: int| #[trigger] after.channels.stands_at(channel, i);
    assert(after.channels.has(channel));
    assert(after.channels.entries@[own].channel@ == channel);
    assert forall|i: int|
        0 <= i < before.channels.entries@.len() && (#[trigger]
        before.channels.entries@[i]).channel@ != channel implies exists|j: int|
        0 <= j < after.channels.entries@.len() && (#[trigger] after.channels.entries@[j]).channel@
            == before.channels.entries@[i].channel@ && after.channels.entries@[j].value
            == before.channels.entries@[i].value by {
        let other = before.channels.entries@[i].channel@;
        assert(before.channels.stands_at(other, i));
        before.channels.lemma_at(other, i);
        assert(after.channels.at(other) == before.channels.at(other));
        let j = choose|j: int| #[trigger] after.channels.stands_at(other, j);
        assert(after.channels.entries@[j].channel@ == other);
    }
    assert forall|j: int|
        0 <= j < after.channels.entries@.len() && (#[trigger]
        after.channels.entries@[j]).channel@ != channel implies exists|i: int|
        0 <= i < before.channels.entries@.len() && (#[trigger]
        before.channels.entries@[i]).channel@ == after.channels.entries@[j].channel@
            && before.channels.entries@[i].value == after.channels.entries@[j].value by {
        let other = after.channels.entries@[j].channel@;
        assert(after.channels.stands_at(other, j));
        after.channels.lemma_at(other, j);
        assert(after.channels.at(other) == before.channels.at(other));
        let i = choose|i: int| #[trigger] before.channels.stands_at(other, i);
        assert(before.channels.entries@[i].channel@ == other);
    }
}

/// A trigger is never lost and never doubled. A node that nobody holds is
/// enqueued by it; a node that is held is enqueued when it is released, exactly
/// if a trigger came meanwhile. A trigger does not take the node from its
/// worker, and a second trigger changes nothing.
pub proof fn law_triggers_are_kept(state: RunState)
    ensures
        state is Idle || state is Enqueued ==> state.triggered() is Enqueued && !state.held(),
        state is Running || state is RunningTriggered ==> state.held() && state.triggered().held()
            && state.triggered().released() is Enqueued,
        state is Running ==> state.released() is Idle,
        state.triggered().triggered() == state.triggered(),
        !state.released().held(),
{
}

} // verus!
