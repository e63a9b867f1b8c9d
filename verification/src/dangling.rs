//! Dangling-channel diagnostics: the channels of a graph that lack one end.
use vstd::prelude::*;

use crate::callback::CallbackNode;

verus! {

/// The channels of the inputs of the first `n` nodes, node after node.
pub open spec fn input_channels<T>(nodes: Seq<CallbackNode<T>>, n: int) -> Seq<Seq<char>>
    decreases n,
{
    if n <= 0 {
        Seq::empty()
    } else {
        input_channels(nodes, n - 1) + nodes[n - 1].subscribers@.map_values(
            |port: crate::callback::SubscriberPort| port.config.channel_name@,
        )
    }
}

/// The channels of the outputs of the first `n` nodes, node after node.
pub open spec fn output_channels<T>(nodes: Seq<CallbackNode<T>>, n: int) -> Seq<Seq<char>>
    decreases n,
{
    if n <= 0 {
        Seq::empty()
    } else {
        output_channels(nodes, n - 1) + nodes[n - 1].publishers@.map_values(
            |port: crate::callback::PublisherPort| port.config.channel_name@,
        )
    }
}

/// Those of the first `k` channels that are not among `others`, each once, in
/// the order in which they are met.
pub open spec fn unmatched(channels: Seq<Seq<char>>, others: Seq<Seq<char>>, k: int) -> Seq<
    Seq<char>,
>
    decreases k,
{
    if k <= 0 {
        Seq::empty()
    } else {
        let rest = unmatched(channels, others, k - 1);
        if others.contains(channels[k - 1]) || rest.contains(channels[k - 1]) {
            rest
        } else {
            rest.push(channels[k - 1])
        }
    }
}

/// The channel of the execution logs, where the graph writes some.
pub open spec fn log_channels(logged: bool) -> Seq<Seq<char>> {
    if logged {
        seq![crate::execution_log::EXECUTION_LOG_CHANNEL@]
    } else {
        Seq::empty()
    }
}

/// The channels that some input reads and nothing publishes on.
pub open spec fn unfed_channels<T>(nodes: Seq<CallbackNode<T>>, logged: bool) -> Seq<Seq<char>> {
    let inputs = input_channels(nodes, nodes.len() as int);
    unmatched(
        inputs,
        output_channels(nodes, nodes.len() as int) + log_channels(logged),
        inputs.len() as int,
    )
}

/// The channels that some output publishes on and no input reads.
pub open spec fn unread_channels<T>(nodes: Seq<CallbackNode<T>>) -> Seq<Seq<char>> {
    let outputs = output_channels(nodes, nodes.len() as int);
    unmatched(outputs, input_channels(nodes, nodes.len() as int), outputs.len() as int)
}

/// A channel is listed exactly if it is among the first `k` and not among the
/// others, and no channel is listed twice.
pub proof fn law_unmatched_channels_are_listed(
    channels: Seq<Seq<char>>,
    others: Seq<Seq<char>>,
    k: int,
    channel: Seq<char>,
)
    requires
        0 <= k <= channels.len(),
    ensures
        unmatched(channels, others, k).contains(channel) <==> channels.take(k).contains(channel)
            && !others.contains(channel),
        unmatched(channels, others, k).no_duplicates(),
    decreases k,
{
    if k > 0 {
        law_unmatched_channels_are_listed(channels, others, k - 1, channel);
        let rest = unmatched(channels, others, k - 1);
        let last = channels[k - 1];
        let shorter = channels.take(k - 1);
        let longer = channels.take(k);
        assert(longer[k - 1] == last);
        if shorter.contains(channel) {
            let i = choose|i: int| 0 <= i < shorter.len() && shorter[i] == channel;
            assert(longer[i] == channel);
        }
        if longer.contains(channel) && channel != last {
            let i = choose|i: int| 0 <= i < longer.len() && longer[i] == channel;
            assert(shorter[i] == channel);
        }
        if !others.contains(last) && !rest.contains(last) {
            let all = rest.push(last);
            assert(all[rest.len() as int] == last);
            if rest.contains(channel) {
                let i = choose|i: int| 0 <= i < rest.len() && rest[i] == channel;
                assert(all[i] == channel);
            }
            if all.contains(channel) && channel != last {
                let i = choose|i: int| 0 <= i < all.len() && all[i] == channel;
                assert(rest[i] == channel);
            }
            assert forall|i: int, j: int|
                0 <= i < all.len() && 0 <= j < all.len() && i != j implies all[i] != all[j] by {
                if i < rest.len() && j == rest.len() {
                    assert(rest.contains(rest[i]));
                }
                if j < rest.len() && i == rest.len() {
                    assert(rest.contains(rest[j]));
                }
            }
        }
    }
}

/// Whether `value` is one of `names`.
fn is_among(names: &Vec<String>, value: &String) -> (r: bool)
    ensures
        r == crate::string_interner::texts(names@).contains(value@),
{
    let ghost all = crate::string_interner::texts(names@);
    let mut i: usize = 0;
    while i < names.len()
        invariant
            i <= names@.len(),
            all == crate::string_interner::texts(names@),
            forall|j: int| 0 <= j < i ==> #[trigger] all[j] != value@,
        decreases names@.len() - i,
    {
        if names[i] == *value {
            assert(all[i as int] == value@);
            return true;
        }
        i = i + 1;
    }
    false
}

/// The channels that are not among the others, each once.
fn list_unmatched(channels: &Vec<String>, others: &Vec<String>) -> (r: Vec<String>)
    ensures
        crate::string_interner::texts(r@) == unmatched(
            crate::string_interner::texts(channels@),
            crate::string_interner::texts(others@),
            channels@.len() as int,
        ),
{
    let ghost all = crate::string_interner::texts(channels@);
    let ghost known = crate::string_interner::texts(others@);
    let mut listed: Vec<String> = Vec::new();
    let mut k: usize = 0;
    assert(crate::string_interner::texts(listed@) =~= unmatched(all, known, 0));
    while k < channels.len()
        invariant
            k <= channels@.len(),
            all == crate::string_interner::texts(channels@),
            known == crate::string_interner::texts(others@),
            crate::string_interner::texts(listed@) == unmatched(all, known, k as int),
        decreases channels@.len() - k,
    {
        let ghost before = crate::string_interner::texts(listed@);
        assert(all[k as int] == channels@[k as int]@);
        if !is_among(others, &channels[k]) && !is_among(&listed, &channels[k]) {
            listed.push(channels[k].clone());
            assert(crate::string_interner::texts(listed@) =~= before.push(all[k as int]));
        }
        k = k + 1;
    }
    listed
}

/// The channels of all inputs.
fn list_inputs<T>(nodes: &Vec<CallbackNode<T>>) -> (r: Vec<String>)
    ensures
        crate::string_interner::texts(r@) == input_channels(nodes@, nodes@.len() as int),
{
    let mut channels: Vec<String> = Vec::new();
    let mut n: usize = 0;
    assert(crate::string_interner::texts(channels@) =~= input_channels(nodes@, 0));
    while n < nodes.len()
        invariant
            n <= nodes@.len(),
            crate::string_interner::texts(channels@) == input_channels(nodes@, n as int),
        decreases nodes@.len() - n,
    {
        let ghost before = input_channels(nodes@, n as int);
        let ghost own = nodes@[n as int].subscribers@.map_values(
            |port: crate::callback::SubscriberPort| port.config.channel_name@,
        );
        let ports = &nodes[n].subscribers;
        let mut i: usize = 0;
        assert(before + own.take(0) =~= before);
        while i < ports.len()
            invariant
                i <= ports@.len(),
                own == ports@.map_values(
                    |port: crate::callback::SubscriberPort| port.config.channel_name@,
                ),
                crate::string_interner::texts(channels@) == before + own.take(i as int),
            decreases ports@.len() - i,
        {
            let ghost listed = crate::string_interner::texts(channels@);
            channels.push(ports[i].config.channel_name.clone());
            proof {
                assert(own[i as int] == ports@[i as int].config.channel_name@);
                assert(crate::string_interner::texts(channels@) =~= listed.push(own[i as int]));
                assert(own.take(i + 1) =~= own.take(i as int).push(own[i as int]));
                assert(before + own.take(i + 1) =~= listed.push(own[i as int]));
            }
            i = i + 1;
        }
        assert(own.take(i as int) =~= own);
        n = n + 1;
    }
    channels
}

/// The channels of all outputs.
fn list_outputs<T>(nodes: &Vec<CallbackNode<T>>) -> (r: Vec<String>)
    ensures
        crate::string_interner::texts(r@) == output_channels(nodes@, nodes@.len() as int),
{
    let mut channels: Vec<String> = Vec::new();
    let mut n: usize = 0;
    assert(crate::string_interner::texts(channels@) =~= output_channels(nodes@, 0));
    while n < nodes.len()
        invariant
            n <= nodes@.len(),
            crate::string_interner::texts(channels@) == output_channels(nodes@, n as int),
        decreases nodes@.len() - n,
    {
        let ghost before = output_channels(nodes@, n as int);
        let ghost own = nodes@[n as int].publishers@.map_values(
            |port: crate::callback::PublisherPort| port.config.channel_name@,
        );
        let ports = &nodes[n].publishers;
        let mut i: usize = 0;
        assert(before + own.take(0) =~= before);
        while i < ports.len()
            invariant
                i <= ports@.len(),
                own == ports@.map_values(
                    |port: crate::callback::PublisherPort| port.config.channel_name@,
                ),
                crate::string_interner::texts(channels@) == before + own.take(i as int),
            decreases ports@.len() - i,
        {
            let ghost listed = crate::string_interner::texts(channels@);
            channels.push(ports[i].config.channel_name.clone());
            proof {
                assert(own[i as int] == ports@[i as int].config.channel_name@);
                assert(crate::string_interner::texts(channels@) =~= listed.push(own[i as int]));
                assert(own.take(i + 1) =~= own.take(i as int).push(own[i as int]));
                assert(before + own.take(i + 1) =~= listed.push(own[i as int]));
            }
            i = i + 1;
        }
        assert(own.take(i as int) =~= own);
        n = n + 1;
    }
    channels
}

/// The channels that some input reads and nothing publishes on. `logged` says
/// whether the graph publishes execution logs besides.
pub fn find_dangling_subscribers<T>(nodes: &Vec<CallbackNode<T>>, logged: bool) -> (r: Vec<String>)
    ensures
        crate::string_interner::texts(r@) == unfed_channels(nodes@, logged),
{
    let inputs = list_inputs(nodes);
    let mut outputs = list_outputs(nodes);
    let ghost own = crate::string_interner::texts(outputs@);
    if logged {
        outputs.push(crate::execution_log::EXECUTION_LOG_CHANNEL.to_owned());
    }
    assert(crate::string_interner::texts(outputs@) =~= own + log_channels(logged));
    list_unmatched(&inputs, &outputs)
}

/// The channels that some output publishes on and no input reads.
pub fn find_dangling_publishers<T>(nodes: &Vec<CallbackNode<T>>) -> (r: Vec<String>)
    ensures
        crate::string_interner::texts(r@) == unread_channels(nodes@),
{
    let inputs = list_inputs(nodes);
    let outputs = list_outputs(nodes);
    list_unmatched(&outputs, &inputs)
}

} // verus!
