//! What is generated for a callback: the ports that stand behind the arguments
//! of its `run` function, and how they are handed to it.
use vstd::prelude::*;

use crate::signature::{
    ChannelAttribute, FnArgument, ImplBlock, ImplFunction, MacroCallbackSignature, PortKind, SigArg,
    TypedArgument,
};

verus! {

impl PortKind {
    /// Whether an input stands behind the argument.
    pub open spec fn input(self) -> bool {
        self is Sub || self is ForwardableSub
    }

    /// Whether an output stands behind the argument.
    pub open spec fn output(self) -> bool {
        self is Pub || self is ForwardingPub
    }

    pub fn is_input(&self) -> (r: bool)
        ensures
            r == self.input(),
    {
        match self {
            PortKind::Sub { .. } => true,
            PortKind::ForwardableSub { .. } => true,
            _ => false,
        }
    }

    pub fn is_output(&self) -> (r: bool)
        ensures
            r == self.output(),
    {
        match self {
            PortKind::Pub { .. } => true,
            PortKind::ForwardingPub { .. } => true,
            _ => false,
        }
    }
}

/// The ports of the first `n` arguments: all but the context.
pub open spec fn ports_of(arguments: Seq<SigArg>, n: int) -> Seq<SigArg>
    decreases n,
{
    if n <= 0 {
        Seq::empty()
    } else if arguments[n - 1].port_kind is Context {
        ports_of(arguments, n - 1)
    } else {
        ports_of(arguments, n - 1).push(arguments[n - 1])
    }
}

/// The places of the inputs among the first `n` ports.
pub open spec fn input_places(ports: Seq<SigArg>, n: int) -> Seq<usize>
    decreases n,
{
    if n <= 0 {
        Seq::empty()
    } else if ports[n - 1].port_kind.input() {
        input_places(ports, n - 1).push((n - 1) as usize)
    } else {
        input_places(ports, n - 1)
    }
}

/// The places of the outputs among the first `n` ports.
pub open spec fn output_places(ports: Seq<SigArg>, n: int) -> Seq<usize>
    decreases n,
{
    if n <= 0 {
        Seq::empty()
    } else if ports[n - 1].port_kind.output() {
        output_places(ports, n - 1).push((n - 1) as usize)
    } else {
        output_places(ports, n - 1)
    }
}

/// What is generated for a callback.
#[derive(Debug)]
pub struct CallbackPlan {
    pub callback_type: String,
    /// The name of the type that holds the ports.
    pub ports_name: String,
    /// The name of the type that joins the user's type and the ports.
    pub callback_name: String,
    pub ports: Vec<SigArg>,
    /// The places of the inputs among the ports.
    pub subscribers: Vec<usize>,
    /// The places of the outputs among the ports. The place in this list is
    /// the output's ordinal.
    pub publishers: Vec<usize>,
    /// For each argument of `run` the place of its port; the context has none.
    pub run_args: Vec<Option<usize>>,
}

impl CallbackPlan {
    /// Plans the code for a signature.
    pub fn new(signature: MacroCallbackSignature) -> (r: Self)
        ensures
            r.callback_type == signature.callback_type,
            r.ports_name@ == signature.callback_type@ + "Ports"@,
            r.callback_name@ == signature.callback_type@ + "Callback"@,
            r.ports@ == ports_of(signature.arguments@, signature.arguments@.len() as int),
            r.subscribers@ == input_places(r.ports@, r.ports@.len() as int),
            r.publishers@ == output_places(r.ports@, r.ports@.len() as int),
            r.run_args@.len() == signature.arguments@.len(),
            forall|i: int|
                0 <= i < signature.arguments@.len() ==> #[trigger] r.run_args@[i] == (
                if signature.arguments@[i].port_kind is Context {
                    None
                } else {
                    Some(ports_of(signature.arguments@, i).len() as usize)
                }),
    {
        let MacroCallbackSignature { callback_type, arguments } = signature;
        let mut ports_name = callback_type.clone();
        ports_name.append("Ports");
        let mut callback_name = callback_type.clone();
        callback_name.append("Callback");
        let ghost all = arguments@;
        let mut rest = arguments;
        let mut ports: Vec<SigArg> = Vec::new();
        let mut subscribers: Vec<usize> = Vec::new();
        let mut publishers: Vec<usize> = Vec::new();
        let mut run_args: Vec<Option<usize>> = Vec::new();
        let ghost mut done: int = 0;
        assert(all.skip(0) =~= all);
        while rest.len() > 0
            invariant
                0 <= done <= all.len(),
                rest@ == all.skip(done),
                ports@ == ports_of(all, done),
                subscribers@ == input_places(ports@, ports@.len() as int),
                publishers@ == output_places(ports@, ports@.len() as int),
                run_args@.len() == done,
                forall|i: int|
                    0 <= i < done ==> #[trigger] run_args@[i] == (
                    if all[i].port_kind is Context {
                        None
                    } else {
                        Some(ports_of(all, i).len() as usize)
                    }),
            decreases rest@.len(),
        {
            let argument = rest.remove(0);
            assert(argument == all[done]);
            assert(rest@ =~= all.skip(done + 1));
            let place: usize = ports.len();
            let ghost before = ports@;
            let input = argument.port_kind.is_input();
            let output = argument.port_kind.is_output();
            if input || output {
                ports.push(argument);
                proof {
                    lemma_places_prefix(before, ports@, before.len() as int);
                }
                if input {
                    subscribers.push(place);
                } else {
                    publishers.push(place);
                }
                run_args.push(Some(place));
            } else {
                run_args.push(None);
            }
            proof {
                done = done + 1;
            }
        }
        CallbackPlan {
            callback_type,
            ports_name,
            callback_name,
            ports,
            subscribers,
            publishers,
            run_args,
        }
    }
}

/// Places do not depend on later ports.
proof fn lemma_places_prefix(a: Seq<SigArg>, b: Seq<SigArg>, n: int)
    requires
        n <= a.len(),
        n <= b.len(),
        forall|i: int| 0 <= i < n ==> #[trigger] a[i] == b[i],
    ensures
        input_places(a, n) == input_places(b, n),
        output_places(a, n) == output_places(b, n),
    decreases n,
{
    if n > 0 {
        lemma_places_prefix(a, b, n - 1);
        assert(a[n - 1] == b[n - 1]);
    }
}

/// Each argument is handed its own port.
pub proof fn law_arguments_get_their_ports(arguments: Seq<SigArg>, i: int, n: int)
    requires
        0 <= i < n <= arguments.len(),
        !(arguments[i].port_kind is Context),
    ensures
        ports_of(arguments, i).len() < ports_of(arguments, n).len(),
        ports_of(arguments, n)[ports_of(arguments, i).len() as int] == arguments[i],
    decreases n,
{
    if i < n - 1 {
        law_arguments_get_their_ports(arguments, i, n - 1);
    }
}

/// Every port is an input or an output, and none is both: it has a place in
/// exactly one of the two lists.
pub proof fn law_each_port_has_one_place(ports: Seq<SigArg>, n: int, i: int)
    requires
        0 <= i < n <= ports.len(),
        n <= usize::MAX,
        !(ports[i].port_kind is Context),
    ensures
        input_places(ports, n).contains(i as usize) <==> ports[i].port_kind.input(),
        output_places(ports, n).contains(i as usize) <==> ports[i].port_kind.output(),
        ports[i].port_kind.input() != ports[i].port_kind.output(),
{
    lemma_places(ports, n, i);
}

proof fn lemma_places(ports: Seq<SigArg>, n: int, i: int)
    requires
        0 <= n <= ports.len(),
        n <= usize::MAX,
        0 <= i <= usize::MAX,
    ensures
        input_places(ports, n).contains(i as usize) <==> i < n && ports[i].port_kind.input(),
        output_places(ports, n).contains(i as usize) <==> i < n && ports[i].port_kind.output(),
    decreases n,
{
    if n > 0 {
        lemma_places(ports, n - 1, i);
        let place = (n - 1) as usize;
        let inputs = input_places(ports, n - 1);
        let outputs = output_places(ports, n - 1);
        if ports[n - 1].port_kind.input() {
            assert(inputs.push(place)[inputs.len() as int] == place);
            if inputs.contains(i as usize) {
                let k = choose|k: int| 0 <= k < inputs.len() && inputs[k] == i as usize;
                assert(inputs.push(place)[k] == i as usize);
            }
            if inputs.push(place).contains(i as usize) {
                let k = choose|k: int|
                    0 <= k < inputs.push(place).len() && inputs.push(place)[k] == i as usize;
                if k < inputs.len() {
                    assert(inputs[k] == i as usize);
                }
            }
        }
        if ports[n - 1].port_kind.output() {
            assert(outputs.push(place)[outputs.len() as int] == place);
            if outputs.contains(i as usize) {
                let k = choose|k: int| 0 <= k < outputs.len() && outputs[k] == i as usize;
                assert(outputs.push(place)[k] == i as usize);
            }
            if outputs.push(place).contains(i as usize) {
                let k = choose|k: int|
                    0 <= k < outputs.push(place).len() && outputs.push(place)[k] == i as usize;
                if k < outputs.len() {
                    assert(outputs[k] == i as usize);
                }
            }
        }
    }
}

/// An argument without the channel that it names.
pub open spec fn without_channel(argument: FnArgument) -> FnArgument {
    match argument {
        FnArgument::Receiver => FnArgument::Receiver,
        FnArgument::Typed(typed) => FnArgument::Typed(
            TypedArgument { channel: ChannelAttribute::Absent, ..typed },
        ),
    }
}

/// Takes the channel names off the arguments of `run`: they mean something to
/// the generated code alone.
pub fn sanitize_impl(block: &mut ImplBlock)
    ensures
        final(block).self_type == old(block).self_type,
        final(block).functions@.len() == old(block).functions@.len(),
        forall|f: int|
            0 <= f < old(block).functions@.len() ==> sanitized(
                old(block).functions@[f],
                #[trigger] final(block).functions@[f],
            ),
{
    let run = "run".to_owned();
    let mut f: usize = 0;
    while f < block.functions.len()
        invariant
            f <= block.functions@.len(),
            run@ == "run"@,
            block.self_type == old(block).self_type,
            block.functions@.len() == old(block).functions@.len(),
            forall|g: int|
                0 <= g < f ==> sanitized(
                    old(block).functions@[g],
                    #[trigger] block.functions@[g],
                ),
            forall|g: int|
                f <= g < block.functions@.len() ==> #[trigger] block.functions@[g] == old(
                    block).functions@[g],
        decreases block.functions@.len() - f,
    {
        if block.functions[f].name == run {
            strip_channels(&mut block.functions[f]);
        }
        f = f + 1;
    }
}

/// Whether `after` is the function `before` without channel names, where they
/// may stand.
pub open spec fn sanitized(before: ImplFunction, after: ImplFunction) -> bool {
    if before.name@ == "run"@ {
        &&& after.name == before.name
        &&& after.inputs@ == before.inputs@.map_values(
            |argument: FnArgument| without_channel(argument),
        )
    } else {
        after == before
    }
}

fn strip_channels(function: &mut ImplFunction)
    ensures
        final(function).name == old(function).name,
        final(function).inputs@ == old(function).inputs@.map_values(
            |argument: FnArgument| without_channel(argument),
        ),
{
    let ghost before = function.inputs@;
    let mut rest: Vec<FnArgument> = Vec::new();
    rest.append(&mut function.inputs);
    let mut stripped: Vec<FnArgument> = Vec::new();
    assert(rest@ =~= before);
    assert(before.skip(0) =~= before);
    while rest.len() > 0
        invariant
            stripped@.len() <= before.len(),
            rest@ == before.skip(stripped@.len() as int),
            function.name == old(function).name,
            forall|i: int|
                0 <= i < stripped@.len() ==> #[trigger] stripped@[i] == without_channel(before[i]),
        decreases rest@.len(),
    {
        let ghost n = stripped@.len() as int;
        let argument = rest.remove(0);
        assert(argument == before[n]);
        assert(rest@ =~= before.skip(n + 1));
        let kept = match argument {
            FnArgument::Receiver => FnArgument::Receiver,
            FnArgument::Typed(typed) => FnArgument::Typed(
                TypedArgument {
                    name: typed.name,
                    ty: typed.ty,
                    channel: ChannelAttribute::Absent,
                },
            ),
        };
        stripped.push(kept);
    }
    function.inputs = stripped;
    assert(function.inputs@ =~= before.map_values(
        |argument: FnArgument| without_channel(argument),
    ));
}

} // verus!
