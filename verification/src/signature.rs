//! What a `run` function asks for: the inputs and outputs that stand behind
//! its arguments.
use vstd::prelude::*;

use crate::callback::{InputKind, OutputKind};

verus! {

/// A generic argument of a type.
#[derive(Debug)]
pub enum GenericArgument {
    /// A type that is one identifier.
    Ident(String),
    /// A type with a longer path.
    Path,
    /// Anything else.
    Other,
}

/// What follows the identifier of a path segment.
#[derive(Debug)]
pub enum PathArguments {
    AngleBracketed(Vec<GenericArgument>),
    /// Nothing, or brackets of another kind.
    Other,
}

/// One segment of a type's path.
#[derive(Debug)]
pub struct PathSegment {
    pub ident: String,
    pub arguments: PathArguments,
}

/// The type of an argument; a path is given by its last segment.
#[derive(Debug)]
pub enum ArgumentType {
    Path(Option<PathSegment>),
    /// `&mut` of a path.
    RefMut(Option<PathSegment>),
    /// `&` of a path.
    Ref(Option<PathSegment>),
    /// `&mut` of anything else.
    RefMutOther,
    /// `&` of anything else.
    RefOther,
    Other,
}

/// The channel that an argument names.
#[derive(Debug)]
pub enum ChannelAttribute {
    Absent,
    /// The expression for the channel's name.
    Expression(String),
    Malformed,
}

/// An argument with a type.
#[derive(Debug)]
pub struct TypedArgument {
    /// The name, if the pattern is a simple identifier.
    pub name: Option<String>,
    pub ty: ArgumentType,
    pub channel: ChannelAttribute,
}

#[derive(Debug)]
pub enum FnArgument {
    Receiver,
    Typed(TypedArgument),
}

#[derive(Debug)]
pub struct ImplFunction {
    pub name: String,
    pub inputs: Vec<FnArgument>,
}

/// The type that an impl block is for.
#[derive(Debug)]
pub enum SelfType {
    Ident(String),
    Path,
    Other,
}

#[derive(Debug)]
pub struct ImplBlock {
    pub self_type: SelfType,
    pub functions: Vec<ImplFunction>,
}

/// What stands behind an argument.
#[allow(inconsistent_fields)]
#[derive(Debug)]
pub enum PortKind {
    Sub { msg: String, ikind: InputKind },
    ForwardableSub { msg: String, ikind: InputKind },
    Pub { msg: String, okind: OutputKind },
    ForwardingPub { user_data: String, forwarded: String },
    Context,
}

#[derive(Debug)]
pub struct SigArg {
    pub port_kind: PortKind,
    pub field_name: String,
    /// Channel name expression, if one is given.
    pub channel: Option<String>,
}

#[derive(Debug)]
pub struct MacroCallbackSignature {
    pub callback_type: String,
    pub arguments: Vec<SigArg>,
}

/// Why an impl block is no callback.
#[derive(Debug)]
pub enum SignatureError {
    StructIdentifier,
    ImplTypePath,
    NoRun,
    NoCallbackBuilder,
    ArgumentPattern,
    PathInsideRefMut,
    PathInsideRef,
    PathType,
    NoSegment,
    Generic,
    NoGenericArgument,
    MessageIdentifier,
    MessagePath,
    Generics,
    TwoArguments,
    ArgumentIdentifier,
    ArgumentPath,
    UnknownArgument(String),
    ChannelOnContext,
    ChannelExpression,
}

impl SignatureError {
    /// The error as a message.
    pub open spec fn text(self) -> Seq<char> {
        match self {
            SignatureError::StructIdentifier => "expected a simple struct identifier"@,
            SignatureError::ImplTypePath => "expected a path for the impl type"@,
            SignatureError::NoRun => "impl block must contain a run() function"@,
            SignatureError::NoCallbackBuilder =>
            "`#[task_callback]` requires a user-defined `callback_builder` method that returns a `CallbackBuilder`, e.g.\n\n    impl MyTask {\n        fn callback_builder(self) -> task::callback_builder::CallbackBuilder {\n            self.builder()\n                .with_execution_duration_callback(|| Duration::from_micros(100))\n                .with_periodic_execution(Duration::from_millis(100))\n        }\n    }"@,
            SignatureError::ArgumentPattern => "argument pattern must be a simple identifier"@,
            SignatureError::PathInsideRefMut => "expected a path type inside &mut reference"@,
            SignatureError::PathInsideRef => "expected a path type inside & reference"@,
            SignatureError::PathType => "expected a path type"@,
            SignatureError::NoSegment => "expected at least one path segment"@,
            SignatureError::Generic =>
            "expected angle-bracket generic (e.g. RequiredInput<MyType>)"@,
            SignatureError::NoGenericArgument => "expected at least one generic argument"@,
            SignatureError::MessageIdentifier => "message type must be a simple identifier"@,
            SignatureError::MessagePath => "generic argument must be a simple type path"@,
            SignatureError::Generics =>
            "expected angle-bracket generics (e.g. ForwardingOutput<A, B>)"@,
            SignatureError::TwoArguments => "expected two generic type arguments"@,
            SignatureError::ArgumentIdentifier => "type argument must be a simple identifier"@,
            SignatureError::ArgumentPath => "type argument must be a simple type path"@,
            SignatureError::UnknownArgument(ident) => "unknown callback argument type '"@ + ident@
                + "'; expected RequiredInput, OptionalInput, InputSpan, ForwardableRequiredInput, ForwardableOptionalInput, ForwardableInputSpan, Output, OutputSpan, ForwardingOutput, Context, or &Context"@,
            SignatureError::ChannelOnContext =>
            "`#[channel(...)]` is not valid on a `Context` argument"@,
            SignatureError::ChannelExpression =>
            "`#[channel(...)]` expects an expression that converts into a channel name, e.g. `#[channel(\"custom_data\")]` or `#[channel(SOURCE_CHANNEL)]`"@,
        }
    }

    pub fn to_string(&self) -> (r: String)
        ensures
            r@ == self.text(),
    {
        match self {
            SignatureError::StructIdentifier => "expected a simple struct identifier".to_owned(),
            SignatureError::ImplTypePath => "expected a path for the impl type".to_owned(),
            SignatureError::NoRun => "impl block must contain a run() function".to_owned(),
            SignatureError::NoCallbackBuilder =>
            "`#[task_callback]` requires a user-defined `callback_builder` method that returns a `CallbackBuilder`, e.g.\n\n    impl MyTask {\n        fn callback_builder(self) -> task::callback_builder::CallbackBuilder {\n            self.builder()\n                .with_execution_duration_callback(|| Duration::from_micros(100))\n                .with_periodic_execution(Duration::from_millis(100))\n        }\n    }".to_owned(),
            SignatureError::ArgumentPattern =>
            "argument pattern must be a simple identifier".to_owned(),
            SignatureError::PathInsideRefMut =>
            "expected a path type inside &mut reference".to_owned(),
            SignatureError::PathInsideRef => "expected a path type inside & reference".to_owned(),
            SignatureError::PathType => "expected a path type".to_owned(),
            SignatureError::NoSegment => "expected at least one path segment".to_owned(),
            SignatureError::Generic =>
            "expected angle-bracket generic (e.g. RequiredInput<MyType>)".to_owned(),
            SignatureError::NoGenericArgument =>
            "expected at least one generic argument".to_owned(),
            SignatureError::MessageIdentifier =>
            "message type must be a simple identifier".to_owned(),
            SignatureError::MessagePath => "generic argument must be a simple type path".to_owned(),
            SignatureError::Generics =>
            "expected angle-bracket generics (e.g. ForwardingOutput<A, B>)".to_owned(),
            SignatureError::TwoArguments => "expected two generic type arguments".to_owned(),
            SignatureError::ArgumentIdentifier =>
            "type argument must be a simple identifier".to_owned(),
            SignatureError::ArgumentPath => "type argument must be a simple type path".to_owned(),
            SignatureError::UnknownArgument(ident) => {
                let mut text = "unknown callback argument type '".to_owned();
                text.append(ident.as_str());
                text.append(
                    "'; expected RequiredInput, OptionalInput, InputSpan, ForwardableRequiredInput, ForwardableOptionalInput, ForwardableInputSpan, Output, OutputSpan, ForwardingOutput, Context, or &Context",
                );
                text
            },
            SignatureError::ChannelOnContext =>
            "`#[channel(...)]` is not valid on a `Context` argument".to_owned(),
            SignatureError::ChannelExpression =>
            "`#[channel(...)]` expects an expression that converts into a channel name, e.g. `#[channel(\"custom_data\")]` or `#[channel(SOURCE_CHANNEL)]`".to_owned(),
        }
    }
}

/// The message type of a view: its last generic argument.
pub open spec fn message_type(segment: PathSegment) -> Result<String, SignatureError> {
    match segment.arguments {
        PathArguments::AngleBracketed(args) => if args@.len() == 0 {
            Err(SignatureError::NoGenericArgument)
        } else {
            match args@.last() {
                GenericArgument::Ident(ident) => Ok(ident),
                GenericArgument::Path => Err(SignatureError::MessageIdentifier),
                GenericArgument::Other => Err(SignatureError::MessagePath),
            }
        },
        PathArguments::Other => Err(SignatureError::Generic),
    }
}

fn get_message_type(segment: &PathSegment) -> (r: Result<String, SignatureError>)
    ensures
        r == message_type(*segment),
{
    match &segment.arguments {
        PathArguments::AngleBracketed(args) => if args.len() == 0 {
            Err(SignatureError::NoGenericArgument)
        } else {
            match &args[args.len() - 1] {
                GenericArgument::Ident(ident) => Ok(ident.clone()),
                GenericArgument::Path => Err(SignatureError::MessageIdentifier),
                GenericArgument::Other => Err(SignatureError::MessagePath),
            }
        },
        PathArguments::Other => Err(SignatureError::Generic),
    }
}

/// A generic argument that has to be one identifier.
pub open spec fn argument_ident(argument: GenericArgument) -> Result<String, SignatureError> {
    match argument {
        GenericArgument::Ident(ident) => Ok(ident),
        GenericArgument::Path => Err(SignatureError::ArgumentIdentifier),
        GenericArgument::Other => Err(SignatureError::ArgumentPath),
    }
}

fn to_ident(argument: &GenericArgument) -> (r: Result<String, SignatureError>)
    ensures
        r == argument_ident(*argument),
{
    match argument {
        GenericArgument::Ident(ident) => Ok(ident.clone()),
        GenericArgument::Path => Err(SignatureError::ArgumentIdentifier),
        GenericArgument::Other => Err(SignatureError::ArgumentPath),
    }
}

/// The two message types of a forwarding output: its first two generic
/// arguments.
pub open spec fn two_message_types(segment: PathSegment) -> Result<
    (String, String),
    SignatureError,
> {
    match segment.arguments {
        PathArguments::AngleBracketed(args) => if args@.len() < 2 {
            Err(SignatureError::TwoArguments)
        } else {
            match (argument_ident(args@[0]), argument_ident(args@[1])) {
                (Err(error), _) => Err(error),
                (_, Err(error)) => Err(error),
                (Ok(a), Ok(b)) => Ok((a, b)),
            }
        },
        PathArguments::Other => Err(SignatureError::Generics),
    }
}

fn get_two_message_types(segment: &PathSegment) -> (r: Result<(String, String), SignatureError>)
    ensures
        r == two_message_types(*segment),
{
    match &segment.arguments {
        PathArguments::AngleBracketed(args) => if args.len() < 2 {
            Err(SignatureError::TwoArguments)
        } else {
            match to_ident(&args[0]) {
                Ok(a) => match to_ident(&args[1]) {
                    Ok(b) => Ok((a, b)),
                    Err(error) => Err(error),
                },
                Err(error) => Err(error),
            }
        },
        PathArguments::Other => Err(SignatureError::Generics),
    }
}

/// How a type appears in an argument.
#[derive(Debug, Clone, Copy, PartialEq, Eq, Structural)]
pub enum TypeForm {
    Value,
    RefMut,
    Ref,
}

/// The input that a view asks for, and whether it can be forwarded.
pub open spec fn input_view(ident: Seq<char>) -> Option<(bool, InputKind)> {
    if ident == "RequiredInput"@ {
        Some((false, InputKind::Required))
    } else if ident == "OptionalInput"@ {
        Some((false, InputKind::Optional))
    } else if ident == "InputSpan"@ {
        Some((false, InputKind::Span))
    } else if ident == "ForwardableRequiredInput"@ {
        Some((true, InputKind::Required))
    } else if ident == "ForwardableOptionalInput"@ {
        Some((true, InputKind::Optional))
    } else if ident == "ForwardableInputSpan"@ {
        Some((true, InputKind::Span))
    } else {
        None
    }
}

fn find_input_view(ident: &String) -> (r: Option<(bool, InputKind)>)
    ensures
        r == input_view(ident@),
{
    if *ident == "RequiredInput".to_owned() {
        Some((false, InputKind::Required))
    } else if *ident == "OptionalInput".to_owned() {
        Some((false, InputKind::Optional))
    } else if *ident == "InputSpan".to_owned() {
        Some((false, InputKind::Span))
    } else if *ident == "ForwardableRequiredInput".to_owned() {
        Some((true, InputKind::Required))
    } else if *ident == "ForwardableOptionalInput".to_owned() {
        Some((true, InputKind::Optional))
    } else if *ident == "ForwardableInputSpan".to_owned() {
        Some((true, InputKind::Span))
    } else {
        None
    }
}

/// The output that a view asks for.
pub open spec fn output_view(ident: Seq<char>) -> Option<OutputKind> {
    if ident == "Output"@ {
        Some(OutputKind::Default)
    } else if ident == "OutputSpan"@ {
        Some(OutputKind::Span)
    } else {
        None
    }
}

fn find_output_view(ident: &String) -> (r: Option<OutputKind>)
    ensures
        r == output_view(ident@),
{
    if *ident == "Output".to_owned() {
        Some(OutputKind::Default)
    } else if *ident == "OutputSpan".to_owned() {
        Some(OutputKind::Span)
    } else {
        None
    }
}

/// What stands behind a type: views are taken by value, the context by value
/// or by reference.
pub open spec fn port_kind(segment: PathSegment, form: TypeForm) -> Result<
    PortKind,
    SignatureError,
> {
    if form is Value && input_view(segment.ident@) is Some {
        match message_type(segment) {
            Ok(msg) => {
                let (forwardable, ikind) = input_view(segment.ident@)->0;
                if forwardable {
                    Ok(PortKind::ForwardableSub { msg, ikind })
                } else {
                    Ok(PortKind::Sub { msg, ikind })
                }
            },
            Err(error) => Err(error),
        }
    } else if form is Value && output_view(segment.ident@) is Some {
        match message_type(segment) {
            Ok(msg) => Ok(PortKind::Pub { msg, okind: output_view(segment.ident@)->0 }),
            Err(error) => Err(error),
        }
    } else if form is Value && segment.ident@ == "ForwardingOutput"@ {
        match two_message_types(segment) {
            Ok(types) => Ok(PortKind::ForwardingPub { user_data: types.0, forwarded: types.1 }),
            Err(error) => Err(error),
        }
    } else if !(form is RefMut) && segment.ident@ == "Context"@ {
        Ok(PortKind::Context)
    } else {
        Err(SignatureError::UnknownArgument(segment.ident))
    }
}

fn classify(segment: &PathSegment, form: TypeForm) -> (r: Result<PortKind, SignatureError>)
    ensures
        r == port_kind(*segment, form),
{
    let by_value = match form {
        TypeForm::Value => true,
        _ => false,
    };
    let by_mut = match form {
        TypeForm::RefMut => true,
        _ => false,
    };
    if by_value {
        if let Some((forwardable, ikind)) = find_input_view(&segment.ident) {
            return match get_message_type(segment) {
                Ok(msg) => if forwardable {
                    Ok(PortKind::ForwardableSub { msg, ikind })
                } else {
                    Ok(PortKind::Sub { msg, ikind })
                },
                Err(error) => Err(error),
            };
        }
        if let Some(okind) = find_output_view(&segment.ident) {
            return match get_message_type(segment) {
                Ok(msg) => Ok(PortKind::Pub { msg, okind }),
                Err(error) => Err(error),
            };
        }
        if segment.ident == "ForwardingOutput".to_owned() {
            return match get_two_message_types(segment) {
                Ok((user_data, forwarded)) => Ok(PortKind::ForwardingPub { user_data, forwarded }),
                Err(error) => Err(error),
            };
        }
    }
    if !by_mut && segment.ident == "Context".to_owned() {
        return Ok(PortKind::Context);
    }
    Err(SignatureError::UnknownArgument(segment.ident.clone()))
}

/// The last segment of an argument's type, and how it appears.
pub open spec fn type_path(ty: ArgumentType) -> Result<(PathSegment, TypeForm), SignatureError> {
    match ty {
        ArgumentType::Path(Some(segment)) => Ok((segment, TypeForm::Value)),
        ArgumentType::RefMut(Some(segment)) => Ok((segment, TypeForm::RefMut)),
        ArgumentType::Ref(Some(segment)) => Ok((segment, TypeForm::Ref)),
        ArgumentType::Path(None) => Err(SignatureError::NoSegment),
        ArgumentType::RefMut(None) => Err(SignatureError::NoSegment),
        ArgumentType::Ref(None) => Err(SignatureError::NoSegment),
        ArgumentType::RefMutOther => Err(SignatureError::PathInsideRefMut),
        ArgumentType::RefOther => Err(SignatureError::PathInsideRef),
        ArgumentType::Other => Err(SignatureError::PathType),
    }
}

fn find_type_path(ty: &ArgumentType) -> (r: Result<(&PathSegment, TypeForm), SignatureError>)
    ensures
        match r {
            Ok(found) => type_path(*ty) == Ok::<(PathSegment, TypeForm), SignatureError>(
                (*found.0, found.1),
            ),
            Err(error) => type_path(*ty) == Err::<(PathSegment, TypeForm), SignatureError>(error),
        },
{
    match ty {
        ArgumentType::Path(Some(segment)) => Ok((segment, TypeForm::Value)),
        ArgumentType::RefMut(Some(segment)) => Ok((segment, TypeForm::RefMut)),
        ArgumentType::Ref(Some(segment)) => Ok((segment, TypeForm::Ref)),
        ArgumentType::Path(None) => Err(SignatureError::NoSegment),
        ArgumentType::RefMut(None) => Err(SignatureError::NoSegment),
        ArgumentType::Ref(None) => Err(SignatureError::NoSegment),
        ArgumentType::RefMutOther => Err(SignatureError::PathInsideRefMut),
        ArgumentType::RefOther => Err(SignatureError::PathInsideRef),
        ArgumentType::Other => Err(SignatureError::PathType),
    }
}

/// The channel that an argument names; a context has none.
pub open spec fn channel_of(channel: ChannelAttribute, is_context: bool) -> Result<
    Option<String>,
    SignatureError,
> {
    match channel {
        ChannelAttribute::Absent => Ok(None),
        _ => if is_context {
            Err(SignatureError::ChannelOnContext)
        } else {
            match channel {
                ChannelAttribute::Expression(expression) => Ok(Some(expression)),
                _ => Err(SignatureError::ChannelExpression),
            }
        },
    }
}

fn channel_expr(channel: &ChannelAttribute, is_context: bool) -> (r: Result<
    Option<String>,
    SignatureError,
>)
    ensures
        r == channel_of(*channel, is_context),
{
    match channel {
        ChannelAttribute::Absent => Ok(None),
        ChannelAttribute::Expression(expression) => if is_context {
            Err(SignatureError::ChannelOnContext)
        } else {
            Ok(Some(expression.clone()))
        },
        ChannelAttribute::Malformed => if is_context {
            Err(SignatureError::ChannelOnContext)
        } else {
            Err(SignatureError::ChannelExpression)
        },
    }
}

/// What an argument asks for, or the first thing that is wrong with it: its
/// name, its type, its channel.
pub open spec fn argument_of(argument: TypedArgument) -> Result<SigArg, SignatureError> {
    match argument.name {
        None => Err(SignatureError::ArgumentPattern),
        Some(field_name) => match type_path(argument.ty) {
            Err(error) => Err(error),
            Ok((segment, form)) => match port_kind(segment, form) {
                Err(error) => Err(error),
                Ok(port_kind) => match channel_of(argument.channel, port_kind is Context) {
                    Err(error) => Err(error),
                    Ok(channel) => Ok(SigArg { port_kind, field_name, channel }),
                },
            },
        },
    }
}

fn find_argument(argument: &TypedArgument) -> (r: Result<SigArg, SignatureError>)
    ensures
        r == argument_of(*argument),
{
    let field_name = match &argument.name {
        Some(name) => name.clone(),
        None => {
            return Err(SignatureError::ArgumentPattern);
        },
    };
    let (segment, form) = match find_type_path(&argument.ty) {
        Ok(found) => found,
        Err(error) => {
            return Err(error);
        },
    };
    let port_kind = match classify(segment, form) {
        Ok(port_kind) => port_kind,
        Err(error) => {
            return Err(error);
        },
    };
    let is_context = match &port_kind {
        PortKind::Context => true,
        _ => false,
    };
    match channel_expr(&argument.channel, is_context) {
        Ok(channel) => Ok(SigArg { port_kind, field_name, channel }),
        Err(error) => Err(error),
    }
}

/// The arguments among the first `n` inputs of a function, or the first error.
pub open spec fn arguments_of(inputs: Seq<FnArgument>, n: int) -> Result<
    Seq<SigArg>,
    SignatureError,
>
    decreases n,
{
    if n <= 0 {
        Ok(Seq::empty())
    } else {
        match arguments_of(inputs, n - 1) {
            Err(error) => Err(error),
            Ok(arguments) => match inputs[n - 1] {
                FnArgument::Receiver => Ok(arguments),
                FnArgument::Typed(argument) => match argument_of(argument) {
                    Err(error) => Err(error),
                    Ok(found) => Ok(arguments.push(found)),
                },
            },
        }
    }
}

/// Whether function `i` is the first of that name.
pub open spec fn first_named(functions: Seq<ImplFunction>, name: Seq<char>, i: int) -> bool {
    &&& 0 <= i < functions.len()
    &&& functions[i].name@ == name
    &&& forall|j: int| 0 <= j < i ==> (#[trigger] functions[j]).name@ != name
}

/// Whether there is a function of that name.
pub open spec fn has_function(functions: Seq<ImplFunction>, name: Seq<char>) -> bool {
    exists|i: int| #[trigger] first_named(functions, name, i)
}

fn find_function(functions: &Vec<ImplFunction>, name: &str) -> (r: Option<usize>)
    ensures
        r is Some <==> has_function(functions@, name@),
        r matches Some(i) ==> first_named(functions@, name@, i as int),
{
    let wanted = name.to_owned();
    let mut i: usize = 0;
    while i < functions.len()
        invariant
            i <= functions@.len(),
            wanted@ == name@,
            forall|j: int| 0 <= j < i ==> (#[trigger] functions@[j]).name@ != name@,
        decreases functions@.len() - i,
    {
        if functions[i].name == wanted {
            assert(first_named(functions@, name@, i as int));
            return Some(i);
        }
        i = i + 1;
    }
    None
}

/// Whether `r` is what an impl block declares: its type, a `run` function, a
/// `callback_builder`, and the arguments of `run`; or the first error.
pub open spec fn declares(block: ImplBlock, r: Result<MacroCallbackSignature, SignatureError>) -> bool {
    match block.self_type {
        SelfType::Path => r is Err && r->Err_0 is StructIdentifier,
        SelfType::Other => r is Err && r->Err_0 is ImplTypePath,
        SelfType::Ident(ident) => if !has_function(block.functions@, "run"@) {
            r is Err && r->Err_0 is NoRun
        } else if !has_function(block.functions@, "callback_builder"@) {
            r is Err && r->Err_0 is NoCallbackBuilder
        } else {
            exists|i: int| #[trigger]
                first_named(block.functions@, "run"@, i) && {
                    let inputs = block.functions@[i].inputs@;
                    match arguments_of(inputs, inputs.len() as int) {
                        Ok(arguments) => r is Ok && r->Ok_0.callback_type@ == ident@
                            && r->Ok_0.arguments@ == arguments,
                        Err(error) => r is Err && r->Err_0 == error,
                    }
                }
        },
    }
}

/// Finds the signature of a callback in its impl block.
pub fn find_signature(block: &ImplBlock) -> (r: Result<MacroCallbackSignature, SignatureError>)
    ensures
        declares(*block, r),
{
    let callback_type = match &block.self_type {
        SelfType::Ident(ident) => ident.clone(),
        SelfType::Path => {
            return Err(SignatureError::StructIdentifier);
        },
        SelfType::Other => {
            return Err(SignatureError::ImplTypePath);
        },
    };
    let run = match find_function(&block.functions, "run") {
        Some(run) => run,
        None => {
            return Err(SignatureError::NoRun);
        },
    };
    if find_function(&block.functions, "callback_builder").is_none() {
        return Err(SignatureError::NoCallbackBuilder);
    }
    let inputs = &block.functions[run].inputs;
    let ghost all = inputs@;
    let mut arguments: Vec<SigArg> = Vec::new();
    let mut k: usize = 0;
    while k < inputs.len()
        invariant
            k <= inputs@.len(),
            all == inputs@,
            run < block.functions@.len(),
            all == block.functions@[run as int].inputs@,
            first_named(block.functions@, "run"@, run as int),
            has_function(block.functions@, "run"@),
            has_function(block.functions@, "callback_builder"@),
            block.self_type is Ident,
            arguments_of(all, k as int) == Ok::<Seq<SigArg>, SignatureError>(arguments@),
        decreases inputs@.len() - k,
    {
        match &inputs[k] {
            FnArgument::Receiver => {},
            FnArgument::Typed(argument) => match find_argument(argument) {
                Ok(found) => {
                    arguments.push(found);
                },
                Err(error) => {
                    proof {
                        lemma_error_stays(all, k + 1, all.len() as int);
                    }
                    let r: Result<MacroCallbackSignature, SignatureError> = Err(error);
                    assert(first_named(block.functions@, "run"@, run as int));
                    assert(declares(*block, r));
                    return r;
                },
            },
        }
        k = k + 1;
    }
    let r: Result<MacroCallbackSignature, SignatureError> = Ok(
        MacroCallbackSignature { callback_type, arguments },
    );
    assert(first_named(block.functions@, "run"@, run as int));
    r
}

/// The first error stays.
proof fn lemma_error_stays(inputs: Seq<FnArgument>, k: int, n: int)
    requires
        0 <= k <= n,
        arguments_of(inputs, k) is Err,
    ensures
        arguments_of(inputs, n) == arguments_of(inputs, k),
    decreases n - k,
{
    if k < n {
        lemma_error_stays(inputs, k, n - 1);
    }
}

} // verus!
