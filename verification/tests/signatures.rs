use cfw::callback::{InputKind, OutputKind};
use cfw::callback_plan::{sanitize_impl, CallbackPlan};
use cfw::signature::{
    find_signature, ArgumentType, ChannelAttribute, FnArgument, GenericArgument, ImplBlock,
    ImplFunction, PathArguments, PathSegment, PortKind, SelfType, SignatureError, TypedArgument,
};

fn generic(ident: &str, arguments: &[&str]) -> Option<PathSegment> {
    Some(PathSegment {
        ident: ident.to_string(),
        arguments: if arguments.is_empty() {
            PathArguments::Other
        } else {
            PathArguments::AngleBracketed(
                arguments
                    .iter()
                    .map(|a| GenericArgument::Ident(a.to_string()))
                    .collect(),
            )
        },
    })
}

fn typed(name: &str, ty: ArgumentType) -> FnArgument {
    FnArgument::Typed(TypedArgument {
        name: Some(name.to_string()),
        ty,
        channel: ChannelAttribute::Absent,
    })
}

fn block(inputs: Vec<FnArgument>) -> ImplBlock {
    ImplBlock {
        self_type: SelfType::Ident("MyCallback".to_string()),
        functions: vec![
            ImplFunction {
                name: "run".to_string(),
                inputs,
            },
            ImplFunction {
                name: "callback_builder".to_string(),
                inputs: vec![FnArgument::Receiver],
            },
        ],
    }
}

#[test]
fn test_build_and_run() {
    let task = block(vec![
        FnArgument::Receiver,
        typed(
            "my_input",
            ArgumentType::Path(generic("RequiredInput", &["i32"])),
        ),
        typed("my_output", ArgumentType::Path(generic("Output", &["i32"]))),
    ]);
    let plan = CallbackPlan::new(find_signature(&task).unwrap());

    let subs = &plan.subscribers;
    assert!(subs.len() == 1);
    match &plan.ports[subs[0]].port_kind {
        PortKind::Sub { msg, ikind } => {
            assert_eq!(msg, "i32");
            let config = ikind.subscriber_config("my_input".to_string());
            assert!(!config.is_optional);
        }
        _ => panic!("the first port is an input"),
    }

    let pubs = &plan.publishers;
    assert!(pubs.len() == 1);
    assert!(matches!(
        plan.ports[pubs[0]].port_kind,
        PortKind::Pub {
            okind: OutputKind::Default,
            ..
        }
    ));
    assert_eq!(plan.ports_name, "MyCallbackPorts");
    assert_eq!(plan.callback_name, "MyCallbackCallback");
    assert_eq!(plan.run_args, vec![Some(0), Some(1)]);
}

#[test]
fn every_kind_of_argument_is_known() {
    let task = block(vec![
        FnArgument::Receiver,
        typed("a", ArgumentType::Path(generic("OptionalInput", &["A"]))),
        typed("b", ArgumentType::Path(generic("InputSpan", &["B"]))),
        typed("ctx", ArgumentType::Ref(generic("Context", &[]))),
        typed(
            "c",
            ArgumentType::Path(generic("ForwardableRequiredInput", &["C"])),
        ),
        typed("d", ArgumentType::Path(generic("OutputSpan", &["D"]))),
        typed(
            "e",
            ArgumentType::Path(generic("ForwardingOutput", &["E", "F"])),
        ),
    ]);
    let plan = CallbackPlan::new(find_signature(&task).unwrap());
    assert_eq!(plan.ports.len(), 5);
    assert_eq!(plan.subscribers, vec![0, 1, 2]);
    assert_eq!(plan.publishers, vec![3, 4]);
    assert_eq!(
        plan.run_args,
        vec![Some(0), Some(1), None, Some(2), Some(3), Some(4)]
    );
    assert!(matches!(
        plan.ports[1].port_kind,
        PortKind::Sub {
            ikind: InputKind::Span,
            ..
        }
    ));
    assert!(matches!(
        plan.ports[2].port_kind,
        PortKind::ForwardableSub {
            ikind: InputKind::Required,
            ..
        }
    ));
    match &plan.ports[4].port_kind {
        PortKind::ForwardingPub {
            user_data,
            forwarded,
        } => assert_eq!((user_data.as_str(), forwarded.as_str()), ("E", "F")),
        _ => panic!("the last port forwards"),
    }
}

#[test]
fn channels_are_taken_from_their_attribute() {
    let mut task = block(vec![
        FnArgument::Receiver,
        FnArgument::Typed(TypedArgument {
            name: Some("a".to_string()),
            ty: ArgumentType::Path(generic("RequiredInput", &["A"])),
            channel: ChannelAttribute::Expression("\"custom\"".to_string()),
        }),
    ]);
    let signature = find_signature(&task).unwrap();
    assert_eq!(signature.arguments[0].channel, Some("\"custom\"".to_string()));
    sanitize_impl(&mut task);
    match &task.functions[0].inputs[1] {
        FnArgument::Typed(argument) => {
            assert!(matches!(argument.channel, ChannelAttribute::Absent))
        }
        FnArgument::Receiver => panic!("the argument stays where it is"),
    }
}

fn error_of(inputs: Vec<FnArgument>) -> SignatureError {
    find_signature(&block(inputs)).err().unwrap()
}

#[test]
fn what_is_no_callback_is_refused() {
    let unknown = error_of(vec![typed("a", ArgumentType::Path(generic("Vec", &["A"])))]);
    assert!(unknown
        .to_string()
        .starts_with("unknown callback argument type 'Vec'; expected RequiredInput"));
    assert!(matches!(
        error_of(vec![typed(
            "a",
            ArgumentType::Path(generic("RequiredInput", &[]))
        )]),
        SignatureError::Generic
    ));
    assert!(matches!(
        error_of(vec![typed(
            "a",
            ArgumentType::Path(generic("ForwardingOutput", &["A"]))
        )]),
        SignatureError::TwoArguments
    ));
    assert!(matches!(
        error_of(vec![typed("a", ArgumentType::RefMutOther)]),
        SignatureError::PathInsideRefMut
    ));
    assert!(matches!(
        error_of(vec![typed("a", ArgumentType::RefOther)]),
        SignatureError::PathInsideRef
    ));
    assert!(matches!(
        error_of(vec![typed("a", ArgumentType::Other)]),
        SignatureError::PathType
    ));
    assert!(matches!(
        error_of(vec![typed("a", ArgumentType::Path(None))]),
        SignatureError::NoSegment
    ));
    assert!(matches!(
        error_of(vec![FnArgument::Typed(TypedArgument {
            name: None,
            ty: ArgumentType::Path(generic("RequiredInput", &["A"])),
            channel: ChannelAttribute::Absent,
        })]),
        SignatureError::ArgumentPattern
    ));
    assert!(matches!(
        error_of(vec![FnArgument::Typed(TypedArgument {
            name: Some("ctx".to_string()),
            ty: ArgumentType::Ref(generic("Context", &[])),
            channel: ChannelAttribute::Expression("X".to_string()),
        })]),
        SignatureError::ChannelOnContext
    ));
    assert!(matches!(
        error_of(vec![FnArgument::Typed(TypedArgument {
            name: Some("a".to_string()),
            ty: ArgumentType::Path(generic("RequiredInput", &["A"])),
            channel: ChannelAttribute::Malformed,
        })]),
        SignatureError::ChannelExpression
    ));
}

#[test]
fn an_impl_block_needs_its_functions() {
    let mut task = block(vec![]);
    task.functions.remove(1);
    assert!(matches!(
        find_signature(&task),
        Err(SignatureError::NoCallbackBuilder)
    ));
    let mut task = block(vec![]);
    task.functions.remove(0);
    assert_eq!(
        find_signature(&task).err().unwrap().to_string(),
        "impl block must contain a run() function"
    );
    let mut task = block(vec![]);
    task.self_type = SelfType::Path;
    assert!(matches!(
        find_signature(&task),
        Err(SignatureError::StructIdentifier)
    ));
    task.self_type = SelfType::Other;
    assert!(matches!(
        find_signature(&task),
        Err(SignatureError::ImplTypePath)
    ));
}
