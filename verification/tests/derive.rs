use blarg::derive::generate_parameter;
use blarg::derive::generate_parser;
use blarg::derive::generate_sub_parser;
use blarg::derive::load_parser;
use blarg::derive::load_sub_parser;
use blarg::derive::StructModel;
use blarg::derive::load_parameter;
use blarg::derive::CommandExpr;
use blarg::derive::DefaultNote;
use blarg::derive::FieldModel;
use blarg::derive::FieldWrapper;
use blarg::derive::Hints;
use blarg::derive::ParameterKind;

fn field(type_head: &str) -> FieldModel {
    FieldModel {
        name: "my_field".to_string(),
        type_head: type_head.to_string(),
        argument: false,
        option: false,
        short: None,
        collection: None,
        help: None,
        choices: None,
        commands: None,
    }
}

#[test]
fn construct_scalar_argument() {
    let p = load_parameter(&field("usize")).unwrap();
    assert_eq!(p.field_name, "my_field");
    assert!(matches!(p.kind, ParameterKind::ScalarArgument));
    assert!(p.help.is_none());
}

#[test]
fn construct_optional_option() {
    let p = load_parameter(&field("Option")).unwrap();
    assert!(matches!(p.kind, ParameterKind::OptionalOption { short: None }));
}

#[test]
fn construct_optional_option_short() {
    let mut f = field("Option");
    f.short = Some("'m'".to_string());
    let p = load_parameter(&f).unwrap();
    match p.kind {
        ParameterKind::OptionalOption { short } => assert_eq!(short, Some("'m'".to_string())),
        _ => panic!("expected an optional option"),
    }
}

#[test]
fn construct_switch() {
    let p = load_parameter(&field("bool")).unwrap();
    assert!(matches!(p.kind, ParameterKind::Switch { short: None }));
}

#[test]
fn construct_collection_argument() {
    let p = load_parameter(&field("Vec")).unwrap();
    match p.kind {
        ParameterKind::CollectionArgument { nargs } => assert_eq!(nargs, "Nargs::AtLeastOne"),
        _ => panic!("expected a collection argument"),
    }
}

#[test]
fn construct_collection_option() {
    let mut f = field("HashSet");
    f.option = true;
    f.collection = Some("Nargs::Any".to_string());
    let p = load_parameter(&f).unwrap();
    match p.kind {
        ParameterKind::CollectionOption { nargs, short } => {
            assert_eq!(nargs, "Nargs::Any");
            assert!(short.is_none());
        }
        _ => panic!("expected a collection option"),
    }
}

#[test]
fn construct_with_help() {
    let mut f = field("usize");
    f.help = Some("\"abc 123\"".to_string());
    let p = load_parameter(&f).unwrap();
    assert_eq!(p.help, Some("\"abc 123\"".to_string()));
}

#[test]
fn construct_scalar_option() {
    let mut f = field("usize");
    f.option = true;
    let p = load_parameter(&f).unwrap();
    assert!(matches!(p.kind, ParameterKind::ScalarOption { short: None }));
}

#[test]
fn construct_superfluous_short() {
    let mut f = field("usize");
    f.argument = true;
    f.short = Some("'c'".to_string());
    let p = load_parameter(&f).unwrap();
    assert!(matches!(p.kind, ParameterKind::ScalarArgument));
}

#[test]
fn construct_condition_path() {
    let mut f = field("usize");
    f.commands = Some(vec![
        CommandExpr::Pair { variant: "0".to_string(), command_struct: "Abc".to_string() },
        CommandExpr::Pair { variant: "Foo::Bar".to_string(), command_struct: "Def".to_string() },
    ]);
    let p = load_parameter(&f).unwrap();
    match p.kind {
        ParameterKind::Condition { commands } => assert_eq!(
            commands,
            vec![
                ("0".to_string(), "Abc".to_string()),
                ("Foo::Bar".to_string(), "Def".to_string())
            ]
        ),
        _ => panic!("expected a condition"),
    }
}

#[test]
fn construct_argument_option() {
    let mut f = field("usize");
    f.argument = true;
    f.option = true;
    let error = load_parameter(&f).err().unwrap();
    assert!(error.contains("Invalid - field cannot be both"));
    assert!(error.contains("#[blarg(argument)]"));
    assert!(error.contains("#[blarg(option)]"));
}

#[test]
fn construct_command_option() {
    let mut f = field("usize");
    f.option = true;
    f.commands = Some(vec![CommandExpr::Pair { variant: "0".to_string(), command_struct: "Abc".to_string() }]);
    let error = load_parameter(&f).err().unwrap();
    assert!(error.contains("Invalid - field cannot be both"));
    assert!(error.contains("#[blarg(command = ..)]"));
    assert!(error.contains("#[blarg(option)]"));
}

#[test]
fn construct_command_collection() {
    let mut f = field("usize");
    f.collection = Some("Nargs::Any".to_string());
    f.commands = Some(vec![CommandExpr::Pair { variant: "0".to_string(), command_struct: "Abc".to_string() }]);
    let error = load_parameter(&f).err().unwrap();
    assert!(error.contains("Invalid - field cannot be both"));
    assert!(error.contains("#[blarg(command = ..)]"));
    assert!(error.contains("#[blarg(collection = ..)]"));
}

#[test]
fn construct_condition_invalid() {
    let mut f = field("usize");
    f.commands = Some(vec![CommandExpr::Malformed("abc".to_string())]);
    let error = load_parameter(&f).err().unwrap();
    assert!(error.contains("Invalid - command assignment expecting `(BranchVariant, SubCommandStruct)`"));
    assert!(error.contains("found `abc`"));
}

#[test]
fn construct_command_option_implicit() {
    let mut f = field("Option");
    f.commands = Some(vec![CommandExpr::Pair { variant: "0".to_string(), command_struct: "Abc".to_string() }]);
    let error = load_parameter(&f).err().unwrap();
    assert!(error.contains("Invalid - field cannot be both"));
    assert!(error.contains("#[blarg(command = ..)]"));
    assert!(error.contains("Option<..>"));
}

#[test]
fn construct_argument_option_implicit() {
    let mut f = field("Option");
    f.argument = true;
    let error = load_parameter(&f).err().unwrap();
    assert!(error.contains("Invalid - field cannot be both"));
    assert!(error.contains("#[blarg(argument)]"));
    assert!(error.contains("Option<..>"));
}

#[test]
fn construct_collection_option_implicit() {
    let mut f = field("Option");
    f.collection = Some("Nargs::Any".to_string());
    let error = load_parameter(&f).err().unwrap();
    assert!(error.contains("#[blarg(collection = ..)]"));
    assert!(error.contains("Option<..>"));
}

#[test]
fn construct_command_collection_implicit_vec() {
    let mut f = field("Vec");
    f.commands = Some(vec![CommandExpr::Pair { variant: "0".to_string(), command_struct: "Abc".to_string() }]);
    let error = load_parameter(&f).err().unwrap();
    assert!(error.contains("#[blarg(command = ..)]"));
    assert!(error.contains("Vec<..>"));
}

#[test]
fn construct_command_collection_implicit_hashset() {
    let mut f = field("HashSet");
    f.commands = Some(vec![CommandExpr::Pair { variant: "0".to_string(), command_struct: "Abc".to_string() }]);
    let error = load_parameter(&f).err().unwrap();
    assert!(error.contains("#[blarg(command = ..)]"));
    assert!(error.contains("HashSet<..>"));
}

#[test]
fn construct_command_switch_implicit() {
    let mut f = field("bool");
    f.commands = Some(vec![CommandExpr::Pair { variant: "0".to_string(), command_struct: "Abc".to_string() }]);
    let error = load_parameter(&f).err().unwrap();
    assert!(error.contains("#[blarg(command = ..)]"));
    assert!(error.contains("bool"));
}

#[test]
fn generate_scalar_option_call() {
    let mut f = field("usize");
    f.option = true;
    f.short = Some("'v'".to_string());
    let p = load_parameter(&f).unwrap();
    let call = generate_parameter(&p, "target");
    assert!(!call.branch);
    assert!(matches!(call.wrapper, FieldWrapper::Scalar));
    assert_eq!(call.target, "target.my_field");
    assert_eq!(call.name, "my_field");
    assert_eq!(call.option_short, Some(Some("'v'".to_string())));
    assert!(call.default_note == DefaultNote::Always);
}

#[test]
fn generate_condition_call() {
    let mut f = field("usize");
    f.commands = Some(vec![CommandExpr::Pair { variant: "0".to_string(), command_struct: "Abc".to_string() }]);
    let p = load_parameter(&f).unwrap();
    let call = generate_parameter(&p, "target");
    assert!(call.branch);
    assert!(call.option_short.is_none());
    assert_eq!(call.commands, vec![("0".to_string(), "Abc".to_string())]);
}

#[test]
fn generate_collection_argument_call() {
    let p = load_parameter(&field("Vec")).unwrap();
    let call = generate_parameter(&p, "target");
    match call.wrapper {
        FieldWrapper::Collection(nargs) => assert_eq!(nargs, "Nargs::AtLeastOne"),
        _ => panic!("expected a collection"),
    }
    assert!(call.option_short.is_none());
    assert!(call.default_note == DefaultNote::Never);
}

fn structure(name: &str) -> StructModel {
    StructModel {
        name: name.to_string(),
        is_struct: true,
        program: None,
        about: None,
        initializer: None,
        hints_on: false,
        hints_off: false,
        fields: Vec::new(),
    }
}

fn condition(name: &str, variant: &str, command_struct: &str) -> FieldModel {
    let mut f = field("u32");
    f.name = name.to_string();
    f.commands = Some(vec![CommandExpr::Pair { variant: variant.to_string(), command_struct: command_struct.to_string() }]);
    f
}

#[test]
fn construct_derive_parser_empty() {
    let p = load_parser(&structure("Parameters")).unwrap();
    assert_eq!(p.struct_name, "Parameters");
    assert_eq!(p.program, "env!(\"CARGO_CRATE_NAME\")");
    assert!(p.about.is_none());
    assert_eq!(p.initializer, "default");
    assert!(p.parameters.is_empty());
    assert!(p.hints == Hints::On);
}

#[test]
fn construct_derive_parser_with_attributes() {
    let mut s = structure("Parameters");
    s.program = Some("\"abc\"".to_string());
    s.initializer = Some("qwerty".to_string());
    s.hints_off = true;
    s.about = Some("\"def 123\"".to_string());
    s.fields = vec![field("usize")];
    let p = load_parser(&s).unwrap();
    assert_eq!(p.program, "\"abc\"");
    assert_eq!(p.initializer, "qwerty");
    assert_eq!(p.about, Some("\"def 123\"".to_string()));
    assert!(p.hints == Hints::Off);
    assert_eq!(p.parameters.len(), 1);
    assert!(matches!(p.parameters[0].kind, ParameterKind::ScalarArgument));
}

#[test]
fn construct_derive_parser_hints_offon() {
    let mut s = structure("Parameters");
    s.hints_on = true;
    s.hints_off = true;
    assert_eq!(
        load_parser(&s).err().unwrap(),
        "Invalid - struct cannot be both `#[blarg(hints_on)]` and `#[blarg(hints_off)]`."
    );
}

#[test]
fn construct_derive_parser_multiple_conditions() {
    let mut s = structure("Parameters");
    s.fields = vec![condition("apple", "0", "Abc"), condition("banana", "1", "Def")];
    assert_eq!(
        load_parser(&s).err().unwrap(),
        "Invalid - BlargParser cannot have multiple conditions: [\"apple\", \"banana\"]."
    );
}

#[test]
fn construct_derive_parser_invalid() {
    let mut s = structure("Values");
    s.is_struct = false;
    assert_eq!(
        load_parser(&s).err().unwrap(),
        "Invalid - BlargParser only applies to 'struct' data structures."
    );
}

#[test]
fn construct_derive_sub_parser_empty() {
    let p = load_sub_parser(&structure("Parameters")).unwrap();
    assert_eq!(p.struct_name, "Parameters");
    assert!(p.parameters.is_empty());
    assert!(p.hints == Hints::On);
}

#[test]
fn construct_derive_sub_parser_hints_offon() {
    let mut s = structure("Parameters");
    s.hints_on = true;
    s.hints_off = true;
    assert_eq!(
        load_sub_parser(&s).err().unwrap(),
        "Invalid - struct cannot be both `#[blarg(hints_on)]` and `#[blarg(hints_off)]`."
    );
}

#[test]
fn construct_derive_sub_parser_with_condition() {
    let mut s = structure("Parameters");
    s.fields = vec![condition("apple", "0", "Abc")];
    assert_eq!(
        load_sub_parser(&s).err().unwrap(),
        "Invalid - BlargSubParser cannot have any conditions: [\"apple\"]."
    );
}

#[test]
fn construct_derive_sub_parser_invalid() {
    let mut s = structure("Values");
    s.is_struct = false;
    assert_eq!(
        load_sub_parser(&s).err().unwrap(),
        "Invalid - BlargSubParser only applies to 'struct' data structures."
    );
}

#[test]
fn derive_parser_reports_first_field_error() {
    let mut s = structure("Parameters");
    let mut bad = field("usize");
    bad.argument = true;
    bad.option = true;
    s.fields = vec![field("bool"), bad];
    assert!(load_parser(&s).err().unwrap().contains("Invalid - field cannot be both"));
}

#[test]
fn generate_parser_fills_target_and_sub_structs() {
    let mut s = structure("my_struct");
    s.fields = vec![field("usize"), condition("apple", "0", "Abc")];
    let p = load_parser(&s).unwrap();
    let setup = generate_parser(&p);
    assert_eq!(setup.target, "my_struct_target");
    assert_eq!(setup.initializer, "default");
    assert_eq!(setup.program, p.program);
    assert_eq!(setup.sub_structs, vec!["Abc".to_string()]);
    assert_eq!(setup.calls.len(), 2);
    assert!(!setup.calls[0].branch);
    assert_eq!(setup.calls[0].target, "my_struct_target.my_field");
    assert!(setup.calls[1].branch);
    assert_eq!(setup.calls[1].target, "my_struct_target.apple");
    assert_eq!(setup.calls[1].commands, vec![("0".to_string(), "Abc".to_string())]);
}

#[test]
fn generate_parser_without_condition_has_no_sub_structs() {
    let mut s = structure("Parameters");
    s.fields = vec![field("bool")];
    let setup = generate_parser(&load_parser(&s).unwrap());
    assert_eq!(setup.target, "Parameters_target");
    assert!(setup.sub_structs.is_empty());
    assert_eq!(setup.calls.len(), 1);
}

#[test]
fn generate_sub_parser_fills_target() {
    let mut s = structure("my_struct");
    s.fields = vec![field("usize")];
    let setup = generate_sub_parser(&load_sub_parser(&s).unwrap());
    assert_eq!(setup.target, "my_struct_target");
    assert_eq!(setup.calls.len(), 1);
    assert_eq!(setup.calls[0].name, "my_field");
}

#[test]
fn generate_call_with_choices() {
    let mut f = field("usize");
    f.choices = Some("my_choices".to_string());
    f.help = Some("\"abc 123\"".to_string());
    let p = load_parameter(&f).unwrap();
    assert_eq!(p.choices, Some("my_choices".to_string()));
    let call = generate_parameter(&p, "target");
    assert_eq!(call.choices, Some("my_choices".to_string()));
    assert_eq!(call.help, Some("\"abc 123\"".to_string()));
    assert_eq!(call.target, "target.my_field");
}

#[test]
fn generate_call_without_choices() {
    let call = generate_parameter(&load_parameter(&field("bool")).unwrap(), "target");
    assert!(call.choices.is_none());
}
