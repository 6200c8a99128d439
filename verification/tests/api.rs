use blarg::Choices;
use blarg::Collection;
use blarg::CommandLineParser;
use blarg::Condition;
use blarg::Nargs;
use blarg::Parameter;
use blarg::Scalar;
use blarg::SubCommand;
use blarg::Switch;
use blarg::interface::ErrorContext;
use blarg::interface::UserInterface;
use blarg::parameter::ParameterClass;
use blarg::parser::ParseError;
use std::cell::RefCell;
use std::rc::Rc;

struct SenderInterface {
    messages: Rc<RefCell<Vec<String>>>,
    errors: Rc<RefCell<Vec<String>>>,
}

struct ReceiverInterface {
    messages: Rc<RefCell<Vec<String>>>,
    errors: Rc<RefCell<Vec<String>>>,
}

impl UserInterface for SenderInterface {
    fn print(&self, message: String) {
        self.messages.borrow_mut().push(message);
    }

    fn print_error(&self, error: ParseError) {
        self.errors.borrow_mut().push(error.to_string());
    }

    fn print_error_context(&self, error_context: ErrorContext) {
        self.errors.borrow_mut().push(error_context.to_string());
    }
}

impl ReceiverInterface {
    fn consume_message(self) -> String {
        assert!(self.errors.borrow().is_empty());
        let lines = self.messages.borrow();
        lines.join("\n")
    }
}

fn channel_interface() -> (SenderInterface, ReceiverInterface) {
    let messages = Rc::new(RefCell::new(Vec::new()));
    let errors = Rc::new(RefCell::new(Vec::new()));
    (
        SenderInterface { messages: messages.clone(), errors: errors.clone() },
        ReceiverInterface { messages, errors },
    )
}

#[test]
fn repeat_command_build() {
        // Setup
        let mut sub: u32 = 0;
        let mut items_0: Vec<u32> = Vec::default();
        let mut items_1: Vec<u32> = Vec::default();
        let clp = CommandLineParser::new("program");
        let scp = clp
            .branch(Condition::new(Scalar::new(&mut sub), "sub"))
            .command(0, |sub| {
                sub.add(Parameter::argument(
                    Collection::new(&mut items_0, Nargs::Any),
                    "item0",
                ))
            })
            .command(0, |sub| {
                sub.add(Parameter::argument(
                    Collection::new(&mut items_1, Nargs::Any),
                    "item1",
                ))
            });

        // Execute
        let parser = scp.build().unwrap();

        // Verify
        // We testing that build sets up the right parser.
        // So the verification involves invoking the parser with the various permutations.
        parser.parse_tokens(&["0", "1", "2", "3"]).unwrap();
        assert_eq!(sub, 0);
        assert_eq!(items_0, Vec::default());
        assert_eq!(items_1, vec![1, 2, 3]);
}

#[test]
fn core_empty_build_help() {
        // Setup
        let clp = CommandLineParser::new("program");
        let (sender, receiver) = channel_interface();

        // Execute
        let parser = clp.build_with_interface(Box::new(sender)).unwrap();

        // Verify
        // We testing that build sets up the right parser.
        // So the verification involves invoking the parser with --help and spot-checking the output.
        let error_code = parser.parse_tokens(&["--help"]).unwrap_err();
        assert_eq!(error_code, 0);

        let message = receiver.consume_message();
        assert!(message.contains("usage: program [-h]\n"), "{}", message);
}

#[test]
fn core_build_help() {
        // Setup
        let mut flag: bool = false;
        let mut items: Vec<u32> = Vec::default();
        let mut clp = CommandLineParser::new("program");
        clp = clp
            .add(Parameter::option(
                Switch::new(&mut flag, true),
                "flag",
                Some('f'),
            ))
            .add(Parameter::argument(
                Collection::new(&mut items, Nargs::Any),
                "item",
            ));
        let (sender, receiver) = channel_interface();

        // Execute
        let parser = clp.build_with_interface(Box::new(sender)).unwrap();

        // Verify
        // We testing that build sets up the right parser.
        // So the verification involves invoking the parser with --help and spot-checking the output.
        let error_code = parser.parse_tokens(&["--help"]).unwrap_err();
        assert_eq!(error_code, 0);

        let message = receiver.consume_message();
        assert!(message.contains("usage: program [-h] [-f] [ITEM ...]\n"), "{}", message);
        assert!(message.contains("-f, --flag"), "{}", message);
}

#[test]
fn core_branch_build_help() {
        // Setup
        let mut flag: bool = false;
        let mut sub: u32 = 0;
        let clp = CommandLineParser::new("program");
        let scp = clp
            .add(Parameter::option(
                Switch::new(&mut flag, true),
                "flag",
                Some('f'),
            ))
            .branch(
                Condition::new(Scalar::new(&mut sub), "sub")
                    .choice(0, "zero")
                    .choice(1, "one"),
            )
            .command(0, |sub| sub)
            .command(1, |sub| sub);
        let (sender, receiver) = channel_interface();

        // Execute
        let parser = scp.build_with_interface(Box::new(sender)).unwrap();

        // Verify
        // We testing that build sets up the right parser.
        // So the verification involves invoking the parser with --help and spot-checking the output.
        let error_code = parser.parse_tokens(&["--help"]).unwrap_err();
        assert_eq!(error_code, 0);

        let message = receiver.consume_message();
        assert!(message.contains("usage: program [-h] [-f] SUB\n"), "{}", message);
        assert!(message.contains("SUB          {0, 1}"), "{}", message);
        assert!(message.contains("0            zero"), "{}", message);
        assert!(message.contains("1            one"), "{}", message);
        assert!(message.contains("-f, --flag"), "{}", message);
}

#[test]
fn sub0_command_build_help() {
        // Setup
        let mut flag: bool = false;
        let mut sub: u32 = 0;
        let mut items: Vec<u32> = Vec::default();
        let mut extra: bool = false;
        let clp = CommandLineParser::new("program");
        let scp = clp
            .add(Parameter::option(
                Switch::new(&mut flag, true),
                "flag",
                Some('f'),
            ))
            .branch(
                Condition::new(Scalar::new(&mut sub), "sub")
                    .choice(0, "zero")
                    .choice(1, "one"),
            )
            .command(0, |sub| sub)
            .command(1, |sub| {
                sub.add(Parameter::argument(
                    Collection::new(&mut items, Nargs::Any),
                    "item",
                ))
                .add(Parameter::option(
                    Switch::new(&mut extra, true),
                    "extra",
                    Some('e'),
                ))
            });
        let (sender, receiver) = channel_interface();

        // Execute
        let parser = scp.build_with_interface(Box::new(sender)).unwrap();

        // Verify
        // We testing that build sets up the right parser.
        // So the verification involves invoking the parser with --help and spot-checking the output.
        let error_code = parser.parse_tokens(&["0", "--help"]).unwrap_err();
        assert_eq!(error_code, 0);

        let message = receiver.consume_message();
        assert!(message.contains("usage: program 0 [-h]\n"), "{}", message);
}

#[test]
fn sub1_command_build_help() {
        // Setup
        let mut flag: bool = false;
        let mut sub: u32 = 0;
        let mut items: Vec<u32> = Vec::default();
        let mut extra: bool = false;
        let clp = CommandLineParser::new("program");
        let scp = clp
            .add(Parameter::option(
                Switch::new(&mut flag, true),
                "flag",
                Some('f'),
            ))
            .branch(
                Condition::new(Scalar::new(&mut sub), "sub")
                    .choice(0, "zero")
                    .choice(1, "one"),
            )
            .command(0, |sub| sub)
            .command(1, |sub| {
                sub.add(Parameter::argument(
                    Collection::new(&mut items, Nargs::Any),
                    "item",
                ))
                .add(Parameter::option(
                    Switch::new(&mut extra, true),
                    "extra",
                    Some('e'),
                ))
            });
        let (sender, receiver) = channel_interface();

        // Execute
        let parser = scp.build_with_interface(Box::new(sender)).unwrap();

        // Verify
        // We testing that build sets up the right parser.
        // So the verification involves invoking the parser with --help and spot-checking the output.
        let error_code = parser.parse_tokens(&["1", "--help"]).unwrap_err();
        assert_eq!(error_code, 0);

        let message = receiver.consume_message();
        assert!(message.contains("usage: program 1 [-h] [-e] [ITEM ...]\n"), "{}", message);
        assert!(message.contains("-e, --extra"), "{}", message);
}

#[test]
fn core_root_arguments_branch_build_help() {
        // Setup
        let mut flag: bool = false;
        let mut root: String = String::default();
        let mut sub: u32 = 0;
        let mut items: Vec<u32> = Vec::default();
        let clp = CommandLineParser::new("program");
        let scp = clp
            .add(Parameter::option(
                Switch::new(&mut flag, true),
                "flag",
                Some('f'),
            ))
            .add(Parameter::argument(Scalar::new(&mut root), "root"))
            .branch(Condition::new(Scalar::new(&mut sub), "sub"))
            .command(0, |sub| {
                sub.add(Parameter::argument(
                    Collection::new(&mut items, Nargs::Any),
                    "item0",
                ))
            });
        let (sender, receiver) = channel_interface();

        // Execute
        let parser = scp.build_with_interface(Box::new(sender)).unwrap();

        // Verify
        // We testing that build sets up the right parser.
        // So the verification involves invoking the parser with --help and spot-checking the output.
        let error_code = parser.parse_tokens(&["--help"]).unwrap_err();
        assert_eq!(error_code, 0);

        let message = receiver.consume_message();
        assert!(message.contains("usage: program [-h] [-f] ROOT SUB\n"), "{}", message);
}

#[test]
fn test_dummies() {
        // Setup
        pub fn setup_fn<'a>(value: &'a mut u32) -> impl FnOnce(SubCommand<'a>) -> SubCommand<'a> {
            |sub| sub.add(Parameter::argument(Scalar::new(value), "value"))
        }

        let mut x: u32 = 1;
        let parser = setup_fn(&mut x)(SubCommand::test_dummy()).build().unwrap();
        let tokens = vec!["2"];

        // Execute
        parser.parse_tokens(tokens.as_slice()).unwrap();

        // Verify
        assert_eq!(x, 2);
}


#[test]
fn parameter_option() {
        let mut flag: bool = false;
        let option = Parameter::option(Switch::new(&mut flag, true), "flag", None).consume();

        assert_eq!(option.class(), ParameterClass::Opt);
        assert_eq!(option.name(), "flag");
        assert_eq!(option.short(), None);
        assert_eq!(option.help().clone(), None);
        assert_eq!(option.meta().clone(), None);
        assert_eq!(option.choices().clone(), Vec::<(String, String)>::new());
}

#[test]
fn parameter_option_short() {
        let mut flag: bool = false;
        let option = Parameter::option(Switch::new(&mut flag, true), "flag", Some('f')).consume();

        assert_eq!(option.class(), ParameterClass::Opt);
        assert_eq!(option.name(), "flag");
        assert_eq!(option.short(), Some('f'));
        assert_eq!(option.help().clone(), None);
        assert_eq!(option.meta().clone(), None);
        assert_eq!(option.choices().clone(), Vec::<(String, String)>::new());
}

#[test]
fn parameter_option_help() {
        let mut flag: bool = false;
        let option = Parameter::option(Switch::new(&mut flag, true), "flag", None)
            .help("help message")
            .consume();

        assert_eq!(option.class(), ParameterClass::Opt);
        assert_eq!(option.name(), "flag".to_string());
        assert_eq!(option.short(), None);
        assert_eq!(option.help().clone(), Some("help message".to_string()));
        assert_eq!(option.meta().clone(), None);
        assert_eq!(option.choices().clone(), Vec::<(String, String)>::new());
}

#[test]
fn option_meta() {
        let mut flag: bool = false;
        let option = Parameter::option(Switch::new(&mut flag, true), "flag", None)
            .meta(vec!["meta message"])
            .consume();

        assert_eq!(option.class(), ParameterClass::Opt);
        assert_eq!(option.name(), "flag".to_string());
        assert_eq!(option.short(), None);
        assert_eq!(option.help().clone(), None);
        assert_eq!(option.meta().clone(), Some(vec!["meta message".to_string()]));
        assert_eq!(option.choices().clone(), Vec::<(String, String)>::new());
}

#[test]
fn parameter_option_choice() {
        let mut flag: bool = false;
        let option = Parameter::option(Switch::new(&mut flag, true), "flag", None)
            .choice(true, "b")
            .choice(false, "d")
            .choice(true, "e")
            .consume();

        assert_eq!(option.class(), ParameterClass::Opt);
        assert_eq!(option.name(), "flag".to_string());
        assert_eq!(option.short(), None);
        assert_eq!(option.help().clone(), None);
        assert_eq!(option.meta().clone(), None);
        assert_eq!(
            option.choices().clone(),
            vec![("false".to_string(), "d".to_string()), ("true".to_string(), "e".to_string())]
        );
}

#[test]
fn parameter_argument() {
        let mut item: bool = false;
        let argument = Parameter::argument(Scalar::new(&mut item), "item").consume();

        assert_eq!(argument.class(), ParameterClass::Arg);
        assert_eq!(argument.name(), "item".to_string());
        assert_eq!(argument.short(), None);
        assert_eq!(argument.help().clone(), None);
        assert_eq!(argument.meta().clone(), None);
        assert_eq!(argument.choices().clone(), Vec::<(String, String)>::new());
}

#[test]
fn parameter_argument_help() {
        let mut item: bool = false;
        let argument = Parameter::argument(Scalar::new(&mut item), "item")
            .help("help message")
            .consume();

        assert_eq!(argument.class(), ParameterClass::Arg);
        assert_eq!(argument.name(), "item".to_string());
        assert_eq!(argument.short(), None);
        assert_eq!(argument.help().clone(), Some("help message".to_string()));
        assert_eq!(argument.meta().clone(), None);
        assert_eq!(argument.choices().clone(), Vec::<(String, String)>::new());
}

#[test]
fn argument_meta() {
        let mut item: bool = false;
        let argument = Parameter::argument(Scalar::new(&mut item), "item")
            .meta(vec!["meta message"])
            .consume();

        assert_eq!(argument.class(), ParameterClass::Arg);
        assert_eq!(argument.name(), "item".to_string());
        assert_eq!(argument.short(), None);
        assert_eq!(argument.help().clone(), None);
        assert_eq!(argument.meta().clone(), Some(vec!["meta message".to_string()]));
        assert_eq!(argument.choices().clone(), Vec::<(String, String)>::new());
}

#[test]
fn parameter_argument_choice() {
        let mut item: bool = false;
        let argument = Parameter::argument(Scalar::new(&mut item), "item")
            .choice(true, "b")
            .choice(false, "d")
            .choice(true, "e")
            .help("help")
            .meta(vec!["meta"])
            .consume();

        assert_eq!(argument.class(), ParameterClass::Arg);
        assert_eq!(argument.name(), "item".to_string());
        assert_eq!(argument.short(), None);
        assert_eq!(argument.help().clone(), Some("help".to_string()));
        assert_eq!(argument.meta().clone(), Some(vec!["meta".to_string()]));
        assert_eq!(
            argument.choices().clone(),
            vec![("false".to_string(), "d".to_string()), ("true".to_string(), "e".to_string())]
        );
}

#[test]
fn parameter_condition() {
        let mut item: bool = false;
        let condition = Condition::new(Scalar::new(&mut item), "item")
            .choice(true, "b")
            .choice(false, "d")
            .choice(true, "e")
            .help("help")
            .meta(vec!["meta"])
            .consume();
        let argument = condition.consume();

        assert_eq!(argument.class(), ParameterClass::Arg);
        assert_eq!(argument.name(), "item".to_string());
        assert_eq!(argument.short(), None);
        assert_eq!(argument.help().clone(), Some("help".to_string()));
        assert_eq!(argument.meta().clone(), Some(vec!["meta".to_string()]));
        assert_eq!(
            argument.choices().clone(),
            vec![("false".to_string(), "d".to_string()), ("true".to_string(), "e".to_string())]
        );
}


#[test]
fn branch_add_build() {
    let cases: Vec<(Vec<&str>, bool, u32, Vec<u32>, Vec<u32>)> = vec![
        (vec!["0"], false, 0, vec![], vec![]),
        (vec!["0", "1", "3", "2"], false, 0, vec![1, 3, 2], vec![]),
        (vec!["--flag", "1", "1"], true, 1, vec![], vec![1]),
        (vec!["--flag", "1", "1", "3", "2"], true, 1, vec![], vec![1, 3, 2]),
    ];
    for (tokens, expected_flag, expected_sub, expected_items_0, expected_items_1) in cases {
        let mut flag: bool = false;
        let mut sub: u32 = 0;
        let mut items_0: Vec<u32> = Vec::default();
        let mut items_1: Vec<u32> = Vec::default();
        {
            let cp = CommandLineParser::new("program");
            let scp = cp
                .add(Parameter::option(Switch::new(&mut flag, true), "flag", Some('f')))
                .branch(Condition::new(Scalar::new(&mut sub), "sub"))
                .add(0, Parameter::argument(Collection::new(&mut items_0, Nargs::Any), "item0"))
                .add(1, Parameter::argument(Collection::new(&mut items_1, Nargs::Any), "item1"));
            let parser = scp.build().unwrap();
            parser.parse_tokens(tokens.as_slice()).unwrap();
        }
        assert_eq!(flag, expected_flag);
        assert_eq!(sub, expected_sub);
        assert_eq!(items_0, expected_items_0);
        assert_eq!(items_1, expected_items_1);
    }
}

#[test]
fn add_one_by_one_equals_command_setup() {
    let tokens = vec!["0", "5", "7"];
    let mut sub_1: u32 = 9;
    let mut a_1: u32 = 0;
    let mut b_1: u32 = 0;
    {
        let parser = CommandLineParser::new("program")
            .branch(Condition::new(Scalar::new(&mut sub_1), "sub"))
            .add(0, Parameter::argument(Scalar::new(&mut a_1), "a"))
            .add(0, Parameter::argument(Scalar::new(&mut b_1), "b"))
            .build()
            .unwrap();
        parser.parse_tokens(tokens.as_slice()).unwrap();
    }
    let mut sub_2: u32 = 9;
    let mut a_2: u32 = 0;
    let mut b_2: u32 = 0;
    {
        let parser = CommandLineParser::new("program")
            .branch(Condition::new(Scalar::new(&mut sub_2), "sub"))
            .command(0, |sub| {
                sub.add(Parameter::argument(Scalar::new(&mut a_2), "a"))
                    .add(Parameter::argument(Scalar::new(&mut b_2), "b"))
            })
            .build()
            .unwrap();
        parser.parse_tokens(tokens.as_slice()).unwrap();
    }
    assert_eq!((sub_1, a_1, b_1), (0, 5, 7));
    assert_eq!((sub_2, a_2, b_2), (0, 5, 7));
}
