use blarg::CommandLineParser;
use blarg::capture::FromToken;
use blarg::capture::ToToken;
use blarg::Condition;
use blarg::InvalidCapture;
use blarg::Nargs;
use blarg::Parameter;
use blarg::Scalar;
use blarg::Switch;
use blarg::compact;
use blarg::interface::ErrorContext;
use blarg::interface::UserInterface;
use blarg::matcher::api::ArgumentConfig;
use blarg::matcher::api::Bound;
use blarg::matcher::api::OptionConfig;
use blarg::matcher::token_matcher::MatchError;
use blarg::matcher::token_matcher::TokenMatcher;
use blarg::parser::ParseError;
use blarg::printer::OptionParameter;
use blarg::printer::Printer;
use std::cell::RefCell;
use std::rc::Rc;

struct Recorder {
    messages: Rc<RefCell<Vec<String>>>,
    errors: Rc<RefCell<Vec<String>>>,
}

impl UserInterface for Recorder {
    fn print(&self, message: String) {
        self.messages.borrow_mut().push(message);
    }

    fn print_error(&self, error: ParseError) {
        self.errors.borrow_mut().push(error.to_string());
    }

    fn print_error_context(&self, error_context: ErrorContext) {
        self.errors.borrow_mut().push(error_context.to_string());
    }
}

fn recorder() -> (Recorder, Rc<RefCell<Vec<String>>>, Rc<RefCell<Vec<String>>>) {
    let messages = Rc::new(RefCell::new(Vec::new()));
    let errors = Rc::new(RefCell::new(Vec::new()));
    (
        Recorder {
            messages: messages.clone(),
            errors: errors.clone(),
        },
        messages,
        errors,
    )
}

fn matcher() -> TokenMatcher {
    TokenMatcher::new(
        vec![OptionConfig::new("verbose".to_string(), Some('v'), Bound::Range(0, 0))],
        vec![
            ArgumentConfig::new("arg1".to_string(), Bound::Range(1, 2)),
            ArgumentConfig::new("arg2".to_string(), Bound::Lower(1)),
        ],
    )
    .unwrap()
}

#[test]
fn can_close_agrees_with_close() {
    let cases: Vec<Vec<&str>> = vec![
        vec![],
        vec!["x"],
        vec!["x", "y"],
        vec!["x", "y", "z"],
        vec!["x", "--verbose", "z"],
        vec!["x", "y", "z", "-v"],
    ];
    for tokens in cases {
        let mut tp = matcher();
        for token in &tokens {
            tp.feed(token).unwrap();
        }
        let can_close = tp.can_close();
        assert_eq!(can_close, tp.close().is_ok(), "{:?}", tokens);
    }
}

#[test]
fn option_refused_value_is_still_taken() {
    let mut tp = matcher();
    assert_eq!(
        tp.feed("--verbose=a").unwrap_err(),
        MatchError::Overcomplete("verbose".to_string())
    );
    assert_eq!(
        tp.feed("--verbose").unwrap_err(),
        MatchError::InvalidOption("verbose".to_string())
    );
    assert_eq!(tp.feed("-v").unwrap_err(), MatchError::InvalidShortOption('v'));
}

#[test]
fn help_is_answered_despite_missing_argument() {
    let mut value: u32 = 0;
    let (ui, messages, errors) = recorder();
    let parser = CommandLineParser::new("program")
        .add(Parameter::argument(Scalar::new(&mut value), "value"))
        .build_with_interface(Box::new(ui))
        .unwrap();
    assert_eq!(parser.parse_tokens(&["--help"]), Err(0));
    assert!(errors.borrow().is_empty());
    assert_eq!(messages.borrow()[0], "usage: program [-h] VALUE");
}

#[test]
fn help_is_answered_before_the_sub_command() {
    let mut sub: u32 = 0;
    let mut item: u32 = 0;
    let (ui, messages, errors) = recorder();
    let parser = CommandLineParser::new("program")
        .branch(Condition::new(Scalar::new(&mut sub), "sub"))
        .command(0, |c| c.add(Parameter::argument(Scalar::new(&mut item), "item")))
        .build_with_interface(Box::new(ui))
        .unwrap();
    assert_eq!(parser.parse_tokens(&["-h"]), Err(0));
    assert!(errors.borrow().is_empty());
    assert!(messages.borrow()[0].starts_with("usage: program [-h] SUB"));
}

#[test]
fn duplicate_parameter_is_a_config_error() {
    let mut flag: bool = false;
    let mut value: u32 = 0;
    let error = CommandLineParser::new("program")
        .add(Parameter::option(Switch::new(&mut flag, true), "name", None))
        .add(Parameter::argument(Scalar::new(&mut value), "name"))
        .build()
        .err()
        .unwrap();
    assert_eq!(
        error.to_string(),
        "Config error: Cannot duplicate the parameter 'name'."
    );
}

#[test]
fn duplicate_short_option_is_a_config_error() {
    let mut a: bool = false;
    let mut b: bool = false;
    let error = CommandLineParser::new("program")
        .add(Parameter::option(Switch::new(&mut a, true), "apple", Some('x')))
        .add(Parameter::option(Switch::new(&mut b, true), "banana", Some('x')))
        .build()
        .err()
        .unwrap();
    assert_eq!(
        error.to_string(),
        "Config error: Cannot duplicate the short option 'x'."
    );
}

#[test]
fn help_short_option_is_reserved() {
    let mut a: bool = false;
    let error = CommandLineParser::new("program")
        .add(Parameter::option(Switch::new(&mut a, true), "hello", Some('h')))
        .build()
        .err()
        .unwrap();
    assert_eq!(
        error.to_string(),
        "Config error: Cannot duplicate the short option 'h'."
    );
}

#[test]
fn conversion_failure_is_reported_with_context() {
    let mut value: u32 = 0;
    let (ui, _messages, errors) = recorder();
    let parser = CommandLineParser::new("program")
        .add(Parameter::argument(Scalar::new(&mut value), "value"))
        .build_with_interface(Box::new(ui))
        .unwrap();
    assert_eq!(parser.parse_tokens(&["abc"]), Err(1));
    let errors = errors.borrow();
    assert_eq!(errors[0], "Parse error: cannot convert 'abc' to u32.");
    assert_eq!(errors[1], "abc\n^");
}

#[test]
fn numbers_are_read_in_decimal() {
    let mut small: u8 = 0;
    let mut signed: i64 = 0;
    let parser = CommandLineParser::new("program")
        .add(Parameter::argument(Scalar::new(&mut small), "small"))
        .add(Parameter::option(Scalar::new(&mut signed), "signed", None))
        .build()
        .unwrap();
    assert_eq!(parser.parse_tokens(&["255", "--signed=-12"]), Ok(()));
    assert_eq!(small, 255);
    assert_eq!(signed, -12);
}

#[test]
fn out_of_range_number_is_refused() {
    let mut small: u8 = 0;
    let (ui, _messages, errors) = recorder();
    let parser = CommandLineParser::new("program")
        .add(Parameter::argument(Scalar::new(&mut small), "small"))
        .build_with_interface(Box::new(ui))
        .unwrap();
    assert_eq!(parser.parse_tokens(&["256"]), Err(1));
    assert_eq!(errors.borrow()[0], "Parse error: cannot convert '256' to u8.");
}

#[test]
fn match_errors_are_reported() {
    let mut value: u32 = 0;
    let (ui, _messages, errors) = recorder();
    let parser = CommandLineParser::new("program")
        .add(Parameter::argument(Scalar::new(&mut value), "value"))
        .build_with_interface(Box::new(ui))
        .unwrap();
    assert_eq!(parser.parse_tokens(&["--moot"]), Err(1));
    assert_eq!(errors.borrow()[0], "Parse error: Option 'moot' does not exist.");
}

#[test]
fn nargs_text() {
    assert_eq!(Nargs::Precisely(0).to_string(), "Precisely(0)");
    assert_eq!(Nargs::Precisely(12).to_string(), "Precisely(12)");
    assert_eq!(Nargs::Any.to_string(), "Any");
    assert_eq!(Nargs::AtLeastOne.to_string(), "AtLeastOne");
}

#[test]
fn invalid_capture_messages() {
    assert_eq!(
        InvalidCapture::InvalidConversion {
            token: "x".to_string(),
            type_label: "u32".to_string(),
        }
        .to_string(),
        "cannot convert 'x' to u32."
    );
    assert_eq!(
        InvalidCapture::InvalidAdd {
            token: "x".to_string(),
            message: "full".to_string(),
        }
        .to_string(),
        "cannot collect 'x': full."
    );
}

#[test]
fn printer_lists_options_by_name() {
    let printer = Printer::new(
        vec![
            OptionParameter::basic("car".to_string(), None, Nargs::Any, None, None),
            OptionParameter::basic("apple".to_string(), None, Nargs::Any, None, None),
            OptionParameter::basic("blue".to_string(), None, Nargs::Any, None, None),
        ],
        Vec::new(),
        None,
    );
    let names: Vec<String> = printer.options().iter().map(|o| o.name().clone()).collect();
    assert_eq!(names, vec!["apple", "blue", "car"]);
}

#[test]
fn compact_help_message() {
    let printer = compact::Printer::new(
        vec![
            ("car".to_string(), Some('x'), Nargs::Any, Some("car message")),
            ("blue".to_string(), Some('y'), Nargs::Precisely(0), Some("blue message")),
            ("apple".to_string(), Some('z'), Nargs::Precisely(1), Some("apple message")),
        ],
        vec![
            ("name".to_string(), Nargs::Precisely(1), Some("name message")),
            ("items".to_string(), Nargs::Any, Some("items message")),
        ],
    );
    let lines = printer.help_lines("program");
    assert_eq!(
        lines.join("\n"),
        r#"usage: program [-h] [-z APPLE] [-y] [-x [CAR ...]] NAME [ITEMS ...]

positional arguments:
 NAME                           name message
 [ITEMS ...]                    items message

options:
 -h, --help                     Show this help message and exit.
 -z APPLE, --apple APPLE        apple message
 -y, --blue                     blue message
 -x [CAR ...], --car [CAR ...]  car message"#
    );
}

#[test]
fn compact_help_message_without_short_values() {
    let (ui, messages, _errors) = recorder();
    compact::print_help(
        "program",
        vec![
            ("car".to_string(), Some('x'), Nargs::Any, Some("car message")),
            ("apple".to_string(), None, Nargs::Precisely(2), None),
        ],
        vec![],
        &ui,
    );
    assert_eq!(
        messages.borrow().join("\n"),
        r#"usage: program [-h] [--apple APPLE APPLE] [-x [CAR ...]]

options:
 -h, --help           Show this help message and exit.
 --apple APPLE APPLE
 -x, --car [CAR ...]  car message"#
    );
}

#[test]
fn short_name_after_long_name_aborts() {
    let mut tp = matcher();
    assert!(!tp.aborts_on("--verbose"));
    tp.feed("--verbose").unwrap();
    assert!(tp.aborts_on("-v"));
    assert!(!tp.aborts_on("--verbose"));
}

#[test]
fn value_for_completed_argument_aborts() {
    let mut tp = TokenMatcher::new(
        Vec::new(),
        vec![ArgumentConfig::new("x".to_string(), Bound::Range(0, 0))],
    )
    .unwrap();
    assert!(!tp.aborts_on("a"));
    tp.feed("a").unwrap();
    assert!(tp.aborts_on("b"));
}

#[test]
fn parser_reports_aborting_tokens() {
    let mut verbose: bool = false;
    let parser = CommandLineParser::new("program")
        .add(Parameter::option(Switch::new(&mut verbose, true), "verbose", Some('v')))
        .build()
        .unwrap();
    assert!(parser.aborts_on(&["--verbose", "-v"]));
    assert!(!parser.aborts_on(&["-v", "--verbose"]));
    assert!(!parser.aborts_on(&["-v"]));
}

#[test]
fn token_parser_reports_aborting_tokens() {
    let tp = blarg::tokens::TokenParser::new(
        vec![
            blarg::tokens::OptionConfig {
                name: "accent".to_string(),
                short: Some('é'),
                limit: 1,
            },
            blarg::tokens::OptionConfig {
                name: "flag".to_string(),
                short: Some('f'),
                limit: 0,
            },
        ],
        Vec::new(),
    );
    assert!(tp.aborts_on("x"));
    assert!(tp.aborts_on("-é"));
    assert!(tp.aborts_on("-éx"));
    assert!(!tp.aborts_on("-f"));
    assert!(!tp.aborts_on("--accent"));
    let with_argument = blarg::tokens::TokenParser::new(
        Vec::new(),
        vec![blarg::tokens::ArgumentConfig {
            name: "item".to_string(),
            narg: blarg::tokens::Narg::Unlimited,
        }],
    );
    assert!(!with_argument.aborts_on("x"));
}

#[test]
fn decimal_tokens() {
    use_scalar::<u32>("+7", Some(7));
    use_scalar::<u32>("007", Some(7));
    use_scalar::<u32>("-0", None);
    use_scalar::<u32>("", None);
    use_scalar::<u32>("+", None);
    use_scalar::<u32>(" 1", None);
    use_scalar::<u32>("4294967295", Some(4294967295));
    use_scalar::<u32>("4294967296", None);
    use_scalar::<i32>("-2147483648", Some(-2147483648));
    use_scalar::<i32>("-2147483649", None);
    use_scalar::<i64>("+12", Some(12));
}

fn use_scalar<T: FromToken + Default + PartialEq + std::fmt::Debug>(token: &str, expected: Option<T>) {
    let mut variable: T = T::default();
    let result = {
        let mut scalar = Scalar::new(&mut variable);
        blarg::GenericCapturable::capture(&mut scalar, token)
    };
    match expected {
        Some(v) => {
            assert!(result.is_ok(), "{}", token);
            assert_eq!(variable, v, "{}", token);
        }
        None => assert!(result.is_err(), "{}", token),
    }
}

#[test]
fn tokens_read_back() {
    for v in [0u32, 7, 10, 4294967295] {
        assert_eq!(u32::from_token(v.to_token().as_str()), Some(v));
    }
    for v in [i64::MIN, -10, 0, 99, i64::MAX] {
        assert_eq!(i64::from_token(v.to_token().as_str()), Some(v));
    }
    for v in [i32::MIN, -1, i32::MAX] {
        assert_eq!(i32::from_token(v.to_token().as_str()), Some(v));
    }
    assert_eq!(u8::from_token(255u8.to_token().as_str()), Some(255));
    assert_eq!(bool::from_token(false.to_token().as_str()), Some(false));
    assert_eq!(char::from_token('é'.to_token().as_str()), Some('é'));
    assert_eq!(String::from_token("a b".to_string().to_token().as_str()), Some("a b".to_string()));
}

#[test]
fn option_refused_after_other_tokens() {
    let mut tp = matcher();
    tp.feed("--verbose").unwrap();
    tp.feed("x").unwrap();
    tp.feed("y").unwrap();
    assert_eq!(
        tp.feed("--verbose").unwrap_err(),
        MatchError::InvalidOption("verbose".to_string())
    );
}

#[test]
fn short_option_refused_after_other_tokens() {
    let mut tp = matcher();
    tp.feed("-v").unwrap();
    tp.feed("x").unwrap();
    assert_eq!(tp.feed("-v").unwrap_err(), MatchError::InvalidShortOption('v'));
    assert_eq!(
        tp.feed("--verbose").unwrap_err(),
        MatchError::InvalidOption("verbose".to_string())
    );
}

#[test]
fn short_name_not_taken_after_long_name_and_other_tokens() {
    let mut tp = matcher();
    tp.feed("--verbose").unwrap();
    tp.feed("x").unwrap();
    assert!(tp.aborts_on("-v"));
}

#[test]
fn values_are_recorded_at_their_byte_offsets() {
    let mut tp = TokenMatcher::new(
        vec![OptionConfig::new("value".to_string(), None, Bound::Range(1, 1))],
        vec![ArgumentConfig::new("items".to_string(), Bound::Lower(1))],
    )
    .unwrap();
    tp.feed("ab").unwrap();
    tp.feed("cde").unwrap();
    tp.feed("--value=xyz").unwrap();
    let matches = tp.close().unwrap();
    let mut found: Vec<(String, Vec<(usize, String)>)> = matches
        .values
        .iter()
        .map(|m| (m.name.clone(), m.values.clone()))
        .collect();
    found.sort();
    assert_eq!(
        found,
        vec![
            ("items".to_string(), vec![(0, "ab".to_string()), (2, "cde".to_string())]),
            ("value".to_string(), vec![(13, "xyz".to_string())]),
        ]
    );
}

#[test]
fn other_integer_tokens() {
    use_scalar::<i8>("-128", Some(-128));
    use_scalar::<i8>("128", None);
    use_scalar::<i16>("+300", Some(300));
    use_scalar::<isize>("-5", Some(-5));
    use_scalar::<i128>("-170141183460469231731687303715884105728", Some(i128::MIN));
    use_scalar::<u128>("340282366920938463463374607431768211455", Some(u128::MAX));
    use_scalar::<u128>("-1", None);
    assert_eq!(<u128 as FromToken>::type_label(), "u128");
}
