use blarg::CommandParser;
use blarg::Parameter;
use blarg::Scalar;
use blarg::interface::ErrorContext;
use blarg::interface::UserInterface;
use blarg::middleware::ParseResult;
use blarg::middleware::ParseUnit;
use blarg::middleware::Shown;
use blarg::printer::Printer;
use blarg::parser::ParseError;
use blarg::CommandLineParser;
use blarg::field::AnonymousCapturable;
use blarg::field::AnonymousCapture;
use blarg::matcher::api::ArgumentConfig;
use blarg::matcher::api::Bound;
use blarg::matcher::api::OptionConfig;
use blarg::middleware::GeneralParser;
use blarg::parser::Action;
use blarg::parser::Parser;
use std::cell::RefCell;
use std::rc::Rc;

#[derive(Default)]
struct InMemory {
    message: RefCell<Option<Vec<String>>>,
    error: RefCell<Option<String>>,
    error_context: RefCell<Option<(usize, Vec<String>)>>,
}

impl UserInterface for InMemory {
    fn print(&self, message: String) {
        let mut output = self.message.borrow_mut();
        match output.as_mut() {
            Some(lines) => lines.push(message),
            None => {
                output.replace(vec![message]);
            }
        }
    }

    fn print_error(&self, error: ParseError) {
        self.error.borrow_mut().replace(error.to_string());
    }

    fn print_error_context(&self, error_context: ErrorContext) {
        self.error_context
            .borrow_mut()
            .replace((error_context.offset(), error_context.tokens().clone()));
    }
}

#[test]
fn invoke_argument_unmatched() {
    // Setup
    let mut parse_unit = ParseUnit::empty();
    let interface = InMemory::default();

    // Execute
    let result = parse_unit.invoke(&["unmatched"], "program", &interface);

    // Verify
    assert_eq!(result, ParseResult::Exit(1));

    assert!((*interface.message.borrow()).is_none());
    assert!((*interface.error.borrow())
        .as_ref()
        .unwrap()
        .contains("Parse error"));
    assert_eq!(
        (*interface.error_context.borrow()).as_ref().unwrap(),
        &(0, vec!["unmatched".to_string()])
    );
}

#[test]
fn ap_argument_value() {
    let ap = CommandParser::new("abc");
    let mut variable: u32 = 0;
    ap.add(Parameter::argument(Scalar::new(&mut variable), "variable"))
        .build()
        .unwrap()
        .parse_tokens(vec!["1"].as_slice())
        .unwrap();
    assert_eq!(variable, 1);
}

struct Shared(Rc<InMemory>);

impl UserInterface for Shared {
    fn print(&self, message: String) {
        self.0.print(message);
    }

    fn print_error(&self, error: ParseError) {
        self.0.print_error(error);
    }

    fn print_error_context(&self, error_context: ErrorContext) {
        self.0.print_error_context(error_context);
    }
}

#[test]
fn core_empty_build() {
    // Setup
    let clp = CommandLineParser::new("program");

    // Execute
    let parser = clp.build().unwrap();

    // Verify
    let empty: [&str; 0] = [];
    parser.parse_tokens(&empty).unwrap();
}

#[test]
fn ap_empty() {
    let ap = CommandParser::new("abc");
    let empty: [&str; 0] = [];
    ap.build().unwrap().parse_tokens(&empty).unwrap();
}

#[test]
fn invoke_empty() {
    // Setup
    let mut parse_unit = ParseUnit::empty();
    let interface = InMemory::default();

    // Execute
    let empty: [&str; 0] = [];
    let result = parse_unit.invoke(&empty, "program", &interface);

    // Verify
    assert_eq!(result, ParseResult::Complete);
    assert!((*interface.message.borrow()).is_none());
    assert!((*interface.error.borrow()).is_none());
    assert_eq!((*interface.error_context.borrow()), None);
}

#[test]
fn parse_tokens_empty() {
    // Setup
    let interface = Rc::new(InMemory::default());
    let general_parser = GeneralParser::command(
        "program".to_string(),
        ParseUnit::empty(),
        Box::new(Shared(interface.clone())),
    );

    // Execute
    let empty: [&str; 0] = [];
    general_parser.parse_tokens(&empty).unwrap();

    // Verify
    assert!((*interface.message.borrow()).is_none());
    assert!((*interface.error.borrow()).is_none());
    assert_eq!((*interface.error_context.borrow()), None);
}

#[test]
fn parser_empty() {
    // Setup
    let mut parser = Parser::empty();

    // Execute
    let empty: [&str; 0] = [];
    let result = parser.consume(&empty).unwrap();

    // Verify
    assert_eq!(
        result,
        Action::Continue {
            discriminee: None,
            remaining: vec![],
        }
    );
}

fn black_hole() -> Box<dyn AnonymousCapturable> {
    let variable: &'static mut u32 = Box::leak(Box::new(0u32));
    Box::new(AnonymousCapture::bind(Scalar::new(variable)))
}

#[test]
fn parser_duplicate_option() {
    for bound in [Bound::Range(0, 0), Bound::Range(1, 3), Bound::Lower(0), Bound::Lower(2)] {
        let result = Parser::new(
            vec![
                (OptionConfig::new("flag".to_string(), None, bound), black_hole()),
                (OptionConfig::new("flag".to_string(), None, bound), black_hole()),
            ],
            Vec::default(),
            None,
        );
        assert!(result.is_err());
    }
}

#[test]
fn parser_duplicate_option_short() {
    for bound in [Bound::Range(0, 0), Bound::Range(1, 3), Bound::Lower(0), Bound::Lower(2)] {
        let result = Parser::new(
            vec![
                (OptionConfig::new("flagA".to_string(), Some('f'), bound), black_hole()),
                (OptionConfig::new("flagB".to_string(), Some('f'), bound), black_hole()),
            ],
            Vec::default(),
            None,
        );
        assert!(result.is_err());
    }
}

#[test]
fn parser_duplicate_argument() {
    for bound in [Bound::Range(1, 1), Bound::Range(1, 3), Bound::Lower(1), Bound::Lower(2)] {
        let result = Parser::new(
            Vec::default(),
            vec![
                (ArgumentConfig::new("flag".to_string(), bound), black_hole()),
                (ArgumentConfig::new("flag".to_string(), bound), black_hole()),
            ],
            None,
        );
        assert!(result.is_err());
    }
}

#[test]
fn parser_duplicate_option_argument() {
    for bound in [Bound::Range(1, 1), Bound::Range(1, 3), Bound::Lower(1), Bound::Lower(2)] {
        let result = Parser::new(
            vec![(OptionConfig::new("value".to_string(), None, bound), black_hole())],
            vec![(ArgumentConfig::new("value".to_string(), bound), black_hole())],
            None,
        );
        assert!(result.is_err());
    }
}

#[test]
fn run_shows_error_at_its_offset() {
    let mut empty_unit = ParseUnit::empty();
    let (result, shown) = empty_unit.run(&["unmatched"], "program");
    assert_eq!(result, ParseResult::Exit(1));
    match shown {
        Shown::Error(error, context) => {
            assert!(error.to_string().contains("Parse error"));
            assert_eq!(context.offset(), 0);
            assert_eq!(context.tokens(), &vec!["unmatched".to_string()]);
        }
        _ => panic!("expected an error to show"),
    }
}

#[test]
fn run_shows_help_lines() {
    let mut empty_unit = ParseUnit::empty();
    let (result, shown) = empty_unit.run(&["--help"], "program");
    assert_eq!(result, ParseResult::Exit(0));
    match shown {
        Shown::Help(lines) => assert!(lines[0].starts_with("usage: program [-h]")),
        _ => panic!("expected the help message"),
    }
}

#[test]
fn run_on_a_match_shows_nothing() {
    let mut variable: u32 = 0;
    {
        let parser = Parser::new(
            vec![],
            vec![(
                ArgumentConfig::new("variable".to_string(), Bound::Range(1, 1)),
                Box::new(AnonymousCapture::bind(Scalar::new(&mut variable))) as Box<dyn AnonymousCapturable>,
            )],
            None,
        )
        .unwrap();
        let mut unit = ParseUnit::new(parser, Printer::empty());
        let (result, shown) = unit.run(&["7"], "program");
        assert_eq!(result, ParseResult::Complete);
        assert!(matches!(shown, Shown::Nothing));
    }
    assert_eq!(variable, 7);
}

#[test]
fn consume_refuses_a_value_that_does_not_convert() {
    let mut variable: u32 = 0;
    {
        let mut parser = Parser::new(
            vec![(OptionConfig::new("flag".to_string(), None, Bound::Range(0, 0)), black_hole())],
            vec![(
                ArgumentConfig::new("variable".to_string(), Bound::Range(1, 1)),
                Box::new(AnonymousCapture::bind(Scalar::new(&mut variable))) as Box<dyn AnonymousCapturable>,
            )],
            None,
        )
        .unwrap();
        let (offset, error) = parser.consume(&["--flag", "abc"]).unwrap_err();
        assert_eq!(offset, 6);
        assert_eq!(error.message(), &"cannot convert 'abc' to u32.".to_string());
    }
    assert_eq!(variable, 0);
}

#[test]
fn outcome_of_an_unknown_sub_command() {
    let parser = Parser::new(
        vec![(OptionConfig::new("flag".to_string(), None, Bound::Range(0, 0)), black_hole())],
        vec![(ArgumentConfig::new("variable".to_string(), Bound::Range(1, 1)), black_hole())],
        Some("variable".to_string()),
    )
    .unwrap();
    let unit = ParseUnit::new(parser, Printer::empty());
    let mut general = GeneralParser::sub_command(
        "program".to_string(),
        unit,
        Vec::new(),
        Box::new(Shared(Rc::new(InMemory::default()))),
    );
    let (status, shown) = general.outcome(&["--flag", "1"]);
    assert_eq!(status, Err(1));
    match shown {
        Shown::Error(error, context) => {
            assert_eq!(error.message(), &"Unknown sub-command '1' for parameter 'VARIABLE'.".to_string());
            assert_eq!(context.offset(), 6);
        }
        _ => panic!("expected an error to show"),
    }
}

#[test]
fn parser_discriminator() {
    let mut variable: u32 = 0;
    {
        let mut parser = Parser::new(
            vec![(OptionConfig::new("flag".to_string(), None, Bound::Range(0, 0)), black_hole())],
            vec![(
                ArgumentConfig::new("variable".to_string(), Bound::Range(1, 1)),
                Box::new(AnonymousCapture::bind(Scalar::new(&mut variable))) as Box<dyn AnonymousCapturable>,
            )],
            Some("variable".to_string()),
        )
        .unwrap();
        let result = parser.consume(&["1", "abc", "2"]).unwrap();
        assert_eq!(
            result,
            Action::Continue {
                discriminee: Some(("variable".to_string(), (0, "1".to_string()))),
                remaining: vec!["abc".to_string(), "2".to_string()],
            }
        );
    }
    assert_eq!(variable, 1);
}

#[test]
fn parser_help() {
    let cases: Vec<Vec<&str>> = vec![vec!["-h"], vec!["--help"], vec!["-h", "1"], vec!["--help", "not-a-u32"]];
    for tokens in cases {
        let mut variable: u32 = 0;
        {
            let mut parser = Parser::new(
                vec![],
                vec![(
                    ArgumentConfig::new("variable".to_string(), Bound::Range(1, 1)),
                    Box::new(AnonymousCapture::bind(Scalar::new(&mut variable))) as Box<dyn AnonymousCapturable>,
                )],
                None,
            )
            .unwrap();
            assert_eq!(parser.consume(&tokens).unwrap(), Action::PrintHelp);
        }
        assert_eq!(variable, 0);
    }
}
