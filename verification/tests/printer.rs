use blarg::Nargs;
use blarg::interface::ErrorContext;
use blarg::interface::UserInterface;
use blarg::parser::ParseError;
use blarg::printer::ArgumentParameter;
use blarg::printer::OptionParameter;
use blarg::printer::Printer;
use std::cell::RefCell;

struct InMemoryInterface {
    message: RefCell<Vec<String>>,
    error: RefCell<Option<String>>,
    error_context: RefCell<Option<String>>,
}

impl Default for InMemoryInterface {
    fn default() -> Self {
        InMemoryInterface {
            message: RefCell::new(Vec::new()),
            error: RefCell::new(None),
            error_context: RefCell::new(None),
        }
    }
}

impl UserInterface for InMemoryInterface {
    fn print(&self, message: String) {
        self.message.borrow_mut().push(message);
    }

    fn print_error(&self, error: ParseError) {
        self.error.borrow_mut().replace(error.to_string());
    }

    fn print_error_context(&self, error_context: ErrorContext) {
        self.error_context.borrow_mut().replace(error_context.to_string());
    }
}

impl InMemoryInterface {
    fn consume_message(self) -> String {
        assert_eq!(*self.error.borrow(), None);
        assert_eq!(*self.error_context.borrow(), None);
        let lines = self.message.borrow();
        lines.join("\n")
    }
}

#[test]
fn printer_print_help_empty() {
        // Setup
        let printer = Printer::empty();
        let interface = InMemoryInterface::default();

        // Execute
        printer.print_help("program", &interface);

        // Verify
        let message = interface.consume_message();
        assert_eq!(
            message,
            r#"usage: program [-h]

options:
 -h, --help   Show this help
              message and
              exit."#
        );
}

#[test]
fn printer_print_help_option() {
        // Setup
        let printer = Printer::new(
            vec![OptionParameter::basic(
                "flag".to_string(),
                Some('f'),
                Nargs::Precisely(1),
                Some("message".to_string()),
                None,
            )],
            Vec::default(),
            Some(120),
        );
        let interface = InMemoryInterface::default();

        // Execute
        printer.print_help("program", &interface);

        // Verify
        let message = interface.consume_message();
        assert_eq!(
            message,
            r#"usage: program [-h] [-f FLAG]

options:
 -h, --help             Show this help message and exit.
 -f FLAG, --flag FLAG   message"#
        );
}

#[test]
fn print_help_option_choices() {
        // Setup
        let printer = Printer::new(
            vec![OptionParameter::new(
                "flag".to_string(),
                Some('f'),
                Nargs::Precisely(1),
                None,
                None,
                Vec::from([
                    ("xyz".to_string(), "do the xyz".to_string()),
                    ("abc".to_string(), "do the abc".to_string()),
                    ("123".to_string(), "do the 123".to_string()),
                ]),
            )],
            Vec::default(),
            Some(120),
        );
        let interface = InMemoryInterface::default();

        // Execute
        printer.print_help("program", &interface);

        // Verify
        let message = interface.consume_message();
        assert_eq!(
            message,
            r#"usage: program [-h] [-f FLAG]

options:
 -h, --help             Show this help message and exit.
 -f FLAG, --flag FLAG   {123, abc, xyz}
   123                    do the 123
   abc                    do the abc
   xyz                    do the xyz"#
        );
}

#[test]
fn print_help_option_meta() {
        // Setup
        let printer = Printer::new(
            vec![OptionParameter::basic(
                "flag".to_string(),
                Some('f'),
                Nargs::Precisely(1),
                Some("message in a bottle, by the police.".to_string()),
                Some(vec!["the swift".to_string(), "brown fox".to_string()]),
            )],
            Vec::default(),
            Some(72),
        );
        let interface = InMemoryInterface::default();

        // Execute
        printer.print_help("program", &interface);

        // Verify
        let message = interface.consume_message();
        assert_eq!(
            message,
            r#"usage: program [-h] [-f FLAG]

options:
 -h, --help             Show this help
                        message and
                        exit.
 -f FLAG, --flag FLAG   message in a       the swift   brown fox
                        bottle, by the
                        police."#
        );
}

#[test]
fn print_help_option_meta_with_empty() {
        // Setup
        let printer = Printer::new(
            vec![
                OptionParameter::basic(
                    "flag".to_string(),
                    Some('f'),
                    Nargs::Precisely(1),
                    Some("message in a bottle, by the police.".to_string()),
                    Some(vec!["".to_string(), "brown fox".to_string()]),
                ),
                OptionParameter::basic(
                    "other".to_string(),
                    None,
                    Nargs::Precisely(1),
                    Some("".to_string()),
                    Some(vec!["x".to_string(), "brown fox".to_string()]),
                ),
            ],
            Vec::default(),
            Some(72),
        );
        let interface = InMemoryInterface::default();

        // Execute
        printer.print_help("program", &interface);

        // Verify
        let message = interface.consume_message();
        assert_eq!(
            message,
            r#"usage: program [-h] [-f FLAG] [--other OTHER]

options:
 -h, --help             Show this help
                        message and
                        exit.
 -f FLAG, --flag FLAG   message in a           brown fox
                        bottle, by the
                        police.
 --other OTHER                             x   brown fox"#
        );
}

#[test]
fn print_help_option_meta_without_help() {
        // Setup
        let printer = Printer::new(
            vec![OptionParameter::basic(
                "flag".to_string(),
                Some('f'),
                Nargs::Precisely(1),
                None,
                Some(vec!["the swift".to_string(), "brown fox".to_string()]),
            )],
            Vec::default(),
            Some(72),
        );
        let interface = InMemoryInterface::default();

        // Execute
        printer.print_help("program", &interface);

        // Verify
        let message = interface.consume_message();
        assert_eq!(
            message,
            r#"usage: program [-h] [-f FLAG]

options:
 -h, --help             Show this help
                        message and
                        exit.
 -f FLAG, --flag FLAG                      the swift   brown fox"#
        );
}

#[test]
fn printer_print_help_option_precisely2() {
        // Setup
        let printer = Printer::new(
            vec![OptionParameter::basic(
                "flag".to_string(),
                None,
                Nargs::Precisely(2),
                None,
                None,
            )],
            Vec::default(),
            Some(120),
        );
        let interface = InMemoryInterface::default();

        // Execute
        printer.print_help("program", &interface);

        // Verify
        let message = interface.consume_message();
        assert_eq!(
            message,
            r#"usage: program [-h] [--flag FLAG FLAG]

options:
 -h, --help         Show this help message and exit.
 --flag FLAG FLAG"#
        );
}

#[test]
fn printer_print_help_option_atleastone() {
        // Setup
        let printer = Printer::new(
            vec![OptionParameter::basic(
                "flag".to_string(),
                None,
                Nargs::AtLeastOne,
                None,
                None,
            )],
            Vec::default(),
            Some(120),
        );
        let interface = InMemoryInterface::default();

        // Execute
        printer.print_help("program", &interface);

        // Verify
        let message = interface.consume_message();
        assert_eq!(
            message,
            r#"usage: program [-h] [--flag FLAG [...]]

options:
 -h, --help          Show this help message and exit.
 --flag FLAG [...]"#
        );
}

#[test]
fn printer_print_help_option_any() {
        // Setup
        let printer = Printer::new(
            vec![OptionParameter::basic(
                "flag".to_string(),
                None,
                Nargs::Any,
                None,
                None,
            )],
            Vec::default(),
            Some(120),
        );
        let interface = InMemoryInterface::default();

        // Execute
        printer.print_help("program", &interface);

        // Verify
        let message = interface.consume_message();
        assert_eq!(
            message,
            r#"usage: program [-h] [--flag [FLAG ...]]

options:
 -h, --help          Show this help message and exit.
 --flag [FLAG ...]"#
        );
}

#[test]
fn print_help_argument_meta() {
        // Setup
        let printer = Printer::new(
            Vec::default(),
            vec![ArgumentParameter::basic(
                "name".to_string(),
                Nargs::Precisely(1),
                Some("message in a bottle, by the police.".to_string()),
                Some(vec!["the swift".to_string(), "brown fox".to_string()]),
            )],
            Some(60),
        );
        let interface = InMemoryInterface::default();

        // Execute
        printer.print_help("program", &interface);

        // Verify
        let message = interface.consume_message();
        assert_eq!(
            message,
            r#"usage: program [-h] NAME

positional arguments:
 NAME         message in a       the swift   brown fox
              bottle, by the
              police.

options:
 -h, --help   Show this help
              message and
              exit."#
        );
}

#[test]
fn print_help_argument_meta_with_empty() {
        // Setup
        let printer = Printer::new(
            Vec::default(),
            vec![
                ArgumentParameter::basic(
                    "name".to_string(),
                    Nargs::Precisely(1),
                    Some("message in a bottle, by the police.".to_string()),
                    Some(vec!["".to_string(), "brown fox".to_string()]),
                ),
                ArgumentParameter::basic(
                    "other".to_string(),
                    Nargs::Precisely(1),
                    Some("".to_string()),
                    Some(vec!["x".to_string(), "brown fox".to_string()]),
                ),
            ],
            Some(60),
        );
        let interface = InMemoryInterface::default();

        // Execute
        printer.print_help("program", &interface);

        // Verify
        let message = interface.consume_message();
        assert_eq!(
            message,
            r#"usage: program [-h] NAME OTHER

positional arguments:
 NAME         message in a           brown fox
              bottle, by the
              police.
 OTHER                           x   brown fox

options:
 -h, --help   Show this help
              message and
              exit."#
        );
}

#[test]
fn print_help_argument_meta_without_help() {
        // Setup
        let printer = Printer::new(
            Vec::default(),
            vec![ArgumentParameter::basic(
                "name".to_string(),
                Nargs::Precisely(1),
                None,
                Some(vec!["the swift".to_string(), "brown fox".to_string()]),
            )],
            Some(120),
        );
        let interface = InMemoryInterface::default();

        // Execute
        printer.print_help("program", &interface);

        // Verify
        let message = interface.consume_message();
        assert_eq!(
            message,
            r#"usage: program [-h] NAME

positional arguments:
 NAME                                            the swift   brown fox

options:
 -h, --help   Show this help message and exit."#
        );
}

#[test]
fn printer_print_help() {
        // Setup
        let printer = Printer::new(
            vec![
                OptionParameter::basic(
                    "car-park".to_string(),
                    Some('x'),
                    Nargs::Any,
                    Some("car message".to_string()),
                    Some(vec!["meta2".to_string()]),
                ),
                OptionParameter::basic(
                    "blue-spring".to_string(),
                    Some('y'),
                    Nargs::Precisely(0),
                    Some("blue message".to_string()),
                    None,
                ),
                OptionParameter::basic(
                    "apple".to_string(),
                    Some('z'),
                    Nargs::Precisely(1),
                    Some("apple message".to_string()),
                    None,
                ),
            ],
            vec![
                ArgumentParameter::basic(
                    "name-bob".to_string(),
                    Nargs::Precisely(1),
                    Some("name message".to_string()),
                    None,
                ),
                ArgumentParameter::basic(
                    "items-x".to_string(),
                    Nargs::Any,
                    Some("items message".to_string()),
                    Some(vec!["meta1".to_string()]),
                ),
            ],
            Some(120),
        );
        let interface = InMemoryInterface::default();

        // Execute
        printer.print_help("program", &interface);

        // Verify
        let message = interface.consume_message();
        assert_eq!(
            message,
            r#"usage: program [-h] [-z APPLE] [-y] [-x [CAR_PARK ...]] NAME_BOB [ITEMS_X ...]

positional arguments:
 NAME_BOB                                       name message
 [ITEMS_X ...]                                  items message                      meta1

options:
 -h, --help                                     Show this help message and exit.
 -z APPLE, --apple APPLE                        apple message
 -y, --blue-spring                              blue message
 -x [CAR_PARK ...], --car-park [CAR_PARK ...]   car message                        meta2"#
        );
}

#[test]
fn print_help_choices_from_option() {
        // Setup
        let printer = Printer::new(
            vec![
                OptionParameter::basic(
                    "blue".to_string(),
                    Some('y'),
                    Nargs::Precisely(0),
                    Some("blue message".to_string()),
                    None,
                ),
                OptionParameter::new(
                    "apple".to_string(),
                    Some('z'),
                    Nargs::Precisely(1),
                    Some("extra".to_string()),
                    None,
                    Vec::from([(
                        "abcdefghijklmnopqrstuvwxyz".to_string(),
                        "abcdefghijklmnopqrstuvwxyz".to_string(),
                    )]),
                ),
            ],
            vec![
                ArgumentParameter::basic(
                    "name".to_string(),
                    Nargs::Precisely(1),
                    Some("name message".to_string()),
                    None,
                ),
                ArgumentParameter::basic(
                    "items".to_string(),
                    Nargs::Any,
                    Some("items message".to_string()),
                    None,
                ),
            ],
            Some(120),
        );
        let interface = InMemoryInterface::default();

        // Execute
        printer.print_help("program", &interface);

        // Verify
        let message = interface.consume_message();
        assert_eq!(
            message,
            r#"usage: program [-h] [-z APPLE] [-y] NAME [ITEMS ...]

positional arguments:
 NAME                           name message
 [ITEMS ...]                    items message

options:
 -h, --help                     Show this help message and exit.
 -z APPLE, --apple APPLE        {abcdefghijklmnopqrstuvwxyz} extra
   abcdefghijklmnopqrstuvwxyz     abcdefghijklmnopqrstuvwxyz
 -y, --blue                     blue message"#
        );
}

#[test]
fn print_help_choices_from_argument() {
        // Setup
        let printer = Printer::new(
            vec![OptionParameter::basic(
                "blue".to_string(),
                Some('y'),
                Nargs::Precisely(0),
                Some("blue message".to_string()),
                None,
            )],
            vec![
                ArgumentParameter::new(
                    "name".to_string(),
                    Nargs::Precisely(1),
                    Some("extra".to_string()),
                    None,
                    Vec::from([(
                        "abcdefghijklmnopqrstuvwxyz".to_string(),
                        "abcdefghijklmnopqrstuvwxyz".to_string(),
                    )]),
                ),
                ArgumentParameter::basic(
                    "items".to_string(),
                    Nargs::Any,
                    Some("items message".to_string()),
                    None,
                ),
            ],
            Some(120),
        );
        let interface = InMemoryInterface::default();

        // Execute
        printer.print_help("program", &interface);

        // Verify
        let message = interface.consume_message();
        assert_eq!(
            message,
            r#"usage: program [-h] [-y] NAME [ITEMS ...]

positional arguments:
 NAME                           {abcdefghijklmnopqrstuvwxyz} extra
   abcdefghijklmnopqrstuvwxyz     abcdefghijklmnopqrstuvwxyz
 [ITEMS ...]                    items message

options:
 -h, --help                     Show this help message and exit.
 -y, --blue                     blue message"#
        );
}

#[test]
fn printer_error_context_tokens0() {
        assert_eq!(
            ErrorContext::new(0, &[]).to_string(),
            r#"
^"#
        );
        assert_eq!(
            ErrorContext::new(1, &[]).to_string(),
            r#"
^"#
        );
        assert_eq!(
            ErrorContext::new(2, &[]).to_string(),
            r#"
^"#
        );
        assert_eq!(
            ErrorContext::new(3, &[]).to_string(),
            r#"
^"#
        );
}

#[test]
fn printer_error_context_tokens1() {
        assert_eq!(
            ErrorContext::new(0, &["abc"]).to_string(),
            r#"abc
^"#
        );
        assert_eq!(
            ErrorContext::new(1, &["abc"]).to_string(),
            r#"abc
 ^"#
        );
        assert_eq!(
            ErrorContext::new(2, &["abc"]).to_string(),
            r#"abc
  ^"#
        );
        assert_eq!(
            ErrorContext::new(3, &["abc"]).to_string(),
            r#"abc
  ^"#
        );
}

#[test]
fn printer_error_context_tokens2() {
        assert_eq!(
            ErrorContext::new(0, &["abc", "123"]).to_string(),
            r#"abc 123
^"#
        );
        assert_eq!(
            ErrorContext::new(1, &["abc", "123"]).to_string(),
            r#"abc 123
 ^"#
        );
        assert_eq!(
            ErrorContext::new(2, &["abc", "123"]).to_string(),
            r#"abc 123
  ^"#
        );
        assert_eq!(
            ErrorContext::new(3, &["abc", "123"]).to_string(),
            r#"abc 123
    ^"#
        );
        assert_eq!(
            ErrorContext::new(4, &["abc", "123"]).to_string(),
            r#"abc 123
     ^"#
        );
        assert_eq!(
            ErrorContext::new(5, &["abc", "123"]).to_string(),
            r#"abc 123
      ^"#
        );
        assert_eq!(
            ErrorContext::new(6, &["abc", "123"]).to_string(),
            r#"abc 123
      ^"#
        );
}


#[test]
fn printer_sorts_options_keeping_equal_names_in_order() {
    let option = |name: &str, short: char| {
        OptionParameter::basic(name.to_string(), Some(short), Nargs::Precisely(0), None, None)
    };
    let printer = Printer::new(
        vec![option("beta", 'x'), option("alpha", 'y'), option("beta", 'z'), option("alpha", 'w')],
        Vec::default(),
        None,
    );
    let listed: Vec<(String, Option<char>)> =
        printer.options().iter().map(|o| (o.name().clone(), o.short())).collect();
    assert_eq!(
        listed,
        vec![
            ("alpha".to_string(), Some('y')),
            ("alpha".to_string(), Some('w')),
            ("beta".to_string(), Some('x')),
            ("beta".to_string(), Some('z')),
        ]
    );
}
