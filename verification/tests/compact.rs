use blarg::Nargs;
use blarg::compact::Printer;
use blarg::interface::ErrorContext;
use blarg::interface::UserInterface;
use blarg::parser::ParseError;
use std::cell::RefCell;

struct InMemoryInterface {
    message: RefCell<Vec<String>>,
    error: RefCell<Option<String>>,
    error_context: RefCell<Option<String>>,
}

impl Default for InMemoryInterface {
    fn default() -> Self {
        InMemoryInterface {
            message: RefCell::new(Vec::new()),
            error: RefCell::new(None),
            error_context: RefCell::new(None),
        }
    }
}

impl UserInterface for InMemoryInterface {
    fn print(&self, message: String) {
        self.message.borrow_mut().push(message);
    }

    fn print_error(&self, error: ParseError) {
        self.error.borrow_mut().replace(error.to_string());
    }

    fn print_error_context(&self, error_context: ErrorContext) {
        self.error_context.borrow_mut().replace(error_context.to_string());
    }
}

impl InMemoryInterface {
    fn consume_message(self) -> String {
        assert_eq!(*self.error.borrow(), None);
        assert_eq!(*self.error_context.borrow(), None);
        let lines = self.message.borrow();
        lines.join("\n")
    }
}

#[test]
fn printer_print_help_option_precisely0() {
        // Setup
        let printer = Printer::new(
            vec![("flag".to_string(), None, Nargs::Precisely(0), None)],
            Vec::new(),
        );
        let interface = InMemoryInterface::default();

        // Execute
        printer.print_help("program", &interface);

        // Verify
        let message = interface.consume_message();
        assert_eq!(
            message,
            r#"usage: program [-h] [--flag]

options:
 -h, --help  Show this help message and exit.
 --flag    "#
        );
}

#[test]
fn printer_print_help_argument() {
        // Setup
        let printer = Printer::new(
            Vec::new(),
            vec![("name".to_string(), Nargs::Precisely(1), Some("message"))],
        );
        let interface = InMemoryInterface::default();

        // Execute
        printer.print_help("program", &interface);

        // Verify
        let message = interface.consume_message();
        assert_eq!(
            message,
            r#"usage: program [-h] NAME

positional arguments:
 NAME        message

options:
 -h, --help  Show this help message and exit."#
        );
}

#[test]
fn printer_print_help_argument_precisely2() {
        // Setup
        let printer = Printer::new(
            Vec::new(),
            vec![("name".to_string(), Nargs::Precisely(2), None)],
        );
        let interface = InMemoryInterface::default();

        // Execute
        printer.print_help("program", &interface);

        // Verify
        let message = interface.consume_message();
        assert_eq!(
            message,
            r#"usage: program [-h] NAME NAME

positional arguments:
 NAME NAME 

options:
 -h, --help  Show this help message and exit."#
        );
}

#[test]
fn printer_print_help_argument_atleastone() {
        // Setup
        let printer = Printer::new(
            Vec::new(),
            vec![("name".to_string(), Nargs::AtLeastOne, None)],
        );
        let interface = InMemoryInterface::default();

        // Execute
        printer.print_help("program", &interface);

        // Verify
        let message = interface.consume_message();
        assert_eq!(
            message,
            r#"usage: program [-h] NAME [...]

positional arguments:
 NAME [...]

options:
 -h, --help  Show this help message and exit."#
        );
}

#[test]
fn printer_print_help_argument_any() {
        // Setup
        let printer = Printer::new(Vec::new(), vec![("name".to_string(), Nargs::Any, None)]);
        let interface = InMemoryInterface::default();

        // Execute
        printer.print_help("program", &interface);

        // Verify
        let message = interface.consume_message();
        assert_eq!(
            message,
            r#"usage: program [-h] [NAME ...]

positional arguments:
 [NAME ...]

options:
 -h, --help  Show this help message and exit."#
        );
}
