//! Running configured parsers: one command, or a root command and the sub-command it selects.
use vstd::prelude::*;
use crate::interface::ContextSpec;
use crate::interface::ErrorContext;
use crate::interface::UserInterface;
use crate::matcher::model::TokensSpec;
use crate::parser::Action;
use crate::parser::MatchOutcome;
use crate::parser::ParseError;
use crate::parser::Parser;
use crate::parser::capture_failure;
use crate::parser::captured;
use crate::parser::ParserSpec;
use crate::parser::discriminee_from;
use crate::parser::match_outcome;
use crate::parser::slices_view;
use crate::parser::total_bytes;
use crate::printer::Printer;
use crate::printer::PrinterSpec;
use crate::printer::help_lines_spec;
use crate::render::strings_view;
use crate::text::upper_ascii;

verus! {

/// The result of running one command's parser.
#[derive(Debug, PartialEq, Eq)]
pub enum ParseResult {
    /// Every token was parsed.
    Complete,
    /// The discriminator selected a sub-command: its name (in upper case), the offset and value
    /// of its token, and the tokens left for the sub-command.
    Incomplete { name: String, variant_offset: usize, variant: String, remaining: Vec<String> },
    /// Parsing ended with this exit code (0 after the help message, 1 after an error).
    Exit(i32),
}

/// The name in ASCII upper case.
pub open spec fn upper_name(name: Seq<char>) -> Seq<char> {
    name.map_values(|c: char| upper_ascii(c))
}

/// The name in ASCII upper case.
fn upper_of(name: &String) -> (r: String)
    ensures
        r@ == upper_name(name@),
{
    let chars = crate::text::chars_of(name.as_str());
    let mut v: Vec<char> = Vec::new();
    let mut i: usize = 0;
    while i < chars.len()
        invariant
            i <= chars@.len(),
            chars@ == name@,
            v@ == upper_name(name@).take(i as int),
        decreases chars.len() - i,
    {
        v.push(crate::text::to_upper_ascii(chars[i]));
        i = i + 1;
        assert(v@ =~= upper_name(name@).take(i as int));
    }
    assert(upper_name(name@).take(i as int) =~= upper_name(name@));
    crate::text::string_of(&v)
}

/// Whether capturing the matches may fail: a value does not convert, or a field may refuse one.
pub open spec fn capture_may_fail(p: ParserSpec, m: Seq<TokensSpec>) -> bool {
    !p.accepts_all || (p.unconverted)(m) is Some
}

/// What running a command's parser on the tokens yields.
pub open spec fn invoke_agrees(p: ParserSpec, tokens: Seq<Seq<char>>, r: ParseResult) -> bool {
    match match_outcome(p.matcher, tokens, p.discriminator is Some) {
        MatchOutcome::Aborted => false,
        MatchOutcome::Error(_, _) => r == ParseResult::Exit(1),
        MatchOutcome::Help => r == ParseResult::Exit(0),
        MatchOutcome::Matched(m, consumed) => match r {
            ParseResult::Complete => (p.unconverted)(m) is None && match p.discriminator {
                Some(t) => discriminee_from(m, t, 0) is None,
                None => true,
            },
            ParseResult::Incomplete { name, variant_offset, variant, remaining } => {
                &&& (p.unconverted)(m) is None
                &&& p.discriminator matches Some(t)
                &&& discriminee_from(m, t, 0) == Some((variant_offset as nat, variant@))
                &&& name@ == upper_name(t)
                &&& strings_view(remaining@) == tokens.skip(consumed as int)
            },
            ParseResult::Exit(code) => code == 1 && capture_may_fail(p, m),
        },
    }
}

/// What running a command's parser has to show the user.
pub enum Shown {
    /// Nothing.
    Nothing,
    /// The lines of the help message.
    Help(Vec<String>),
    /// An error, and where it lies in the tokens.
    Error(ParseError, ErrorContext),
}

/// Whether `s` shows the error `message` at `offset` in the tokens.
pub open spec fn shows_error(s: Shown, tokens: Seq<Seq<char>>, offset: nat, message: Seq<char>) -> bool {
    s matches Shown::Error(e, c) && e@ == message && c@ == (ContextSpec { offset, tokens })
}

/// What running a command's parser on the tokens shows, given its result: the help message when
/// asked for help, the error at its offset after a matching or capture error, and nothing
/// otherwise.
pub open spec fn shown_agrees(u: UnitSpec, tokens: Seq<Seq<char>>, program: Seq<char>, r: ParseResult, s: Shown) -> bool {
    match match_outcome(u.parser.matcher, tokens, u.parser.discriminator is Some) {
        MatchOutcome::Aborted => false,
        MatchOutcome::Error(o, msg) => shows_error(s, tokens, o, msg),
        MatchOutcome::Help => s matches Shown::Help(lines) && strings_view(lines@) == help_lines_spec(u.printer, program),
        MatchOutcome::Matched(m, _) => match r {
            ParseResult::Exit(_) => exists|o: nat, msg: Seq<char>| #[trigger] capture_failure(u.parser, m, o, msg) && shows_error(s, tokens, o, msg),
            _ => s is Nothing,
        },
    }
}

/// Whether `after` is the unit `before` after running on the tokens with result `r`: its
/// configuration and printer are kept; no field is touched on an error found in matching or on
/// the help request, and on success each field has been handed its match (see `captured`).
pub open spec fn unit_captured(before: UnitSpec, after: UnitSpec, tokens: Seq<Seq<char>>, r: ParseResult) -> bool {
    &&& after.printer == before.printer
    &&& after.parser.matcher == before.parser.matcher
    &&& after.parser.names == before.parser.names
    &&& after.parser.discriminator == before.parser.discriminator
    &&& match match_outcome(before.parser.matcher, tokens, before.parser.discriminator is Some) {
        MatchOutcome::Matched(m, _) => !(r is Exit) ==> captured(before.parser, m, after.parser.matched, after.parser.given),
        _ => after.parser.matched == before.parser.matched && after.parser.given == before.parser.given,
    }
}

/// A command's parser and its help printer.
pub struct ParseUnit<'a> {
    parser: Parser<'a>,
    printer: Printer,
}

/// The abstract value of a parse unit.
pub struct UnitSpec {
    pub parser: ParserSpec,
    pub printer: PrinterSpec,
}

impl<'a> View for ParseUnit<'a> {
    type V = UnitSpec;

    closed spec fn view(&self) -> UnitSpec {
        UnitSpec { parser: self.parser@, printer: self.printer@ }
    }
}

impl<'a> ParseUnit<'a> {
    /// The unit's invariant: a well-formed parser that has not been fed.
    pub closed spec fn wf(&self) -> bool {
        &&& self.parser.wf()
        &&& self.parser@.matcher.fed == 0
        &&& crate::printer::names_distinct(self.printer@)
    }

    /// A unit of a freshly configured parser and its printer.
    pub fn new(parser: Parser<'a>, printer: Printer) -> (r: Self)
        requires
            parser.wf(),
            parser@.matcher.fed == 0,
            crate::printer::names_distinct(printer@),
        ensures
            r.wf(),
            r@ == (UnitSpec { parser: parser@, printer: printer@ }),
    {
        ParseUnit { parser, printer }
    }

    /// A unit with no parameters but the help option, and nothing to document.
    pub fn empty() -> (r: Self)
        ensures
            r.wf(),
            r@.parser.discriminator is None,
    {
        let printer = Printer::empty();
        assert(crate::printer::documented_names(printer@) =~= Seq::empty());
        ParseUnit::new(Parser::empty(), printer)
    }

    /// Run the parser on the tokens: the result, and what to show the user (the help message
    /// when asked for help, with exit code 0; the error and its context on an error, with exit
    /// code 1; otherwise nothing, and the selected sub-command, if any).
    pub fn run(&mut self, tokens: &[&str], program: &str) -> (r: (ParseResult, Shown))
        requires
            old(self).wf(),
            total_bytes(slices_view(tokens@)) + tokens@.len() <= usize::MAX,
            !(match_outcome(old(self)@.parser.matcher, slices_view(tokens@), old(self)@.parser.discriminator is Some) is Aborted),
        ensures
            final(self).wf(),
            invoke_agrees(old(self)@.parser, slices_view(tokens@), r.0),
            shown_agrees(old(self)@, slices_view(tokens@), program@, r.0, r.1),
            unit_captured(old(self)@, final(self)@, slices_view(tokens@), r.0),
    {
        let ghost u = self@;
        let ghost toks = slices_view(tokens@);
        match self.parser.consume(tokens) {
            Ok(Action::Continue { discriminee, remaining }) => match discriminee {
                Some((name, (offset, variant))) => (ParseResult::Incomplete {
                    name: upper_of(&name),
                    variant_offset: offset,
                    variant,
                    remaining,
                }, Shown::Nothing),
                None => (ParseResult::Complete, Shown::Nothing),
            },
            Ok(Action::PrintHelp) => {
                let lines = self.printer.help_lines(program);
                (ParseResult::Exit(0), Shown::Help(lines))
            },
            Err((offset, parse_error)) => {
                let ghost msg = parse_error@;
                let context = ErrorContext::new(offset, tokens);
                let shown = Shown::Error(parse_error, context);
                proof {
                    if let MatchOutcome::Matched(m, _) = match_outcome(u.parser.matcher, toks, u.parser.discriminator is Some) {
                        assert(capture_failure(u.parser, m, offset as nat, msg) && shows_error(shown, toks, offset as nat, msg));
                    }
                }
                (ParseResult::Exit(1), shown)
            },
        }
    }

    /// Run the parser on the tokens and show the user what `run` gives: print the help message
    /// and exit with 0 when asked for help, print the error and its context and exit with 1 on
    /// an error, and otherwise report the selected sub-command, if any.
    pub fn invoke(&mut self, tokens: &[&str], program: &str, user_interface: &dyn UserInterface) -> (r: ParseResult)
        requires
            old(self).wf(),
            total_bytes(slices_view(tokens@)) + tokens@.len() <= usize::MAX,
            !(match_outcome(old(self)@.parser.matcher, slices_view(tokens@), old(self)@.parser.discriminator is Some) is Aborted),
        ensures
            final(self).wf(),
            invoke_agrees(old(self)@.parser, slices_view(tokens@), r),
            unit_captured(old(self)@, final(self)@, slices_view(tokens@), r),
    {
        let (result, shown) = self.run(tokens, program);
        show(shown, user_interface);
        result
    }
}

/// Show the user what running a parser gave.
pub fn show(shown: Shown, user_interface: &dyn UserInterface) {
    match shown {
        Shown::Nothing => {},
        Shown::Help(lines) => {
            let mut i: usize = 0;
            while i < lines.len()
                invariant
                    i <= lines@.len(),
                decreases lines.len() - i,
            {
                user_interface.print(lines[i].clone());
                i = i + 1;
            }
        },
        Shown::Error(error, context) => {
            user_interface.print_error(error);
            user_interface.print_error_context(context);
        },
    }
}

impl Printer {
    /// Print the help message for `program`, line by line.
    pub fn print_help(&self, program: &str, user_interface: &dyn UserInterface)
        requires
            crate::printer::names_distinct(self@),
    {
        let lines = self.help_lines(program);
        let mut i: usize = 0;
        while i < lines.len()
            invariant
                i <= lines@.len(),
            decreases lines.len() - i,
        {
            user_interface.print(lines[i].clone());
            i = i + 1;
        }
    }
}

/// The abstract value of a configured command line parser.
pub struct GeneralSpec {
    pub program: Seq<char>,
    pub command: UnitSpec,
    pub sub_commands: Seq<(Seq<char>, UnitSpec)>,
}

/// The position of the first sub-command named `variant`, from `i` on.
pub open spec fn sub_command_index(subs: Seq<(Seq<char>, UnitSpec)>, variant: Seq<char>, i: int) -> Option<int>
    decreases subs.len() - i,
{
    if i < 0 || i >= subs.len() {
        None
    } else if subs[i].0 == variant {
        Some(i)
    } else {
        sub_command_index(subs, variant, i + 1)
    }
}

/// What running a sub-command's parser yields as the exit status.
pub open spec fn sub_status_agrees(p: ParserSpec, tokens: Seq<Seq<char>>, r: Result<(), i32>) -> bool {
    match match_outcome(p.matcher, tokens, false) {
        MatchOutcome::Aborted => false,
        MatchOutcome::Error(_, _) => r == Err::<(), i32>(1),
        MatchOutcome::Help => r == Err::<(), i32>(0),
        MatchOutcome::Matched(m, _) =>
            (r == Ok::<(), i32>(()) && (p.unconverted)(m) is None) || (r == Err::<(), i32>(1) && capture_may_fail(p, m)),
    }
}

/// What running the command line parser yields as the exit status: the root command's outcome,
/// then, when its discriminator selects a sub-command, that sub-command's outcome on the tokens
/// left; an unknown sub-command is an error. Values that fail to capture are errors (status 1).
pub open spec fn status_agrees(g: GeneralSpec, tokens: Seq<Seq<char>>, r: Result<(), i32>) -> bool {
    let p = g.command.parser;
    match match_outcome(p.matcher, tokens, p.discriminator is Some) {
        MatchOutcome::Aborted => false,
        MatchOutcome::Error(_, _) => r == Err::<(), i32>(1),
        MatchOutcome::Help => r == Err::<(), i32>(0),
        MatchOutcome::Matched(m, consumed) => match p.discriminator {
            None => (r == Ok::<(), i32>(()) && (p.unconverted)(m) is None) || (r == Err::<(), i32>(1) && capture_may_fail(p, m)),
            Some(t) => match discriminee_from(m, t, 0) {
                None => (r == Ok::<(), i32>(()) && (p.unconverted)(m) is None) || (r == Err::<(), i32>(1) && capture_may_fail(p, m)),
                Some(d) => match sub_command_index(g.sub_commands, d.1, 0) {
                    None => r == Err::<(), i32>(1),
                    Some(k) => (r == Err::<(), i32>(1) && capture_may_fail(p, m))
                        || ((p.unconverted)(m) is None && sub_status_agrees(g.sub_commands[k].1.parser, tokens.skip(consumed as int), r)),
                },
            },
        },
    }
}

/// The message for a discriminee that names no sub-command.
pub open spec fn unknown_message(variant: Seq<char>, name: Seq<char>) -> Seq<char> {
    "Unknown sub-command '"@ + variant + "' for parameter '"@ + name + "'."@
}

/// What running a command's parser shows, given the exit status it comes to.
pub open spec fn shown_for_status(u: UnitSpec, tokens: Seq<Seq<char>>, program: Seq<char>, r: Result<(), i32>, s: Shown) -> bool {
    match match_outcome(u.parser.matcher, tokens, u.parser.discriminator is Some) {
        MatchOutcome::Aborted => false,
        MatchOutcome::Error(o, msg) => shows_error(s, tokens, o, msg),
        MatchOutcome::Help => s matches Shown::Help(lines) && strings_view(lines@) == help_lines_spec(u.printer, program),
        MatchOutcome::Matched(m, _) => match r {
            Ok(_) => s is Nothing,
            Err(_) => exists|o: nat, msg: Seq<char>| #[trigger] capture_failure(u.parser, m, o, msg) && shows_error(s, tokens, o, msg),
        },
    }
}

/// What running the command line parser shows: what the root command shows; once the root's
/// values are captured, the error for an unknown sub-command at its discriminee, or what the
/// selected sub-command shows on the tokens left (under the program name followed by the
/// sub-command's). A successful parse shows nothing.
pub open spec fn general_shown_agrees(g: GeneralSpec, tokens: Seq<Seq<char>>, r: Result<(), i32>, s: Shown) -> bool {
    let p = g.command.parser;
    &&& r is Ok ==> s is Nothing
    &&& match match_outcome(p.matcher, tokens, p.discriminator is Some) {
        MatchOutcome::Aborted => false,
        MatchOutcome::Error(o, msg) => shows_error(s, tokens, o, msg),
        MatchOutcome::Help => s matches Shown::Help(lines) && strings_view(lines@) == help_lines_spec(g.command.printer, g.program),
        MatchOutcome::Matched(m, consumed) =>
            (exists|o: nat, msg: Seq<char>| #[trigger] capture_failure(p, m, o, msg) && shows_error(s, tokens, o, msg))
            || ((p.unconverted)(m) is None && match p.discriminator {
                None => s is Nothing,
                Some(t) => match discriminee_from(m, t, 0) {
                    None => s is Nothing,
                    Some(d) => match sub_command_index(g.sub_commands, d.1, 0) {
                        None => shows_error(s, tokens, d.0, unknown_message(d.1, upper_name(t))),
                        Some(k) => shown_for_status(g.sub_commands[k].1, tokens.skip(consumed as int), g.program + seq![' '] + d.1, r, s),
                    },
                },
            }),
    }
}

/// Whether the unit `after` keeps the configuration and printer of `before`.
pub open spec fn same_unit_config(before: UnitSpec, after: UnitSpec) -> bool {
    &&& after.printer == before.printer
    &&& after.parser.matcher == before.parser.matcher
    &&& after.parser.names == before.parser.names
    &&& after.parser.discriminator == before.parser.discriminator
}

/// Whether `after` is the command line parser `before` after running on the tokens with status
/// `r`: every configuration is kept; on success the root command's fields have been handed its
/// matches and, when its discriminator selects a sub-command, that sub-command's fields have been
/// handed the matches of the tokens left; no other field is touched, and none at all when
/// matching the root command fails or asks for help.
pub open spec fn general_captured(before: GeneralSpec, after: GeneralSpec, tokens: Seq<Seq<char>>, r: Result<(), i32>) -> bool {
    let p = before.command.parser;
    &&& after.program == before.program
    &&& same_unit_config(before.command, after.command)
    &&& after.sub_commands.len() == before.sub_commands.len()
    &&& forall|j: int| 0 <= j < before.sub_commands.len() ==> (#[trigger] after.sub_commands[j]).0 == before.sub_commands[j].0
        && same_unit_config(before.sub_commands[j].1, after.sub_commands[j].1)
    &&& match match_outcome(p.matcher, tokens, p.discriminator is Some) {
        MatchOutcome::Matched(m, consumed) => {
            &&& r is Ok ==> captured(p, m, after.command.parser.matched, after.command.parser.given)
            &&& match selected_sub(before, m) {
                Some(k) => {
                    &&& forall|j: int| 0 <= j < before.sub_commands.len() && j != k ==> #[trigger] after.sub_commands[j] == before.sub_commands[j]
                    &&& r is Ok ==> match match_outcome(before.sub_commands[k].1.parser.matcher, tokens.skip(consumed as int), false) {
                        MatchOutcome::Matched(ms, _) => captured(before.sub_commands[k].1.parser, ms, after.sub_commands[k].1.parser.matched, after.sub_commands[k].1.parser.given),
                        _ => false,
                    }
                },
                None => after.sub_commands == before.sub_commands,
            }
        },
        _ => after.command.parser.matched == p.matched && after.command.parser.given == p.given
            && after.sub_commands == before.sub_commands,
    }
}

/// The sub-command that the root command's matches select, if any.
pub open spec fn selected_sub(g: GeneralSpec, m: Seq<TokensSpec>) -> Option<int> {
    match g.command.parser.discriminator {
        Some(t) => match discriminee_from(m, t, 0) {
            Some(d) => sub_command_index(g.sub_commands, d.1, 0),
            None => None,
        },
        None => None,
    }
}

/// Whether some token cannot be taken at all (see `Step::Aborts`): by the root command, or by
/// the sub-command that the root's matches select.
pub open spec fn parse_aborts(g: GeneralSpec, tokens: Seq<Seq<char>>) -> bool {
    let p = g.command.parser;
    match match_outcome(p.matcher, tokens, p.discriminator is Some) {
        MatchOutcome::Aborted => true,
        MatchOutcome::Matched(m, consumed) => match p.discriminator {
            Some(t) => match discriminee_from(m, t, 0) {
                Some(d) => match sub_command_index(g.sub_commands, d.1, 0) {
                    Some(k) => match_outcome(g.sub_commands[k].1.parser.matcher, tokens.skip(consumed as int), false) is Aborted,
                    None => false,
                },
                None => false,
            },
            None => false,
        },
        _ => false,
    }
}

/// The configured command line parser.
pub struct GeneralParser<'a> {
    program: String,
    command: ParseUnit<'a>,
    sub_commands: Vec<(String, ParseUnit<'a>)>,
    user_interface: Box<dyn UserInterface>,
}

/// The abstract value of sub-command units.
pub open spec fn units_view<'a>(v: Seq<(String, ParseUnit<'a>)>) -> Seq<(Seq<char>, UnitSpec)> {
    v.map_values(|p: (String, ParseUnit<'a>)| (p.0@, p.1@))
}

impl<'a> View for GeneralParser<'a> {
    type V = GeneralSpec;

    closed spec fn view(&self) -> GeneralSpec {
        GeneralSpec { program: self.program@, command: self.command@, sub_commands: units_view(self.sub_commands@) }
    }
}

proof fn lemma_total_bytes_skip(t: Seq<Seq<char>>, k: int)
    requires
        0 <= k <= t.len(),
    ensures
        total_bytes(t.skip(k)) <= total_bytes(t),
    decreases t.len(),
{
    if k < t.len() {
        assert(t.skip(k).drop_last() =~= t.drop_last().skip(k));
        lemma_total_bytes_skip(t.drop_last(), k);
    } else {
        assert(t.skip(k) =~= Seq::<Seq<char>>::empty());
    }
}

impl<'a> GeneralParser<'a> {
    /// The parser's invariant: every unit is ready, and no sub-command has a discriminator.
    pub closed spec fn wf(&self) -> bool {
        &&& self.command.wf()
        &&& forall|i: int| 0 <= i < self.sub_commands@.len() ==> #[trigger] self.sub_commands@[i].1.wf()
        &&& forall|i: int| 0 <= i < self.sub_commands@.len() ==> (#[trigger] self.sub_commands@[i]).1@.parser.discriminator is None
    }

    /// A command line parser of one command.
    pub fn command(program: String, command: ParseUnit<'a>, user_interface: Box<dyn UserInterface>) -> (r: Self)
        requires
            command.wf(),
        ensures
            r.wf(),
            r@ == (GeneralSpec { program: program@, command: command@, sub_commands: Seq::empty() }),
    {
        let r = GeneralParser { program, command, sub_commands: Vec::new(), user_interface };
        assert(units_view(r.sub_commands@) =~= Seq::empty());
        r
    }

    /// A command line parser of a root command and its sub-commands.
    pub fn sub_command(program: String, command: ParseUnit<'a>, sub_commands: Vec<(String, ParseUnit<'a>)>, user_interface: Box<dyn UserInterface>) -> (r: Self)
        requires
            command.wf(),
            forall|i: int| 0 <= i < sub_commands@.len() ==> #[trigger] sub_commands@[i].1.wf(),
            forall|i: int| 0 <= i < sub_commands@.len() ==> (#[trigger] sub_commands@[i]).1@.parser.discriminator is None,
        ensures
            r.wf(),
            r@ == (GeneralSpec { program: program@, command: command@, sub_commands: units_view(sub_commands@) }),
    {
        GeneralParser { program, command, sub_commands, user_interface }
    }

    /// Run the parsers of the command line parser against the tokens: the exit status, and what
    /// to show the user. The root command's fields, then those of the selected sub-command, are
    /// handed their matches (see `general_captured`).
    #[verifier::rlimit(40)]
    pub fn outcome(&mut self, tokens: &[&str]) -> (r: (Result<(), i32>, Shown))
        requires
            old(self).wf(),
            total_bytes(slices_view(tokens@)) + tokens@.len() <= usize::MAX,
            !parse_aborts(old(self)@, slices_view(tokens@)),
        ensures
            final(self).wf(),
            status_agrees(old(self)@, slices_view(tokens@), r.0),
            general_shown_agrees(old(self)@, slices_view(tokens@), r.0, r.1),
            general_captured(old(self)@, final(self)@, slices_view(tokens@), r.0),
    {
        let ghost g = self@;
        let ghost toks = slices_view(tokens@);
        let (command_result, command_shown) = self.command.run(tokens, self.program.as_str());
        assert(units_view(self.sub_commands@) == g.sub_commands);
        match command_result {
            ParseResult::Complete => {
                assert(general_shown_agrees(g, toks, Ok(()), command_shown));
                assert(general_captured(g, self@, toks, Ok(())));
                (Ok(()), command_shown)
            },
            ParseResult::Exit(code) => {
                assert(general_shown_agrees(g, toks, Err(code), command_shown));
                assert(general_captured(g, self@, toks, Err(code)));
                (Err(code), command_shown)
            },
            ParseResult::Incomplete { name, variant_offset, variant, remaining } => {
                let ghost subs = units_view(self.sub_commands@);
                let mut k: usize = 0;
                let mut found: Option<usize> = None;
                while k < self.sub_commands.len()
                    invariant
                        k <= self.sub_commands@.len(),
                        subs == units_view(self.sub_commands@),
                        match found {
                            Some(x) => x < self.sub_commands@.len() && sub_command_index(subs, variant@, 0) == Some(x as int),
                            None => sub_command_index(subs, variant@, 0) == sub_command_index(subs, variant@, k as int),
                        },
                    decreases self.sub_commands.len() - k,
                {
                    if found.is_none() {
                        assert(subs[k as int].0 == self.sub_commands@[k as int].0@);
                        if crate::text::chars_equal(&crate::text::chars_of(self.sub_commands[k].0.as_str()), &crate::text::chars_of(variant.as_str())) {
                            found = Some(k);
                        }
                    }
                    k = k + 1;
                }
                match found {
                    Some(index) => {
                        let ghost sv = self.sub_commands@;
                        let mut pair = self.sub_commands.remove(index);
                        assert(pair.1@ == subs[index as int].1);
                        assert(sv[index as int] == pair);
                        let mut refs: Vec<&str> = Vec::new();
                        let mut j: usize = 0;
                        while j < remaining.len()
                            invariant
                                j <= remaining@.len(),
                                slices_view(refs@) == strings_view(remaining@).take(j as int),
                            decreases remaining.len() - j,
                        {
                            let ghost before = slices_view(refs@);
                            refs.push(remaining[j].as_str());
                            assert(slices_view(refs@) =~= before.push(strings_view(remaining@)[j as int]));
                            assert(strings_view(remaining@).take(j + 1) =~= strings_view(remaining@).take(j as int).push(strings_view(remaining@)[j as int]));
                            j = j + 1;
                        }
                        assert(strings_view(remaining@).take(j as int) =~= strings_view(remaining@));
                        let mut sub_program = crate::text::chars_of(self.program.as_str());
                        sub_program.push(' ');
                        crate::text::append_str(&mut sub_program, variant.as_str());
                        let sub_program_text = crate::text::string_of(&sub_program);
                        proof {
                            let consumed = match match_outcome(g.command.parser.matcher, toks, g.command.parser.discriminator is Some) {
                                MatchOutcome::Matched(_, c) => c,
                                _ => 0,
                            };
                            crate::parser::lemma_feed_consumed(g.command.parser.matcher, toks, g.command.parser.discriminator is Some, 0);
                            lemma_total_bytes_skip(toks, consumed as int);
                        }
                        let slice = refs.as_slice();
                        assert(sub_program_text@ == g.program + seq![' '] + variant@);
                        let ghost before_pair = pair;
                        let (sub_result, shown) = pair.1.run(slice, sub_program_text.as_str());
                        let ghost after_pair = pair;
                        self.sub_commands.insert(index, pair);
                        proof {
                            crate::parser::lemma_remove_insert(sv, index as int, after_pair);
                            assert(units_view(self.sub_commands@) =~= subs.update(index as int, (after_pair.0@, after_pair.1@)));
                        }
                        match sub_result {
                            ParseResult::Complete => {
                                assert(general_shown_agrees(g, toks, Ok(()), shown));
                                assert(general_captured(g, self@, toks, Ok(())));
                                (Ok(()), shown)
                            },
                            ParseResult::Exit(code) => {
                                assert(general_shown_agrees(g, toks, Err(code), shown));
                                assert(general_captured(g, self@, toks, Err(code)));
                                (Err(code), shown)
                            },
                            ParseResult::Incomplete { .. } => {
                                assert(false);
                                (Err(1), shown)
                            },
                        }
                    },
                    None => {
                        let mut message = crate::text::chars_of("Unknown sub-command '");
                        crate::text::append_str(&mut message, variant.as_str());
                        crate::text::append_str(&mut message, "' for parameter '");
                        crate::text::append_str(&mut message, name.as_str());
                        crate::text::append_str(&mut message, "'.");
                        let error = ParseError::new(crate::text::string_of(&message));
                        let context = ErrorContext::new(variant_offset, tokens);
                        assert(error@ == unknown_message(variant@, name@));
                        let shown = Shown::Error(error, context);
                        assert(general_shown_agrees(g, toks, Err(1), shown));
                        assert(general_captured(g, self@, toks, Err(1)));
                        (Err(1), shown)
                    },
                }
            },
        }
    }

    /// Run the command line parser against the tokens, and show the user what `outcome` gives.
    ///
    /// Tokens are first matched to arguments and options, then each matched value is captured
    /// into its variable. An error ends parsing with `Err(1)`; the help option prints the help
    /// message and ends parsing with `Err(0)`. With sub-commands, the root command is parsed up to
    /// its discriminator, and the selected sub-command parses the remaining tokens.
    pub fn parse_tokens(self, tokens: &[&str]) -> (r: Result<(), i32>)
        requires
            self.wf(),
            total_bytes(slices_view(tokens@)) + tokens@.len() <= usize::MAX,
            !parse_aborts(self@, slices_view(tokens@)),
        ensures
            status_agrees(self@, slices_view(tokens@), r),
    {
        let mut parser = self;
        let (status, shown) = parser.outcome(tokens);
        show(shown, &*parser.user_interface);
        status
    }
}

impl<'a> ParseUnit<'a> {
    /// Whether some token could not be taken at all, which `invoke` must not be given.
    pub fn aborts_on(&self, tokens: &[&str]) -> (r: bool)
        requires
            self.wf(),
            total_bytes(slices_view(tokens@)) + tokens@.len() <= usize::MAX,
        ensures
            r == (match_outcome(self@.parser.matcher, slices_view(tokens@), self@.parser.discriminator is Some) is Aborted),
    {
        self.parser.outcome_of(tokens).0
    }
}

impl<'a> GeneralParser<'a> {
    /// Whether some token could not be taken at all (`parse_aborts`), which `parse_tokens` must
    /// not be given: worked out on copies of the matchers, capturing nothing.
    pub fn aborts_on(&self, tokens: &[&str]) -> (r: bool)
        requires
            self.wf(),
            total_bytes(slices_view(tokens@)) + tokens@.len() <= usize::MAX,
        ensures
            r == parse_aborts(self@, slices_view(tokens@)),
    {
        let ghost g = self@;
        let ghost toks = slices_view(tokens@);
        let (aborted, matched) = self.command.parser.outcome_of(tokens);
        if aborted {
            return true;
        }
        let (matches, consumed) = match matched {
            Some(x) => x,
            None => {
                return false;
            },
        };
        let ghost m = matches@;
        let target = match self.command.parser.discriminator() {
            Some(t) => t,
            None => {
                return false;
            },
        };
        let ghost t = target@;
        let mut q: usize = 0;
        let mut variant: Option<&String> = None;
        while q < matches.values.len()
            invariant
                q <= matches.values@.len(),
                m == matches@,
                t == target@,
                match variant {
                    Some(v) => discriminee_from(m, t, 0) matches Some(d) && d.1 == v@,
                    None => discriminee_from(m, t, 0) == discriminee_from(m, t, q as int),
                },
            decreases matches.values.len() - q,
        {
            if variant.is_none() {
                let mt = &matches.values[q];
                assert(m[q as int] == mt@);
                if mt.values.len() > 0 && crate::text::chars_equal(&crate::text::chars_of(mt.name.as_str()), &crate::text::chars_of(target.as_str())) {
                    assert(mt@.values[0].1 == mt.values@[0].1@);
                    variant = Some(&mt.values[0].1);
                }
            }
            q = q + 1;
        }
        let variant = match variant {
            Some(v) => v,
            None => {
                return false;
            },
        };
        let ghost subs = units_view(self.sub_commands@);
        let mut k: usize = 0;
        let mut found: Option<usize> = None;
        while k < self.sub_commands.len()
            invariant
                k <= self.sub_commands@.len(),
                subs == units_view(self.sub_commands@),
                match found {
                    Some(x) => x < self.sub_commands@.len() && sub_command_index(subs, variant@, 0) == Some(x as int),
                    None => sub_command_index(subs, variant@, 0) == sub_command_index(subs, variant@, k as int),
                },
            decreases self.sub_commands.len() - k,
        {
            if found.is_none() {
                assert(subs[k as int].0 == self.sub_commands@[k as int].0@);
                if crate::text::chars_equal(&crate::text::chars_of(self.sub_commands[k].0.as_str()), &crate::text::chars_of(variant.as_str())) {
                    found = Some(k);
                }
            }
            k = k + 1;
        }
        let index = match found {
            Some(x) => x,
            None => {
                return false;
            },
        };
        let mut rest: Vec<&str> = Vec::new();
        let mut j: usize = consumed;
        proof {
            crate::parser::lemma_feed_consumed(g.command.parser.matcher, toks, g.command.parser.discriminator is Some, 0);
        }
        while j < tokens.len()
            invariant
                consumed <= j <= tokens@.len(),
                toks == slices_view(tokens@),
                slices_view(rest@) == toks.subrange(consumed as int, j as int),
            decreases tokens.len() - j,
        {
            let ghost before = slices_view(rest@);
            rest.push(tokens[j]);
            assert(slices_view(rest@) =~= before.push(toks[j as int]));
            assert(toks.subrange(consumed as int, j + 1) =~= toks.subrange(consumed as int, j as int).push(toks[j as int]));
            j = j + 1;
        }
        assert(toks.subrange(consumed as int, j as int) =~= toks.skip(consumed as int));
        proof {
            lemma_total_bytes_skip(toks, consumed as int);
        }
        let sub = &self.sub_commands[index].1;
        assert(self.sub_commands@[index as int].1.wf());
        assert(sub@ == subs[index as int].1);
        let (sub_aborted, _) = sub.parser.outcome_of(rest.as_slice());
        sub_aborted
    }
}

} // verus!
