//! The builders: a command line parser, its sub-commands, and the built parser.
use vstd::prelude::*;
use std::marker::PhantomData;
use crate::capture::FromToken;
use crate::capture::ToToken;
use crate::field::AnonymousCapturable;
use crate::field::FieldSpec;
use crate::field::capture_state;
use crate::interface::ConsoleInterface;
use crate::interface::UserInterface;
use crate::matcher::api::ArgumentConfig;
use crate::matcher::api::ArgumentSpec;
use crate::matcher::api::OptionConfig;
use crate::matcher::api::OptionSpec;
use crate::matcher::api::spec_bound_of;
use crate::middleware::GeneralParser;
use crate::middleware::ParseUnit;
use crate::parameter::Condition;
use crate::parameter::Parameter;
use crate::parameter::ParameterClass;
use crate::parameter::argument_doc;
use crate::parameter::option_doc;
use crate::parser::ConfigError;
use crate::parser::Parser;
use crate::parser::argument_capture_specs;
use crate::parser::capture_fields;
use crate::parser::captures_into;
use crate::parser::option_capture_specs;
use crate::parser::config_fails;
use crate::parser::config_yields;
use crate::parser::parser_config;
use crate::printer::ArgumentInfo;
use crate::printer::ArgumentParameter;
use crate::printer::OptionInfo;
use crate::printer::OptionParameter;
use crate::printer::Printer;
use crate::printer::argument_infos;
use crate::printer::option_infos;
use crate::printer::sort_options;

verus! {

/// The abstract value of a command line parser under construction.
pub struct CommandSpec {
    pub program: Seq<char>,
    pub option_configs: Seq<OptionSpec>,
    pub argument_configs: Seq<ArgumentSpec>,
    pub option_docs: Seq<OptionInfo>,
    pub argument_docs: Seq<ArgumentInfo>,
    /// The fields the options capture into, in the order of their configurations.
    pub option_fields: Seq<FieldSpec>,
    /// The fields the arguments capture into, in the order of their configurations.
    pub argument_fields: Seq<FieldSpec>,
}

/// The base command line parser.
pub struct CommandLineParser<'a> {
    program: String,
    option_parameters: Vec<OptionParameter>,
    argument_parameters: Vec<ArgumentParameter>,
    option_captures: Vec<(OptionConfig, Box<dyn AnonymousCapturable + 'a>)>,
    argument_captures: Vec<(ArgumentConfig, Box<dyn AnonymousCapturable + 'a>)>,
}

impl<'a> View for CommandLineParser<'a> {
    type V = CommandSpec;

    closed spec fn view(&self) -> CommandSpec {
        CommandSpec {
            program: self.program@,
            option_configs: option_capture_specs(self.option_captures@),
            argument_configs: argument_capture_specs(self.argument_captures@),
            option_docs: option_infos(self.option_parameters@),
            argument_docs: argument_infos(self.argument_parameters@),
            option_fields: capture_fields(self.option_captures@),
            argument_fields: capture_fields(self.argument_captures@),
        }
    }
}

/// Each parameter is documented under the name it is configured with, in the same order.
pub open spec fn docs_agree(c: CommandSpec) -> bool {
    &&& c.option_docs.len() == c.option_configs.len()
    &&& c.argument_docs.len() == c.argument_configs.len()
    &&& forall|i: int| 0 <= i < c.option_docs.len() ==> #[trigger] c.option_docs[i].name == c.option_configs[i].name
    &&& forall|i: int| 0 <= i < c.argument_docs.len() ==> #[trigger] c.argument_docs[i].name == c.argument_configs[i].name
}

proof fn lemma_duplicate_from_none(names: Seq<Seq<char>>, i: int)
    requires
        0 <= i,
        crate::parser::duplicate_from(names, i) is None,
    ensures
        forall|j: int, k: int| i <= j < names.len() && 0 <= k < j ==> names[k] != names[j],
    decreases names.len() - i,
{
    if i < names.len() {
        lemma_duplicate_from_none(names, i + 1);
    }
}

/// A command whose parameter names are configured without repeats documents each name once.
proof fn lemma_documented_distinct(c: CommandSpec, w: Option<usize>)
    requires
        docs_agree(c),
        parser_config(c.option_configs, c.argument_configs) is Ok,
    ensures
        crate::printer::names_distinct(crate::printer::PrinterSpec {
            options: sort_options(c.option_docs),
            arguments: c.argument_docs,
            terminal_width: w,
        }),
{
    let names = crate::parser::parameter_names(c.option_configs, c.argument_configs);
    lemma_duplicate_from_none(names, 0);
    let n = c.option_configs.len();
    let dn = c.option_docs.map_values(|o: OptionInfo| o.name);
    assert forall|a: int, b: int| 0 <= a < b < dn.len() implies dn[a] != dn[b] by {
        assert(dn[a] == names[a] && dn[b] == names[b]);
    }
    crate::printer::lemma_sort_options_members(c.option_docs);
    let sorted = sort_options(c.option_docs);
    let p = crate::printer::PrinterSpec { options: sorted, arguments: c.argument_docs, terminal_width: w };
    let all = crate::printer::documented_names(p);
    let sn = sorted.map_values(|o: OptionInfo| o.name);
    let an = c.argument_docs.map_values(|a: ArgumentInfo| a.name);
    assert(all =~= sn + an);
    assert forall|a: int, b: int| 0 <= a < b < all.len() implies all[a] != all[b] by {
        if b < sn.len() {
            assert(all[a] == sn[a] && all[b] == sn[b]);
        } else if a >= sn.len() {
            let x = a - sn.len();
            let y = b - sn.len();
            assert(all[a] == an[x] && all[b] == an[y]);
            assert(an[x] == names[n + x] && an[y] == names[n + y]);
        } else {
            let y = b - sn.len();
            assert(all[a] == sorted[a].name);
            assert(c.option_docs.contains(sorted[a]));
            let i = choose|i: int| 0 <= i < c.option_docs.len() && c.option_docs[i] == sorted[a];
            assert(sorted[a].name == names[i]);
            assert(all[b] == an[y] && an[y] == names[n + y]);
        }
    }
}

impl CommandSpec {
    /// The command with one more parameter: an option is documented and configured among the
    /// options, an argument last among the arguments.
    pub open spec fn added(self, p: crate::parameter::ParameterSpec) -> CommandSpec {
        match p.class {
            ParameterClass::Opt => CommandSpec {
                option_configs: self.option_configs.push(OptionSpec { name: p.name, short: p.short, bound: spec_bound_of(p.nargs) }),
                option_docs: self.option_docs.push(option_doc(p)),
                option_fields: self.option_fields.push(p.field),
                ..self
            },
            ParameterClass::Arg => CommandSpec {
                argument_configs: self.argument_configs.push(ArgumentSpec { name: p.name, bound: spec_bound_of(p.nargs) }),
                argument_docs: self.argument_docs.push(argument_doc(p)),
                argument_fields: self.argument_fields.push(p.field),
                ..self
            },
        }
    }
}

impl<'a> CommandLineParser<'a> {
    /// The parser's invariant: its documentation follows its configuration.
    #[verifier::type_invariant]
    closed spec fn documented_as_configured(self) -> bool {
        docs_agree(self@)
    }

    /// Create a command line parser.
    pub fn new(program: &str) -> (r: Self)
        ensures
            r@ == (CommandSpec {
                program: program@,
                option_configs: Seq::empty(),
                argument_configs: Seq::empty(),
                option_docs: Seq::empty(),
                argument_docs: Seq::empty(),
                option_fields: Seq::empty(),
                argument_fields: Seq::empty(),
            }),
    {
        let r = CommandLineParser {
            program: program.to_owned(),
            option_parameters: Vec::new(),
            argument_parameters: Vec::new(),
            option_captures: Vec::new(),
            argument_captures: Vec::new(),
        };
        assert(r@.option_configs =~= Seq::empty());
        assert(r@.argument_configs =~= Seq::empty());
        assert(r@.option_docs =~= Seq::empty());
        assert(r@.argument_docs =~= Seq::empty());
        assert(r@.option_fields =~= Seq::empty());
        assert(r@.argument_fields =~= Seq::empty());
        r
    }

    /// Add an argument/option to the command line parser.
    ///
    /// The order of argument parameters is their positional order during parsing; the order of
    /// option parameters does not matter.
    pub fn add<T: 'a>(self, parameter: Parameter<'a, T>) -> (r: Self)
        ensures
            r@ == self@.added(parameter@),
    {
        proof {
            use_type_invariant(&self);
        }
        let CommandLineParser { program, mut option_parameters, mut argument_parameters, mut option_captures, mut argument_captures } = self;
        let inner = parameter.consume();
        match inner.class() {
            ParameterClass::Opt => {
                let ghost docs = option_infos(option_parameters@);
                let ghost configs = option_capture_specs(option_captures@);
                let doc = inner.option_parameter();
                let ghost dv = doc@;
                option_parameters.push(doc);
                assert(option_infos(option_parameters@) =~= docs.push(dv));
                let ghost fields = capture_fields(option_captures@);
                let ghost pv = inner@;
                let capture = inner.into_option_capture();
                let ghost cv = capture.0@;
                let ghost fv = capture_state(capture);
                option_captures.push(capture);
                assert(option_capture_specs(option_captures@) =~= configs.push(cv));
                assert(capture_fields(option_captures@) =~= fields.push(fv));
            },
            ParameterClass::Arg => {
                let ghost docs = argument_infos(argument_parameters@);
                let ghost configs = argument_capture_specs(argument_captures@);
                let doc = inner.argument_parameter();
                let ghost dv = doc@;
                argument_parameters.push(doc);
                assert(argument_infos(argument_parameters@) =~= docs.push(dv));
                let ghost fields = capture_fields(argument_captures@);
                let ghost pv = inner@;
                let capture = inner.into_argument_capture();
                let ghost cv = capture.0@;
                let ghost fv = capture_state(capture);
                argument_captures.push(capture);
                assert(argument_capture_specs(argument_captures@) =~= configs.push(cv));
                assert(capture_fields(argument_captures@) =~= fields.push(fv));
            },
        }
        CommandLineParser { program, option_parameters, argument_parameters, option_captures, argument_captures }
    }

    /// Branch into a sub-command parser: the condition is added as this parser's last argument,
    /// and its value selects the sub-command that parses the remaining tokens.
    pub fn branch<T: FromToken + ToToken + 'a>(self, condition: Condition<'a, T>) -> (r: SubCommandParser<'a, T>)
        ensures
            r@.root == self@.added(condition@),
            r@.root.program == self@.program,
            r@.root.option_configs == self@.option_configs,
            r@.root.argument_configs == self@.argument_configs.push(ArgumentSpec {
                name: condition@.name,
                bound: spec_bound_of(condition@.nargs),
            }),
            r@.root.argument_fields == self@.argument_fields.push(condition@.field),
            r@.discriminator == condition@.name,
            r@.commands.len() == 0,
    {
        let parameter = condition.consume();
        let name = parameter.name();
        let root = self.add(parameter);
        let r = SubCommandParser { root, discriminator: name, commands: Vec::new(), _phantom: PhantomData };
        assert(r@.commands =~= Seq::empty());
        r
    }

    /// Build the command line parser with the given user interface.
    pub fn build_with_interface(self, user_interface: Box<dyn UserInterface>) -> (r: Result<GeneralParser<'a>, ConfigError>)
        ensures
            match parser_config(self@.option_configs, self@.argument_configs) {
                Ok(m) => r matches Ok(g) && g.wf()
                    && g@.program == self@.program
                    && g@.command.parser.matcher == m
                    && g@.command.parser.discriminator is None
                    && g@.command.printer.options == sort_options(self@.option_docs)
                    && g@.command.printer.arguments == self@.argument_docs
                    && captures_into(g@.command.parser, self@.option_fields + self@.argument_fields)
                    && g@.sub_commands.len() == 0,
                Err(msg) => r matches Err(e) && e@ == msg,
            },
    {
        proof {
            use_type_invariant(&self);
        }
        let ghost spec = self@;
        let CommandLineParser { program, option_parameters, argument_parameters, option_captures, argument_captures } = self;
        let parser = match Parser::new(option_captures, argument_captures, None) {
            Ok(p) => p,
            Err(e) => {
                return Err(e);
            },
        };
        let printer = Printer::terminal(option_parameters, argument_parameters);
        proof {
            lemma_documented_distinct(spec, printer@.terminal_width);
        }
        let command = ParseUnit::new(parser, printer);
        Ok(GeneralParser::command(program, command, user_interface))
    }

    /// Build the command line parser, with the console as its user interface.
    /// This finalizes the configuration and checks for errors (ex: a repeated parameter name).
    pub fn build(self) -> (r: Result<GeneralParser<'a>, ConfigError>)
        ensures
            match parser_config(self@.option_configs, self@.argument_configs) {
                Ok(m) => r matches Ok(g) && g.wf()
                    && g@.program == self@.program
                    && g@.command.parser.matcher == m
                    && g@.command.parser.discriminator is None
                    && g@.command.printer.options == sort_options(self@.option_docs)
                    && g@.command.printer.arguments == self@.argument_docs
                    && captures_into(g@.command.parser, self@.option_fields + self@.argument_fields)
                    && g@.sub_commands.len() == 0,
                Err(msg) => r matches Err(e) && e@ == msg,
            },
    {
        self.build_with_interface(Box::new(ConsoleInterface {}))
    }
}

/// Another name for the command line parser.
pub type CommandParser<'a> = CommandLineParser<'a>;

/// The abstract value of a sub-command parser under construction.
pub struct SubCommandSpec {
    pub root: CommandSpec,
    pub discriminator: Seq<char>,
    pub commands: Seq<(Seq<char>, CommandSpec)>,
}

/// The sub-command parser.
pub struct SubCommandParser<'a, B> {
    root: CommandLineParser<'a>,
    discriminator: String,
    commands: Vec<(String, CommandLineParser<'a>)>,
    _phantom: PhantomData<B>,
}

/// The abstract value of sub-command builders.
pub open spec fn commands_view<'a>(v: Seq<(String, CommandLineParser<'a>)>) -> Seq<(Seq<char>, CommandSpec)> {
    v.map_values(|p: (String, CommandLineParser<'a>)| (p.0@, p.1@))
}

impl<'a, B> View for SubCommandParser<'a, B> {
    type V = SubCommandSpec;

    closed spec fn view(&self) -> SubCommandSpec {
        SubCommandSpec { root: self.root@, discriminator: self.discriminator@, commands: commands_view(self.commands@) }
    }
}

/// The first `n` sub-commands are each configured without error.
pub open spec fn commands_configured(cs: Seq<(Seq<char>, CommandSpec)>, n: int) -> bool {
    forall|j: int| 0 <= j < n ==> parser_config(#[trigger] cs[j].1.option_configs, cs[j].1.argument_configs) is Ok
}

/// The position of the sub-command named `name`, from `i` on.
pub open spec fn command_index(cs: Seq<(Seq<char>, CommandSpec)>, name: Seq<char>, i: int) -> Option<int>
    decreases cs.len() - i,
{
    if i < 0 || i >= cs.len() {
        None
    } else if cs[i].0 == name {
        Some(i)
    } else {
        command_index(cs, name, i + 1)
    }
}

/// A command named `program` with no parameters.
pub open spec fn empty_command(program: Seq<char>) -> CommandSpec {
    CommandSpec {
        program,
        option_configs: Seq::empty(),
        argument_configs: Seq::empty(),
        option_docs: Seq::empty(),
        argument_docs: Seq::empty(),
        option_fields: Seq::empty(),
        argument_fields: Seq::empty(),
    }
}

/// Adding the parameter `p` to the sub-command `name`: to the one set up already, or to a new
/// sub-command of that name, which comes last.
pub open spec fn commands_added(cs: Seq<(Seq<char>, CommandSpec)>, name: Seq<char>, p: crate::parameter::ParameterSpec) -> Seq<(Seq<char>, CommandSpec)> {
    match command_index(cs, name, 0) {
        Some(k) => cs.update(k, (name, cs[k].1.added(p))),
        None => cs.push((name, empty_command(name).added(p))),
    }
}

/// Setting up the sub-command `name`: it replaces an earlier one of the same name, or comes last.
pub open spec fn commands_set(cs: Seq<(Seq<char>, CommandSpec)>, name: Seq<char>, c: CommandSpec) -> Seq<(Seq<char>, CommandSpec)> {
    match command_index(cs, name, 0) {
        Some(k) => cs.update(k, (name, c)),
        None => cs.push((name, c)),
    }
}

impl<'a, B: ToToken> SubCommandParser<'a, B> {
    /// Set up the sub-command selected by `variant`; the setup function adds its parameters.
    /// Setting up the same variant again replaces the earlier sub-command.
    pub fn command<F: FnOnce(SubCommand<'a>) -> SubCommand<'a>>(self, variant: B, setup_fn: F) -> (r: Self)
        requires
            forall|s: SubCommand<'a>| setup_fn.requires((s,)),
        ensures
            r@.root == self@.root,
            r@.discriminator == self@.discriminator,
            exists|given: SubCommand<'a>, made: SubCommand<'a>| {
                &&& given@ == empty_command(variant.token_text())
                &&& setup_fn.ensures((given,), made)
                &&& r@.commands == commands_set(self@.commands, variant.token_text(), made@)
            },
    {
        let ghost spec = self@;
        let SubCommandParser { root, discriminator, mut commands, _phantom } = self;
        let command_str = variant.to_token();
        let inner = CommandLineParser::new(command_str.as_str());
        let given = SubCommand { inner };
        let ghost given_value = given;
        let sub_command = setup_fn(given);
        let ghost made_value = sub_command;
        let configured = sub_command.into_inner();
        let ghost cv = commands_view(commands@);
        let ghost name = command_str@;
        let mut k: usize = 0;
        let mut found: Option<usize> = None;
        while k < commands.len()
            invariant
                k <= commands@.len(),
                cv == commands_view(commands@),
                name == command_str@,
                match found {
                    Some(x) => x < commands@.len() && command_index(cv, name, 0) == Some(x as int),
                    None => command_index(cv, name, 0) == command_index(cv, name, k as int),
                },
            decreases commands.len() - k,
        {
            if found.is_none() {
                assert(cv[k as int].0 == commands@[k as int].0@);
                if crate::text::chars_equal(&crate::text::chars_of(commands[k].0.as_str()), &crate::text::chars_of(command_str.as_str())) {
                    found = Some(k);
                }
            }
            k = k + 1;
        }
        let ghost c = configured@;
        match found {
            Some(index) => {
                commands.set(index, (command_str, configured));
                assert(commands_view(commands@) =~= cv.update(index as int, (name, c)));
            },
            None => {
                commands.push((command_str, configured));
                assert(commands_view(commands@) =~= cv.push((name, c)));
            },
        }
        assert(cv == spec.commands);
        assert(commands_view(commands@) == commands_set(spec.commands, variant.token_text(), c));
        let r = SubCommandParser { root, discriminator, commands, _phantom };
        assert(r@.commands == commands_set(spec.commands, variant.token_text(), c));
        assert(given_value@ == empty_command(variant.token_text()));
        assert(setup_fn.ensures((given_value,), made_value));
        assert(made_value@ == c);
        r
    }
}

impl<'a, B: ToToken> SubCommandParser<'a, B> {
    /// Add an argument/option to the sub-command selected by `variant`, which is set up first
    /// when there is none of that name yet.
    pub fn add<T: 'a>(self, variant: B, parameter: Parameter<'a, T>) -> (r: Self)
        ensures
            r@.root == self@.root,
            r@.discriminator == self@.discriminator,
            r@.commands == commands_added(self@.commands, variant.token_text(), parameter@),
    {
        let ghost spec = self@;
        let ghost pv = parameter@;
        let SubCommandParser { root, discriminator, mut commands, _phantom } = self;
        let command_str = variant.to_token();
        let ghost cv = commands_view(commands@);
        let ghost name = command_str@;
        let mut k: usize = 0;
        let mut found: Option<usize> = None;
        while k < commands.len()
            invariant
                k <= commands@.len(),
                cv == commands_view(commands@),
                name == command_str@,
                match found {
                    Some(x) => x < commands@.len() && command_index(cv, name, 0) == Some(x as int),
                    None => command_index(cv, name, 0) == command_index(cv, name, k as int),
                },
            decreases commands.len() - k,
        {
            if found.is_none() {
                assert(cv[k as int].0 == commands@[k as int].0@);
                if crate::text::chars_equal(&crate::text::chars_of(commands[k].0.as_str()), &crate::text::chars_of(command_str.as_str())) {
                    found = Some(k);
                }
            }
            k = k + 1;
        }
        match found {
            Some(index) => {
                let (existing, cp) = commands.remove(index);
                assert(cv[index as int] == (existing@, cp@));
                proof {
                    crate::builder::lemma_command_index_found(cv, name, 0);
                }
                let added = cp.add(parameter);
                let ghost av = added@;
                commands.insert(index, (existing, added));
                assert(commands_view(commands@) =~= cv.update(index as int, (name, cv[index as int].1.added(pv))));
            },
            None => {
                let cp = CommandLineParser::new(command_str.as_str()).add(parameter);
                let ghost c = cp@;
                commands.push((command_str, cp));
                assert(commands_view(commands@) =~= cv.push((name, empty_command(name).added(pv))));
            },
        }
        assert(cv == spec.commands);
        SubCommandParser { root, discriminator, commands, _phantom }
    }
}

/// The position `command_index` finds holds a sub-command of that name.
proof fn lemma_command_index_found(cs: Seq<(Seq<char>, CommandSpec)>, name: Seq<char>, i: int)
    ensures
        command_index(cs, name, i) matches Some(k) ==> 0 <= i <= k < cs.len() && cs[k].0 == name,
    decreases cs.len() - i,
{
    if 0 <= i < cs.len() && cs[i].0 != name {
        lemma_command_index_found(cs, name, i + 1);
    }
}

impl<'a, B> SubCommandParser<'a, B> {
    /// Build the sub-command based parser with the given user interface: each sub-command's
    /// parser, then the root's (whose last argument is the discriminator).
    pub fn build_with_interface(self, user_interface: Box<dyn UserInterface>) -> (r: Result<GeneralParser<'a>, ConfigError>)
        ensures
            r is Ok ==> {
                &&& forall|i: int| 0 <= i < self@.commands.len() ==> parser_config(#[trigger] self@.commands[i].1.option_configs, self@.commands[i].1.argument_configs) is Ok
                &&& parser_config(self@.root.option_configs, self@.root.argument_configs) is Ok
            },
            r matches Ok(g) ==> {
                &&& g.wf()
                &&& g@.program == self@.root.program
                &&& g@.command.parser.discriminator == Some(self@.discriminator)
                &&& config_yields(self@.root.option_configs, self@.root.argument_configs, g@.command.parser.matcher)
                &&& g@.command.printer.options == sort_options(self@.root.option_docs)
                &&& g@.command.printer.arguments == self@.root.argument_docs
                &&& captures_into(g@.command.parser, self@.root.option_fields + self@.root.argument_fields)
                &&& g@.sub_commands.len() == self@.commands.len()
                &&& forall|i: int| 0 <= i < self@.commands.len() ==> {
                    &&& (#[trigger] g@.sub_commands[i]).0 == self@.commands[i].0
                    &&& config_yields(self@.commands[i].1.option_configs, self@.commands[i].1.argument_configs, g@.sub_commands[i].1.parser.matcher)
                    &&& captures_into(g@.sub_commands[i].1.parser, self@.commands[i].1.option_fields + self@.commands[i].1.argument_fields)
                    &&& g@.sub_commands[i].1.parser.discriminator is None
                    &&& g@.sub_commands[i].1.printer.options == sort_options(self@.commands[i].1.option_docs)
                    &&& g@.sub_commands[i].1.printer.arguments == self@.commands[i].1.argument_docs
                }
            },
            r matches Err(e) ==> (exists|i: int| 0 <= i < self@.commands.len()
                && commands_configured(self@.commands, i)
                && config_fails(#[trigger] self@.commands[i].1.option_configs, self@.commands[i].1.argument_configs, e@))
                || (commands_configured(self@.commands, self@.commands.len() as int)
                && config_fails(self@.root.option_configs, self@.root.argument_configs, e@)),
    {
        let ghost spec = self@;
        let SubCommandParser { root, discriminator, commands, _phantom } = self;
        let mut units: Vec<(String, ParseUnit<'a>)> = Vec::new();
        let mut rest = commands;
        let n = rest.len();
        let mut i: usize = 0;
        while i < n
            invariant
                i <= n,
                n == spec.commands.len(),
                spec == self@,
                rest@.len() == n - i,
                commands_view(rest@) == spec.commands.skip(i as int),
                units@.len() == i,
                forall|j: int| 0 <= j < i ==> #[trigger] units@[j].1.wf(),
                forall|j: int| 0 <= j < i ==> (#[trigger] units@[j]).1@.parser.discriminator is None,
                forall|j: int| 0 <= j < i ==> {
                    &&& (#[trigger] units@[j]).0@ == spec.commands[j].0
                    &&& config_yields(spec.commands[j].1.option_configs, spec.commands[j].1.argument_configs, units@[j].1@.parser.matcher)
                    &&& captures_into(units@[j].1@.parser, spec.commands[j].1.option_fields + spec.commands[j].1.argument_fields)
                    &&& units@[j].1@.printer.options == sort_options(spec.commands[j].1.option_docs)
                    &&& units@[j].1@.printer.arguments == spec.commands[j].1.argument_docs
                },
            decreases n - i,
        {
            let ghost rv = rest@;
            let pair = rest.remove(0);
            assert(pair == rv[0]);
            assert(commands_view(rest@) =~= spec.commands.skip(i + 1)) by {
                assert forall|k: int| 0 <= k < rest@.len() implies #[trigger] commands_view(rest@)[k] == spec.commands.skip(i + 1)[k] by {
                    assert(rest@[k] == rv[k + 1]);
                    assert(commands_view(rv)[k + 1] == spec.commands.skip(i as int)[k + 1]);
                }
            }
            assert(commands_view(rv)[0] == spec.commands[i as int]);
            let (name, cp) = pair;
            proof {
                use_type_invariant(&cp);
            }
            let ghost cps = cp@;
            let CommandLineParser { program: _, option_parameters, argument_parameters, option_captures, argument_captures } = cp;
            let parser = match Parser::new(option_captures, argument_captures, None) {
                Ok(p) => p,
                Err(e) => {
                    assert(config_fails(spec.commands[i as int].1.option_configs, spec.commands[i as int].1.argument_configs, e@));
                    assert forall|j: int| 0 <= j < i implies parser_config(#[trigger] spec.commands[j].1.option_configs, spec.commands[j].1.argument_configs) is Ok by {
                        assert(config_yields(spec.commands[j].1.option_configs, spec.commands[j].1.argument_configs, units@[j].1@.parser.matcher));
                    }
                    assert(commands_configured(spec.commands, i as int));
                    return Err(e);
                },
            };
            let printer = Printer::terminal(option_parameters, argument_parameters);
            proof {
                lemma_documented_distinct(cps, printer@.terminal_width);
            }
            let unit = ParseUnit::new(parser, printer);
            let ghost before = units@;
            let ghost entry_name = name@;
            units.push((name, unit));
            assert(units@[i as int].0@ == entry_name);
            i = i + 1;
        }
        proof {
            use_type_invariant(&root);
        }
        let ghost roots = root@;
        let CommandLineParser { program, option_parameters, argument_parameters, option_captures, argument_captures } = root;
        assert forall|j: int| 0 <= j < spec.commands.len() implies parser_config(#[trigger] spec.commands[j].1.option_configs, spec.commands[j].1.argument_configs) is Ok by {
            assert(config_yields(spec.commands[j].1.option_configs, spec.commands[j].1.argument_configs, units@[j].1@.parser.matcher));
        }
        let parser = match Parser::new(option_captures, argument_captures, Some(discriminator)) {
            Ok(p) => p,
            Err(e) => {
                assert(config_fails(spec.root.option_configs, spec.root.argument_configs, e@));
                return Err(e);
            },
        };
        let printer = Printer::terminal(option_parameters, argument_parameters);
        proof {
            lemma_documented_distinct(roots, printer@.terminal_width);
        }
        let command = ParseUnit::new(parser, printer);
        let ghost uv = units@;
        let g = GeneralParser::sub_command(program, command, units, user_interface);
        assert forall|j: int| 0 <= j < spec.commands.len() implies {
            &&& (#[trigger] g@.sub_commands[j]).0 == spec.commands[j].0
            &&& config_yields(spec.commands[j].1.option_configs, spec.commands[j].1.argument_configs, g@.sub_commands[j].1.parser.matcher)
            &&& captures_into(g@.sub_commands[j].1.parser, spec.commands[j].1.option_fields + spec.commands[j].1.argument_fields)
            &&& g@.sub_commands[j].1.parser.discriminator is None
            &&& g@.sub_commands[j].1.printer.options == sort_options(spec.commands[j].1.option_docs)
            &&& g@.sub_commands[j].1.printer.arguments == spec.commands[j].1.argument_docs
        } by {
            assert(g@.sub_commands[j] == (uv[j].0@, uv[j].1@));
        }
        Ok(g)
    }

    /// Build the sub-command based parser, with the console as its user interface.
    /// This finalizes the configuration and checks for errors (ex: a repeated parameter name).
    pub fn build(self) -> (r: Result<GeneralParser<'a>, ConfigError>)
        ensures
            r is Ok ==> {
                &&& forall|i: int| 0 <= i < self@.commands.len() ==> parser_config(#[trigger] self@.commands[i].1.option_configs, self@.commands[i].1.argument_configs) is Ok
                &&& parser_config(self@.root.option_configs, self@.root.argument_configs) is Ok
            },
            r matches Ok(g) ==> {
                &&& g.wf()
                &&& g@.program == self@.root.program
                &&& g@.command.parser.discriminator == Some(self@.discriminator)
                &&& config_yields(self@.root.option_configs, self@.root.argument_configs, g@.command.parser.matcher)
                &&& g@.command.printer.options == sort_options(self@.root.option_docs)
                &&& g@.command.printer.arguments == self@.root.argument_docs
                &&& captures_into(g@.command.parser, self@.root.option_fields + self@.root.argument_fields)
                &&& g@.sub_commands.len() == self@.commands.len()
                &&& forall|i: int| 0 <= i < self@.commands.len() ==> {
                    &&& (#[trigger] g@.sub_commands[i]).0 == self@.commands[i].0
                    &&& config_yields(self@.commands[i].1.option_configs, self@.commands[i].1.argument_configs, g@.sub_commands[i].1.parser.matcher)
                    &&& captures_into(g@.sub_commands[i].1.parser, self@.commands[i].1.option_fields + self@.commands[i].1.argument_fields)
                    &&& g@.sub_commands[i].1.parser.discriminator is None
                    &&& g@.sub_commands[i].1.printer.options == sort_options(self@.commands[i].1.option_docs)
                    &&& g@.sub_commands[i].1.printer.arguments == self@.commands[i].1.argument_docs
                }
            },
            r matches Err(e) ==> (exists|i: int| 0 <= i < self@.commands.len()
                && commands_configured(self@.commands, i)
                && config_fails(#[trigger] self@.commands[i].1.option_configs, self@.commands[i].1.argument_configs, e@))
                || (commands_configured(self@.commands, self@.commands.len() as int)
                && config_fails(self@.root.option_configs, self@.root.argument_configs, e@)),
    {
        self.build_with_interface(Box::new(ConsoleInterface {}))
    }
}

/// A sub-command line parser, set up by `SubCommandParser::command`.
pub struct SubCommand<'a> {
    inner: CommandLineParser<'a>,
}

impl<'a> View for SubCommand<'a> {
    type V = CommandSpec;

    closed spec fn view(&self) -> CommandSpec {
        self.inner@
    }
}

impl<'a> SubCommand<'a> {
    /// A sub-command for use in testing a setup function.
    pub fn test_dummy() -> (r: Self)
        ensures
            r@ == empty_command("test-dummy"@),
    {
        SubCommand { inner: CommandLineParser::new("test-dummy") }
    }

    /// Build a parser of this sub-command alone (for testing a setup function).
    pub fn build(self) -> (r: Result<GeneralParser<'a>, ConfigError>)
        ensures
            match parser_config(self@.option_configs, self@.argument_configs) {
                Ok(m) => r matches Ok(g) && g.wf() && g@.command.parser.matcher == m
                    && g@.program == self@.program
                    && g@.command.parser.discriminator is None
                    && captures_into(g@.command.parser, self@.option_fields + self@.argument_fields)
                    && g@.sub_commands.len() == 0,
                Err(msg) => r matches Err(e) && e@ == msg,
            },
    {
        self.inner.build()
    }

    /// Add an argument/option to the sub-command.
    pub fn add<T: 'a>(self, parameter: Parameter<'a, T>) -> (r: Self)
        ensures
            r@ == self@.added(parameter@),
    {
        SubCommand { inner: self.inner.add(parameter) }
    }

    /// The configured sub-command.
    fn into_inner(self) -> (r: CommandLineParser<'a>)
        ensures
            r@ == self@,
    {
        self.inner
    }
}

} // verus!
