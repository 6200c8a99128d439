//! The help message: a usage summary, then the positional arguments and the options laid out in columns.
use vstd::prelude::*;
use crate::choice::choices_from;
use crate::choice::choices_of;
use crate::choice::choices_view;
use crate::model::Nargs;
use crate::render::ColumnRenderer;
use crate::render::LeftWidth;
use crate::render::MiddleWidth;
use crate::render::PaddingWidth;
use crate::render::RendererSpec;
use crate::render::RightWidth;
use crate::render::fitted_middle_spec;
use crate::render::render_spec;
use crate::render::rights_view;
use crate::render::strings_view;
use crate::render::sum_widths;
use crate::text::chars_less;
use crate::text::seq_lt;
use crate::text::upper_ascii;

verus! {

/// The abstract value of an option as the help message shows it.
pub struct OptionInfo {
    pub name: Seq<char>,
    pub short: Option<char>,
    pub nargs: Nargs,
    pub help: Option<Seq<char>>,
    pub meta: Option<Seq<Seq<char>>>,
    pub choices: Seq<(Seq<char>, Seq<char>)>,
}

/// The abstract value of a positional argument as the help message shows it.
pub struct ArgumentInfo {
    pub name: Seq<char>,
    pub nargs: Nargs,
    pub help: Option<Seq<char>>,
    pub meta: Option<Seq<Seq<char>>>,
    pub choices: Seq<(Seq<char>, Seq<char>)>,
}

/// The abstract value of optional text.
pub open spec fn opt_text(s: Option<String>) -> Option<Seq<char>> {
    match s {
        Some(x) => Some(x@),
        None => None,
    }
}

/// The abstract value of optional meta columns.
pub open spec fn opt_meta(m: Option<Vec<String>>) -> Option<Seq<Seq<char>>> {
    match m {
        Some(x) => Some(strings_view(x@)),
        None => None,
    }
}

/// How an option is documented in the help message.
#[derive(Debug)]
pub struct OptionParameter {
    name: String,
    short: Option<char>,
    nargs: Nargs,
    help: Option<String>,
    meta: Option<Vec<String>>,
    choices: Vec<(String, String)>,
}

impl View for OptionParameter {
    type V = OptionInfo;

    closed spec fn view(&self) -> OptionInfo {
        OptionInfo {
            name: self.name@,
            short: self.short,
            nargs: self.nargs,
            help: opt_text(self.help),
            meta: opt_meta(self.meta),
            choices: choices_view(self.choices@),
        }
    }
}

impl OptionParameter {
    /// An option's documentation; `choices` are (choice, description) pairs, a later description
    /// of a choice replacing an earlier one.
    pub fn new(name: String, short: Option<char>, nargs: Nargs, help: Option<String>, meta: Option<Vec<String>>, choices: Vec<(String, String)>) -> (r: Self)
        ensures
            r@ == (OptionInfo {
                name: name@,
                short,
                nargs,
                help: opt_text(help),
                meta: opt_meta(meta),
                choices: choices_of(choices_view(choices@)),
            }),
    {
        let choices = choices_from(choices);
        OptionParameter { name, short, nargs, help, meta, choices }
    }

    /// The option's name.
    pub fn name(&self) -> (r: &String)
        ensures
            r@ == self@.name,
    {
        &self.name
    }

    /// The option's short name.
    pub fn short(&self) -> (r: Option<char>)
        ensures
            r == self@.short,
    {
        self.short
    }

    /// The option's number of values.
    pub fn nargs(&self) -> (r: Nargs)
        ensures
            r == self@.nargs,
    {
        self.nargs
    }

    /// The option's help message.
    pub fn help(&self) -> (r: &Option<String>)
        ensures
            opt_text(*r) == self@.help,
    {
        &self.help
    }

    /// An option's documentation without choices.
    pub fn basic(name: String, short: Option<char>, nargs: Nargs, help: Option<String>, meta: Option<Vec<String>>) -> (r: Self)
        ensures
            r@ == (OptionInfo {
                name: name@,
                short,
                nargs,
                help: opt_text(help),
                meta: opt_meta(meta),
                choices: Seq::empty(),
            }),
    {
        let r = OptionParameter { name, short, nargs, help, meta, choices: Vec::new() };
        assert(choices_view(r.choices@) =~= Seq::empty());
        r
    }
}

/// How a positional argument is documented in the help message.
#[derive(Debug)]
pub struct ArgumentParameter {
    name: String,
    nargs: Nargs,
    help: Option<String>,
    meta: Option<Vec<String>>,
    choices: Vec<(String, String)>,
}

impl View for ArgumentParameter {
    type V = ArgumentInfo;

    closed spec fn view(&self) -> ArgumentInfo {
        ArgumentInfo {
            name: self.name@,
            nargs: self.nargs,
            help: opt_text(self.help),
            meta: opt_meta(self.meta),
            choices: choices_view(self.choices@),
        }
    }
}

impl ArgumentParameter {
    /// An argument's documentation; `choices` are (choice, description) pairs, a later description
    /// of a choice replacing an earlier one.
    pub fn new(name: String, nargs: Nargs, help: Option<String>, meta: Option<Vec<String>>, choices: Vec<(String, String)>) -> (r: Self)
        ensures
            r@ == (ArgumentInfo {
                name: name@,
                nargs,
                help: opt_text(help),
                meta: opt_meta(meta),
                choices: choices_of(choices_view(choices@)),
            }),
    {
        let choices = choices_from(choices);
        ArgumentParameter { name, nargs, help, meta, choices }
    }

    /// The argument's name.
    pub fn name(&self) -> (r: &String)
        ensures
            r@ == self@.name,
    {
        &self.name
    }

    /// The argument's number of values.
    pub fn nargs(&self) -> (r: Nargs)
        ensures
            r == self@.nargs,
    {
        self.nargs
    }

    /// The argument's help message.
    pub fn help(&self) -> (r: &Option<String>)
        ensures
            opt_text(*r) == self@.help,
    {
        &self.help
    }

    /// An argument's documentation without choices.
    pub fn basic(name: String, nargs: Nargs, help: Option<String>, meta: Option<Vec<String>>) -> (r: Self)
        ensures
            r@ == (ArgumentInfo {
                name: name@,
                nargs,
                help: opt_text(help),
                meta: opt_meta(meta),
                choices: Seq::empty(),
            }),
    {
        let r = ArgumentParameter { name, nargs, help, meta, choices: Vec::new() };
        assert(choices_view(r.choices@) =~= Seq::empty());
        r
    }
}

/// The abstract value of a sequence of option documentations.
pub open spec fn option_infos(v: Seq<OptionParameter>) -> Seq<OptionInfo> {
    v.map_values(|o: OptionParameter| o@)
}

/// The abstract value of a sequence of argument documentations.
pub open spec fn argument_infos(v: Seq<ArgumentParameter>) -> Seq<ArgumentInfo> {
    v.map_values(|a: ArgumentParameter| a@)
}

/// The position, from `i` on, of the first option whose name comes after `name`.
pub open spec fn option_position(s: Seq<OptionInfo>, name: Seq<char>, i: int) -> int
    decreases s.len() - i,
{
    if i < 0 || i >= s.len() {
        s.len() as int
    } else if seq_lt(name, s[i].name) {
        i
    } else {
        option_position(s, name, i + 1)
    }
}

/// The options sorted by name, options of equal names keeping their order (insertion sort).
pub open spec fn sort_options(s: Seq<OptionInfo>) -> Seq<OptionInfo>
    decreases s.len(),
{
    if s.len() == 0 {
        Seq::empty()
    } else {
        let prev = sort_options(s.drop_last());
        prev.insert(option_position(prev, s.last().name, 0), s.last())
    }
}

proof fn lemma_option_position_range(s: Seq<OptionInfo>, name: Seq<char>, i: int)
    requires
        0 <= i <= s.len(),
    ensures
        i <= option_position(s, name, i) <= s.len(),
    decreases s.len() - i,
{
    if i < s.len() && !seq_lt(name, s[i].name) {
        lemma_option_position_range(s, name, i + 1);
    }
}

/// `terminal_size::terminal_size`: the width in columns of the terminal behind standard output,
/// standard error or standard input, when there is one. It depends on the environment, so
/// nothing is stated of it but its range (the crate reports a `u16`).
#[verifier::external_body]
fn terminal_columns() -> (r: Option<usize>)
    ensures
        r matches Some(w) ==> w <= u16::MAX,
{
    match terminal_size::terminal_size() {
        Some((terminal_size::Width(w), _)) => Some(w as usize),
        None => None,
    }
}

/// The abstract state of a printer.
pub struct PrinterSpec {
    pub options: Seq<OptionInfo>,
    pub arguments: Seq<ArgumentInfo>,
    pub terminal_width: Option<usize>,
}

/// Prints the help message of a command.
#[derive(Debug)]
pub struct Printer {
    options: Vec<OptionParameter>,
    arguments: Vec<ArgumentParameter>,
    terminal_width: Option<usize>,
}

impl View for Printer {
    type V = PrinterSpec;

    closed spec fn view(&self) -> PrinterSpec {
        PrinterSpec {
            options: option_infos(self.options@),
            arguments: argument_infos(self.arguments@),
            terminal_width: self.terminal_width,
        }
    }
}

impl Printer {
    /// A printer for the given options (shown sorted by name) and arguments (shown in order),
    /// laid out for a terminal of `terminal_width` columns when it is known.
    pub fn new(options: Vec<OptionParameter>, arguments: Vec<ArgumentParameter>, terminal_width: Option<usize>) -> (r: Self)
        ensures
            r@ == (PrinterSpec {
                options: sort_options(option_infos(options@)),
                arguments: argument_infos(arguments@),
                terminal_width,
            }),
    {
        let ghost all = option_infos(options@);
        let n = options.len();
        let mut rest = options;
        let mut sorted: Vec<OptionParameter> = Vec::new();
        let mut i: usize = 0;
        while i < n
            invariant
                i <= n,
                n == all.len(),
                option_infos(rest@) == all.skip(i as int),
                rest@.len() == n - i,
                option_infos(sorted@) == sort_options(all.take(i as int)),
            decreases n - i,
        {
            let ghost before = option_infos(sorted@);
            let ghost rv = rest@;
            let o = rest.remove(0);
            assert(o@ == option_infos(rv)[0]);
            assert(o@ == all[i as int]);
            assert forall|k: int| 0 <= k < rest@.len() implies #[trigger] option_infos(rest@)[k] == all.skip(i + 1)[k] by {
                assert(rest@[k] == rv[k + 1]);
                assert(option_infos(rv)[k + 1] == all.skip(i as int)[k + 1]);
            }
            assert(option_infos(rest@) =~= all.skip(i + 1));
            let name = crate::text::chars_of(o.name.as_str());
            let mut j: usize = 0;
            proof {
                lemma_option_position_range(before, o@.name, 0);
            }
            while j < sorted.len()
                invariant
                    j <= sorted@.len(),
                    before == option_infos(sorted@),
                    name@ == o@.name,
                    option_position(before, o@.name, 0) == option_position(before, o@.name, j as int),
                ensures
                    j <= sorted@.len(),
                    before == option_infos(sorted@),
                    option_position(before, o@.name, 0) == j as int,
                decreases sorted.len() - j,
            {
                let here = crate::text::chars_of(sorted[j].name.as_str());
                assert(here@ == before[j as int].name);
                if chars_less(&name, &here) {
                    break;
                }
                j = j + 1;
            }
            let ghost ov = o@;
            sorted.insert(j, o);
            assert(all.take(i + 1).drop_last() =~= all.take(i as int));
            assert(option_infos(sorted@) =~= before.insert(j as int, ov));
            i = i + 1;
        }
        assert(all.take(n as int) =~= all);
        let r = Printer { options: sorted, arguments, terminal_width };
        r
    }

    /// A printer for the given options and arguments, laid out for the terminal's width when
    /// there is a terminal.
    pub fn terminal(options: Vec<OptionParameter>, arguments: Vec<ArgumentParameter>) -> (r: Self)
        ensures
            r@.options == sort_options(option_infos(options@)),
            r@.arguments == argument_infos(arguments@),
            r@.terminal_width matches Some(w) ==> w <= u16::MAX,
    {
        let width = terminal_columns();
        Printer::new(options, arguments, width)
    }

    /// The options, in the order they are shown.
    pub fn options(&self) -> (r: &Vec<OptionParameter>)
        ensures
            option_infos(r@) == self@.options,
    {
        &self.options
    }

    /// The arguments, in positional order.
    pub fn arguments(&self) -> (r: &Vec<ArgumentParameter>)
        ensures
            argument_infos(r@) == self@.arguments,
    {
        &self.arguments
    }

    /// A printer with nothing to document and no known terminal width.
    pub fn empty() -> (r: Self)
        ensures
            r@ == (PrinterSpec { options: Seq::empty(), arguments: Seq::empty(), terminal_width: None }),
    {
        let r = Printer { options: Vec::new(), arguments: Vec::new(), terminal_width: None };
        assert(option_infos(r.options@) =~= Seq::empty());
        assert(argument_infos(r.arguments@) =~= Seq::empty());
        r
    }
}

/// The names of the options, then of the arguments.
pub open spec fn documented_names(p: PrinterSpec) -> Seq<Seq<char>> {
    p.options.map_values(|o: OptionInfo| o.name) + p.arguments.map_values(|a: ArgumentInfo| a.name)
}

/// No name is shared by two parameters, options and arguments together: the message has one
/// description per name.
pub open spec fn names_distinct(p: PrinterSpec) -> bool {
    let names = documented_names(p);
    forall|i: int, j: int| 0 <= i < j < names.len() ==> names[i] != names[j]
}

/// No two of the names are equal.
pub open spec fn all_distinct(names: Seq<Seq<char>>) -> bool {
    forall|i: int, j: int| 0 <= i < j < names.len() ==> names[i] != names[j]
}

/// Sorting keeps exactly the options it was given: the same number, each one found among them,
/// and distinct names stay distinct.
pub proof fn lemma_sort_options_members(s: Seq<OptionInfo>)
    ensures
        sort_options(s).len() == s.len(),
        forall|k: int| 0 <= k < s.len() ==> s.contains(#[trigger] sort_options(s)[k]),
        all_distinct(s.map_values(|o: OptionInfo| o.name)) ==> all_distinct(sort_options(s).map_values(|o: OptionInfo| o.name)),
    decreases s.len(),
{
    if s.len() > 0 {
        let prev = sort_options(s.drop_last());
        lemma_sort_options_members(s.drop_last());
        let x = s.last();
        lemma_option_position_range(prev, x.name, 0);
        let p = option_position(prev, x.name, 0);
        let n = prev.insert(p, x);
        assert(n == sort_options(s));
        assert forall|k: int| 0 <= k < s.len() implies s.contains(#[trigger] n[k]) by {
            if k < p {
                assert(n[k] == prev[k]);
                let i = choose|i: int| 0 <= i < s.drop_last().len() && s.drop_last()[i] == prev[k];
                assert(s[i] == n[k]);
            } else if k == p {
                assert(s[s.len() - 1] == n[k]);
            } else {
                assert(n[k] == prev[k - 1]);
                let i = choose|i: int| 0 <= i < s.drop_last().len() && s.drop_last()[i] == prev[k - 1];
                assert(s[i] == n[k]);
            }
        }
        if all_distinct(s.map_values(|o: OptionInfo| o.name)) {
            let sn = s.map_values(|o: OptionInfo| o.name);
            assert(s.drop_last().map_values(|o: OptionInfo| o.name) =~= sn.drop_last());
            let pn = prev.map_values(|o: OptionInfo| o.name);
            assert forall|k: int| 0 <= k < prev.len() implies prev[k].name != x.name by {
                let i = choose|i: int| 0 <= i < s.drop_last().len() && s.drop_last()[i] == prev[k];
                assert(sn[i] == prev[k].name);
                assert(sn[s.len() - 1] == x.name);
            }
            let nn = n.map_values(|o: OptionInfo| o.name);
            assert forall|a: int, b: int| 0 <= a < b < nn.len() implies nn[a] != nn[b] by {
                if b < p {
                    assert(nn[a] == pn[a] && nn[b] == pn[b]);
                } else if b == p {
                    assert(nn[a] == prev[a].name && nn[b] == x.name);
                } else if a < p {
                    assert(nn[a] == pn[a] && nn[b] == pn[b - 1]);
                } else if a == p {
                    assert(nn[a] == x.name && nn[b] == prev[b - 1].name);
                } else {
                    assert(nn[a] == pn[a - 1] && nn[b] == pn[b - 1]);
                }
            }
        }
    }
}

/// `x`, saturated at the largest `usize`.
pub open spec fn sat(x: int) -> int {
    if x > usize::MAX { usize::MAX as int } else { x }
}

/// The larger of two integers.
pub open spec fn smax(a: int, b: int) -> int {
    if a < b { b } else { a }
}

proof fn lemma_sat(a: int, b: int)
    requires
        a >= 0,
        b >= 0,
    ensures
        sat(sat(a) + b) == sat(a + b),
        sat(a + sat(b)) == sat(a + b),
{
}

/// The upper case example of a parameter name: letters in upper case, `-` as `_`.
pub open spec fn name_example(name: Seq<char>) -> Seq<char> {
    name.map_values(|c: char| if c == '-' { '_' } else { upper_ascii(c) })
}

/// `e` repeated `n` times, separated by single spaces.
pub open spec fn repeated(e: Seq<char>, n: nat) -> Seq<char>
    decreases n,
{
    if n == 0 {
        Seq::empty()
    } else if n == 1 {
        e
    } else {
        repeated(e, (n - 1) as nat) + seq![' '] + e
    }
}

/// The values an option takes, shown with the example `e` (with a leading space when there are any).
pub open spec fn option_values(e: Seq<char>, nargs: Nargs) -> Seq<char> {
    match nargs {
        Nargs::Precisely(n) => if n == 0 { Seq::empty() } else { seq![' '] + repeated(e, n as nat) },
        Nargs::Any => seq![' ', '['] + e + seq![' ', '.', '.', '.', ']'],
        Nargs::AtLeastOne => seq![' '] + e + seq![' ', '[', '.', '.', '.', ']'],
    }
}

/// The values an argument takes, shown with the example `e`.
pub open spec fn argument_values(e: Seq<char>, nargs: Nargs) -> Seq<char> {
    match nargs {
        Nargs::Precisely(n) => repeated(e, n as nat),
        Nargs::Any => seq!['['] + e + seq![' ', '.', '.', '.', ']'],
        Nargs::AtLeastOne => e + seq![' ', '[', '.', '.', '.', ']'],
    }
}

/// The values an option takes, as shown after its flag (with a leading space when there are any).
pub open spec fn option_grammar(name: Seq<char>, nargs: Nargs) -> Seq<char> {
    option_values(name_example(name), nargs)
}

/// The values an argument takes.
pub open spec fn argument_grammar(name: Seq<char>, nargs: Nargs) -> Seq<char> {
    argument_values(name_example(name), nargs)
}

/// The widths the help message's columns need so far.
pub struct LayoutSpec {
    pub left: int,
    pub middle: int,
    pub rights: Seq<nat>,
}

/// The widths before any parameter: those of the help flag's row.
pub open spec fn initial_layout() -> LayoutSpec {
    LayoutSpec { left: 10, middle: 33, rights: Seq::empty() }
}

/// The widest left column a choice needs (its name, indented by 2).
pub open spec fn choice_left(cs: Seq<(Seq<char>, Seq<char>)>) -> int
    decreases cs.len(),
{
    if cs.len() == 0 {
        0
    } else {
        smax(choice_left(cs.drop_last()), sat((cs.last().0.len() + 2) as int))
    }
}

/// The widest middle column a choice needs (its description, indented by 1).
pub open spec fn choice_middle(cs: Seq<(Seq<char>, Seq<char>)>) -> int
    decreases cs.len(),
{
    if cs.len() == 0 {
        0
    } else {
        smax(choice_middle(cs.drop_last()), sat((cs.last().1.len() + 1) as int))
    }
}

/// The total length of the choices' names.
pub open spec fn key_lengths(cs: Seq<(Seq<char>, Seq<char>)>) -> int
    decreases cs.len(),
{
    if cs.len() == 0 {
        0
    } else {
        key_lengths(cs.drop_last()) + cs.last().0.len()
    }
}

/// The middle column a help text needs: the text, the choices in braces separated by `, `, and
/// a space, indented by 1.
pub open spec fn help_need(h: Seq<char>, cs: Seq<(Seq<char>, Seq<char>)>) -> int {
    let n = if cs.len() > 1 { cs.len() as int } else { 1 };
    sat(h.len() + key_lengths(cs) + (n - 1) * 2 + 3 + 1)
}

/// The right column widths after taking the first `i` meta values into account.
pub open spec fn meta_widths(rights: Seq<nat>, meta: Seq<Seq<char>>, i: nat) -> Seq<nat>
    decreases i,
{
    if i == 0 || i > meta.len() {
        rights
    } else {
        let r = meta_widths(rights, meta, (i - 1) as nat);
        let w = meta[i - 1].len();
        if i - 1 >= r.len() {
            r.push(if w > 1 { w } else { 1 })
        } else if r[i - 1] < w {
            r.update(i - 1, w)
        } else {
            r
        }
    }
}

/// The widths after taking one parameter into account.
pub open spec fn param_step(s: LayoutSpec, flag: int, help: Option<Seq<char>>, meta: Option<Seq<Seq<char>>>, cs: Seq<(Seq<char>, Seq<char>)>) -> LayoutSpec {
    let left = smax(smax(s.left, flag), choice_left(cs));
    let middle0 = smax(s.middle, choice_middle(cs));
    let middle = match help {
        Some(h) => smax(middle0, help_need(h, cs)),
        None => middle0,
    };
    let rights = match meta {
        Some(m) => meta_widths(s.rights, m, m.len()),
        None => s.rights,
    };
    LayoutSpec { left, middle, rights }
}

/// The width of an option's flags column: `-s GRAMMAR, --name GRAMMAR` or `--name GRAMMAR`.
pub open spec fn option_flag_need(o: OptionInfo) -> int {
    let g = option_grammar(o.name, o.nargs);
    match o.short {
        Some(_) => sat((o.name.len() + g.len() * 2 + 6) as int),
        None => sat((o.name.len() + g.len() + 2) as int),
    }
}

/// The widths after the first `n` options.
pub open spec fn layout_options(opts: Seq<OptionInfo>, n: nat) -> LayoutSpec
    decreases n,
{
    if n == 0 || n > opts.len() {
        initial_layout()
    } else {
        let o = opts[n - 1];
        param_step(layout_options(opts, (n - 1) as nat), option_flag_need(o), o.help, o.meta, o.choices)
    }
}

/// The widths after the first `n` arguments, starting from `base`.
pub open spec fn layout_arguments(args: Seq<ArgumentInfo>, n: nat, base: LayoutSpec) -> LayoutSpec
    decreases n,
{
    if n == 0 || n > args.len() {
        base
    } else {
        let a = args[n - 1];
        param_step(layout_arguments(args, (n - 1) as nat, base), argument_grammar(a.name, a.nargs).len() as int, a.help, a.meta, a.choices)
    }
}

/// The widths the help message's columns need (saturating at the largest `usize`).
pub open spec fn layout(p: PrinterSpec) -> LayoutSpec {
    layout_arguments(p.arguments, p.arguments.len(), layout_options(p.options, p.options.len()))
}

/// The column widths computed so far.
pub struct Layout {
    pub left: usize,
    pub middle: usize,
    pub rights: Vec<usize>,
}

/// The abstract value of right column widths.
pub open spec fn nats(v: Seq<usize>) -> Seq<nat> {
    v.map_values(|x: usize| x as nat)
}

impl View for Layout {
    type V = LayoutSpec;

    open spec fn view(&self) -> LayoutSpec {
        LayoutSpec { left: self.left as int, middle: self.middle as int, rights: nats(self.rights@) }
    }
}

/// The upper case example of a parameter name.
fn example_of(name: &Vec<char>) -> (r: Vec<char>)
    ensures
        r@ == name_example(name@),
{
    let mut r: Vec<char> = Vec::new();
    let mut i: usize = 0;
    while i < name.len()
        invariant
            i <= name@.len(),
            r@ == name_example(name@).take(i as int),
        decreases name.len() - i,
    {
        let c = name[i];
        let u = if c == '-' { '_' } else { crate::text::to_upper_ascii(c) };
        r.push(u);
        i = i + 1;
        assert(r@ =~= name_example(name@).take(i as int));
    }
    assert(name_example(name@).take(i as int) =~= name_example(name@));
    r
}

/// `e` repeated `n` times, separated by single spaces.
fn repeat_example(e: &Vec<char>, n: u8) -> (r: Vec<char>)
    ensures
        r@ == repeated(e@, n as nat),
{
    let mut r: Vec<char> = Vec::new();
    let mut k: u8 = 0;
    while k < n
        invariant
            k <= n,
            r@ == repeated(e@, k as nat),
        decreases n - k,
    {
        if k > 0 {
            r.push(' ');
        }
        crate::text::append_chars(&mut r, e);
        k = k + 1;
        assert(r@ =~= repeated(e@, k as nat));
    }
    r
}

/// The values an option takes, shown with the example `e`.
pub fn option_values_of(e: &Vec<char>, nargs: Nargs) -> (r: Vec<char>)
    ensures
        r@ == option_values(e@, nargs),
{
    let mut r: Vec<char> = Vec::new();
    match nargs {
        Nargs::Precisely(n) => {
            if n > 0 {
                r.push(' ');
                let body = repeat_example(e, n);
                crate::text::append_chars(&mut r, &body);
            }
        },
        Nargs::Any => {
            r.push(' ');
            r.push('[');
            crate::text::append_chars(&mut r, e);
            r.push(' ');
            r.push('.');
            r.push('.');
            r.push('.');
            r.push(']');
        },
        Nargs::AtLeastOne => {
            r.push(' ');
            crate::text::append_chars(&mut r, e);
            r.push(' ');
            r.push('[');
            r.push('.');
            r.push('.');
            r.push('.');
            r.push(']');
        },
    }
    assert(r@ =~= option_values(e@, nargs));
    r
}

/// The values an argument takes, shown with the example `e`.
pub fn argument_values_of(e: &Vec<char>, nargs: Nargs) -> (r: Vec<char>)
    ensures
        r@ == argument_values(e@, nargs),
{
    let mut r: Vec<char> = Vec::new();
    match nargs {
        Nargs::Precisely(n) => {
            r = repeat_example(e, n);
        },
        Nargs::Any => {
            r.push('[');
            crate::text::append_chars(&mut r, e);
            r.push(' ');
            r.push('.');
            r.push('.');
            r.push('.');
            r.push(']');
        },
        Nargs::AtLeastOne => {
            crate::text::append_chars(&mut r, e);
            r.push(' ');
            r.push('[');
            r.push('.');
            r.push('.');
            r.push('.');
            r.push(']');
        },
    }
    assert(r@ =~= argument_values(e@, nargs));
    r
}

/// The values an option takes, as shown after its flag.
fn option_grammar_of(name: &Vec<char>, nargs: Nargs) -> (r: Vec<char>)
    ensures
        r@ == option_grammar(name@, nargs),
{
    let e = example_of(name);
    option_values_of(&e, nargs)
}

/// The values an argument takes.
fn argument_grammar_of(name: &Vec<char>, nargs: Nargs) -> (r: Vec<char>)
    ensures
        r@ == argument_grammar(name@, nargs),
{
    let e = example_of(name);
    argument_values_of(&e, nargs)
}

/// Take one parameter's needs into account.
fn layout_step(l: &mut Layout, flag: usize, help: &Option<String>, meta: &Option<Vec<String>>, choices: &Vec<(String, String)>)
    requires
        forall|i: int| 0 <= i < nats(old(l).rights@).len() ==> #[trigger] nats(old(l).rights@)[i] >= 1,
    ensures
        final(l)@ == param_step(old(l)@, flag as int, opt_text(*help), opt_meta(*meta), choices_view(choices@)),
        forall|i: int| 0 <= i < nats(final(l).rights@).len() ==> #[trigger] nats(final(l).rights@)[i] >= 1,
{
    let ghost cs = choices_view(choices@);
    if l.left < flag {
        l.left = flag;
    }
    let mut key_total: usize = 0;
    let mut i: usize = 0;
    let ghost left0 = l.left as int;
    let ghost middle0 = l.middle as int;
    while i < choices.len()
        invariant
            i <= choices@.len(),
            cs == choices_view(choices@),
            l.left as int == smax(left0, choice_left(cs.take(i as int))),
            l.middle as int == smax(middle0, choice_middle(cs.take(i as int))),
            key_total as int == sat(key_lengths(cs.take(i as int))),
            l.rights == old(l).rights,
        decreases choices.len() - i,
    {
        assert(cs.take(i + 1).drop_last() =~= cs.take(i as int));
        let key_len = crate::text::char_len(&choices[i].0);
        let description_len = crate::text::char_len(&choices[i].1);
        assert(choices[i as int].0@.len() == cs[i as int].0.len());
        let key_need = key_len.saturating_add(2);
        let description_need = description_len.saturating_add(1);
        if l.left < key_need {
            l.left = key_need;
        }
        if l.middle < description_need {
            l.middle = description_need;
        }
        proof {
            lemma_sat(key_lengths(cs.take(i as int)), key_len as int);
        }
        key_total = key_total.saturating_add(key_len);
        i = i + 1;
    }
    assert(cs.take(i as int) =~= cs);
    if let Some(h) = help {
        let n = if choices.len() > 1 { choices.len() } else { 1 };
        let separators = (n - 1).saturating_add(n - 1);
        let need = crate::text::char_len(h).saturating_add(key_total).saturating_add(separators).saturating_add(4);
        proof {
            let hl = h@.len() as int;
            let kl = key_lengths(cs);
            lemma_sat(hl, kl);
            lemma_sat(hl + kl, (n - 1) * 2);
            lemma_sat(hl + kl + (n - 1) * 2, 4);
        }
        if l.middle < need {
            l.middle = need;
        }
    }
    if let Some(m) = meta {
        let ghost ms = strings_view(m@);
        let ghost r0 = nats(l.rights@);
        let ghost left1 = l.left;
        let ghost middle1 = l.middle;
        assert(r0 == nats(old(l).rights@));
        let mut k: usize = 0;
        while k < m.len()
            invariant
                k <= m@.len(),
                ms == strings_view(m@),
                nats(l.rights@) == meta_widths(r0, ms, k as nat),
                l.rights@.len() >= k,
                l.left == left1,
                l.middle == middle1,
                forall|j: int| 0 <= j < nats(l.rights@).len() ==> #[trigger] nats(l.rights@)[j] >= 1,
            decreases m.len() - k,
        {
            let w = crate::text::char_len(&m[k]);
            assert(ms[k as int].len() == w);
            let ghost before = nats(l.rights@);
            if k >= l.rights.len() {
                l.rights.push(if w > 1 { w } else { 1 });
                assert(nats(l.rights@) =~= before.push(if w > 1 { w as nat } else { 1 }));
            } else if l.rights[k] < w {
                l.rights.set(k, w);
                assert(nats(l.rights@) =~= before.update(k as int, w as nat));
            }
            k = k + 1;
        }
    }
}

impl Printer {
    /// The widths the help message's columns need.
    pub fn layout(&self) -> (r: Layout)
        ensures
            r@ == layout(self@),
            forall|i: int| 0 <= i < r@.rights.len() ==> #[trigger] r@.rights[i] >= 1,
    {
        let mut l = Layout { left: 10, middle: 33, rights: Vec::new() };
        assert(nats(l.rights@) =~= Seq::<nat>::empty());
        assert(l@ =~= initial_layout());
        let ghost opts = self@.options;
        let mut i: usize = 0;
        while i < self.options.len()
            invariant
                i <= self.options@.len(),
                opts == self@.options,
                l@ == layout_options(opts, i as nat),
                forall|j: int| 0 <= j < nats(l.rights@).len() ==> #[trigger] nats(l.rights@)[j] >= 1,
            decreases self.options.len() - i,
        {
            let o = &self.options[i];
            assert(opts[i as int] == o@);
            let name = crate::text::chars_of(o.name.as_str());
            let g = option_grammar_of(&name, o.nargs);
            let flag = match o.short {
                Some(_) => name.len().saturating_add(g.len()).saturating_add(g.len()).saturating_add(6),
                None => name.len().saturating_add(g.len()).saturating_add(2),
            };
            proof {
                let nl = name@.len() as int;
                let gl = g@.len() as int;
                lemma_sat(nl, gl);
                lemma_sat(nl + gl, gl);
                lemma_sat(nl + gl + gl, 6);
                lemma_sat(nl + gl, 2);
            }
            layout_step(&mut l, flag, &o.help, &o.meta, &o.choices);
            i = i + 1;
        }
        let ghost base = l@;
        let ghost args = self@.arguments;
        let mut k: usize = 0;
        while k < self.arguments.len()
            invariant
                k <= self.arguments@.len(),
                args == self@.arguments,
                base == layout_options(self@.options, self@.options.len()),
                l@ == layout_arguments(args, k as nat, base),
                forall|j: int| 0 <= j < nats(l.rights@).len() ==> #[trigger] nats(l.rights@)[j] >= 1,
            decreases self.arguments.len() - k,
        {
            let a = &self.arguments[k];
            assert(args[k as int] == a@);
            let name = crate::text::chars_of(a.name.as_str());
            let g = argument_grammar_of(&name, a.nargs);
            layout_step(&mut l, g.len(), &a.help, &a.meta, &a.choices);
            k = k + 1;
        }
        l
    }
}

/// Layout `a` is at least as wide as layout `b` in every column.
pub open spec fn dominates(a: LayoutSpec, b: LayoutSpec) -> bool {
    &&& a.left >= b.left
    &&& a.middle >= b.middle
    &&& a.rights.len() >= b.rights.len()
    &&& forall|i: int| 0 <= i < b.rights.len() ==> #[trigger] a.rights[i] >= b.rights[i]
}

/// Layout `l` leaves room for a parameter's flags, meta values and choices.
pub open spec fn covers(l: LayoutSpec, flag: int, meta: Option<Seq<Seq<char>>>, cs: Seq<(Seq<char>, Seq<char>)>) -> bool {
    &&& l.left >= flag
    &&& l.left >= choice_left(cs)
    &&& (meta matches Some(m) ==> {
        &&& m.len() <= l.rights.len()
        &&& forall|i: int| 0 <= i < m.len() ==> #[trigger] m[i].len() <= l.rights[i]
    })
}

proof fn lemma_meta_widths(rights: Seq<nat>, m: Seq<Seq<char>>, i: nat)
    requires
        i <= m.len(),
    ensures
        meta_widths(rights, m, i).len() >= rights.len(),
        meta_widths(rights, m, i).len() >= i,
        forall|j: int| 0 <= j < rights.len() ==> #[trigger] meta_widths(rights, m, i)[j] >= rights[j],
        forall|j: int| 0 <= j < i ==> #[trigger] m[j].len() <= meta_widths(rights, m, i)[j],
    decreases i,
{
    if i > 0 {
        lemma_meta_widths(rights, m, (i - 1) as nat);
    }
}

proof fn lemma_step(s: LayoutSpec, flag: int, help: Option<Seq<char>>, meta: Option<Seq<Seq<char>>>, cs: Seq<(Seq<char>, Seq<char>)>)
    ensures
        dominates(param_step(s, flag, help, meta, cs), s),
        covers(param_step(s, flag, help, meta, cs), flag, meta, cs),
{
    if let Some(m) = meta {
        lemma_meta_widths(s.rights, m, m.len());
    }
}

proof fn lemma_covers_mono(a: LayoutSpec, b: LayoutSpec, flag: int, meta: Option<Seq<Seq<char>>>, cs: Seq<(Seq<char>, Seq<char>)>)
    requires
        dominates(a, b),
        covers(b, flag, meta, cs),
    ensures
        covers(a, flag, meta, cs),
{
    if let Some(m) = meta {
        assert forall|i: int| 0 <= i < m.len() implies #[trigger] m[i].len() <= a.rights[i] by {
            assert(m[i].len() <= b.rights[i]);
        }
    }
}

proof fn lemma_dominates_trans(a: LayoutSpec, b: LayoutSpec, c: LayoutSpec)
    requires
        dominates(a, b),
        dominates(b, c),
    ensures
        dominates(a, c),
{
    assert forall|i: int| 0 <= i < c.rights.len() implies #[trigger] a.rights[i] >= c.rights[i] by {
        assert(a.rights[i] >= b.rights[i]);
    }
}

proof fn lemma_layout_options_mono(opts: Seq<OptionInfo>, k: nat, n: nat)
    requires
        k <= n <= opts.len(),
    ensures
        dominates(layout_options(opts, n), layout_options(opts, k)),
    decreases n,
{
    if k < n {
        lemma_layout_options_mono(opts, k, (n - 1) as nat);
        let o = opts[n - 1];
        lemma_step(layout_options(opts, (n - 1) as nat), option_flag_need(o), o.help, o.meta, o.choices);
        lemma_dominates_trans(layout_options(opts, n), layout_options(opts, (n - 1) as nat), layout_options(opts, k));
    }
}

proof fn lemma_layout_arguments_mono(args: Seq<ArgumentInfo>, k: nat, n: nat, base: LayoutSpec)
    requires
        k <= n <= args.len(),
    ensures
        dominates(layout_arguments(args, n, base), layout_arguments(args, k, base)),
        dominates(layout_arguments(args, n, base), base),
    decreases n,
{
    if n > 0 {
        lemma_layout_arguments_mono(args, if k < n { k } else { (n - 1) as nat }, (n - 1) as nat, base);
        let a = args[n - 1];
        lemma_step(layout_arguments(args, (n - 1) as nat, base), argument_grammar(a.name, a.nargs).len() as int, a.help, a.meta, a.choices);
        lemma_dominates_trans(layout_arguments(args, n, base), layout_arguments(args, (n - 1) as nat, base), base);
        if k < n {
            lemma_dominates_trans(layout_arguments(args, n, base), layout_arguments(args, (n - 1) as nat, base), layout_arguments(args, k, base));
        }
    }
}

/// The final layout leaves room for option `k`.
proof fn lemma_layout_covers_option(p: PrinterSpec, k: int)
    requires
        0 <= k < p.options.len(),
    ensures
        covers(layout(p), option_flag_need(p.options[k]), p.options[k].meta, p.options[k].choices),
        dominates(layout(p), initial_layout()),
{
    let opts = p.options;
    let o = opts[k];
    lemma_step(layout_options(opts, k as nat), option_flag_need(o), o.help, o.meta, o.choices);
    lemma_layout_options_mono(opts, (k + 1) as nat, opts.len());
    lemma_layout_options_mono(opts, 0, opts.len());
    let base = layout_options(opts, opts.len());
    lemma_layout_arguments_mono(p.arguments, 0, p.arguments.len(), base);
    lemma_dominates_trans(layout(p), base, layout_options(opts, (k + 1) as nat));
    lemma_dominates_trans(layout(p), base, initial_layout());
    lemma_covers_mono(layout(p), layout_options(opts, (k + 1) as nat), option_flag_need(o), o.meta, o.choices);
}

/// The final layout leaves room for argument `k`.
proof fn lemma_layout_covers_argument(p: PrinterSpec, k: int)
    requires
        0 <= k < p.arguments.len(),
    ensures
        covers(layout(p), argument_grammar(p.arguments[k].name, p.arguments[k].nargs).len() as int, p.arguments[k].meta, p.arguments[k].choices),
        dominates(layout(p), initial_layout()),
{
    let args = p.arguments;
    let a = args[k];
    let base = layout_options(p.options, p.options.len());
    lemma_step(layout_arguments(args, k as nat, base), argument_grammar(a.name, a.nargs).len() as int, a.help, a.meta, a.choices);
    lemma_layout_arguments_mono(args, (k + 1) as nat, args.len(), base);
    lemma_layout_options_mono(p.options, 0, p.options.len());
    lemma_dominates_trans(layout(p), base, initial_layout());
    lemma_covers_mono(layout(p), layout_arguments(args, (k + 1) as nat, base), argument_grammar(a.name, a.nargs).len() as int, a.meta, a.choices);
}

/// Whether the layout is small enough for its total width to be computed.
pub open spec fn layout_small(l: LayoutSpec) -> bool {
    &&& l.left <= usize::MAX / 8
    &&& l.middle <= usize::MAX / 8
    &&& sum_widths(l.rights) <= usize::MAX / 8
    &&& l.rights.len() <= usize::MAX / 8
}

/// The middle width of the help message: the fitted one when a terminal width is known and the
/// columns fit in it, else the default (17, or less when nothing needs that much).
pub open spec fn chosen_middle(p: PrinterSpec, l: LayoutSpec) -> nat {
    let fallback: nat = if l.middle < 17 { l.middle as nat } else { 17 };
    match p.terminal_width {
        Some(tw) => if layout_small(l) {
            match fitted_middle_spec(3, l.left as nat, l.middle as nat, l.rights, tw as nat) {
                Some(m) => m,
                None => fallback,
            }
        } else {
            fallback
        },
        None => fallback,
    }
}

/// The column widths of the help message.
pub open spec fn renderer_for(p: PrinterSpec) -> RendererSpec {
    let l = layout(p);
    RendererSpec { padding: 3, left: l.left as nat, middle: chosen_middle(p, l), rights: l.rights }
}

/// An option's entry in the usage summary.
pub open spec fn option_summary(o: OptionInfo) -> Seq<char> {
    let g = option_grammar(o.name, o.nargs);
    match o.short {
        Some(c) => seq!['[', '-', c] + g + seq![']'],
        None => seq!['[', '-', '-'] + o.name + g + seq![']'],
    }
}

/// The usage summary entries of the first `n` options, each after a space.
pub open spec fn option_summaries(opts: Seq<OptionInfo>, n: nat) -> Seq<char>
    decreases n,
{
    if n == 0 || n > opts.len() {
        Seq::empty()
    } else {
        option_summaries(opts, (n - 1) as nat) + seq![' '] + option_summary(opts[n - 1])
    }
}

/// The usage summary entries of the first `n` arguments, each after a space.
pub open spec fn argument_summaries(args: Seq<ArgumentInfo>, n: nat) -> Seq<char>
    decreases n,
{
    if n == 0 || n > args.len() {
        Seq::empty()
    } else {
        argument_summaries(args, (n - 1) as nat) + seq![' '] + argument_grammar(args[n - 1].name, args[n - 1].nargs)
    }
}

/// The first line: `usage: PROGRAM [-h]`, then the options' and the arguments' entries.
pub open spec fn usage_line(p: PrinterSpec, program: Seq<char>) -> Seq<char> {
    "usage: "@ + program + seq![' ', '[', '-', 'h', ']'] + option_summaries(p.options, p.options.len()) + argument_summaries(p.arguments, p.arguments.len())
}

/// The names of the first `n` choices, separated by `, `.
pub open spec fn keys_joined(cs: Seq<(Seq<char>, Seq<char>)>, n: nat) -> Seq<char>
    decreases n,
{
    if n == 0 || n > cs.len() {
        Seq::empty()
    } else if n == 1 {
        cs[0].0
    } else {
        keys_joined(cs, (n - 1) as nat) + seq![',', ' '] + cs[n - 1].0
    }
}

/// The choices in braces, followed by a space (nothing when there are none).
pub open spec fn choices_text(cs: Seq<(Seq<char>, Seq<char>)>) -> Seq<char> {
    if cs.len() == 0 {
        Seq::empty()
    } else {
        seq!['{'] + keys_joined(cs, cs.len()) + seq!['}', ' ']
    }
}

/// Optional text, or nothing.
pub open spec fn text_or_empty(h: Option<Seq<char>>) -> Seq<char> {
    match h {
        Some(x) => x,
        None => Seq::empty(),
    }
}

/// Optional meta values, or none.
pub open spec fn meta_or_empty(m: Option<Seq<Seq<char>>>) -> Seq<Seq<char>> {
    match m {
        Some(x) => x,
        None => Seq::empty(),
    }
}

/// The rows of the first `n` choices: each name with its description, indented by 3.
pub open spec fn choice_rows(r: RendererSpec, cs: Seq<(Seq<char>, Seq<char>)>, n: nat) -> Seq<Seq<char>>
    decreases n,
{
    if n == 0 || n > cs.len() {
        Seq::empty()
    } else {
        choice_rows(r, cs, (n - 1) as nat) + render_spec(r, 3, cs[n - 1].0, cs[n - 1].1, Seq::empty())
    }
}

/// An option's flags: `-s GRAMMAR, --name GRAMMAR`, or `--name GRAMMAR` without a short name.
pub open spec fn option_flags(o: OptionInfo) -> Seq<char> {
    let g = option_grammar(o.name, o.nargs);
    match o.short {
        Some(c) => seq!['-', c] + g + seq![',', ' ', '-', '-'] + o.name + g,
        None => seq!['-', '-'] + o.name + g,
    }
}

/// An option's rows: its flags, choices and help, meta values, then its choices' rows.
pub open spec fn option_block(r: RendererSpec, o: OptionInfo) -> Seq<Seq<char>> {
    render_spec(r, 1, option_flags(o), choices_text(o.choices) + text_or_empty(o.help), meta_or_empty(o.meta))
        + choice_rows(r, o.choices, o.choices.len())
}

/// An argument's rows: its grammar, choices and help, meta values, then its choices' rows.
pub open spec fn argument_block(r: RendererSpec, a: ArgumentInfo) -> Seq<Seq<char>> {
    render_spec(r, 1, argument_grammar(a.name, a.nargs), choices_text(a.choices) + text_or_empty(a.help), meta_or_empty(a.meta))
        + choice_rows(r, a.choices, a.choices.len())
}

/// The rows of the first `n` options.
pub open spec fn option_blocks(r: RendererSpec, opts: Seq<OptionInfo>, n: nat) -> Seq<Seq<char>>
    decreases n,
{
    if n == 0 || n > opts.len() {
        Seq::empty()
    } else {
        option_blocks(r, opts, (n - 1) as nat) + option_block(r, opts[n - 1])
    }
}

/// The rows of the first `n` arguments.
pub open spec fn argument_blocks(r: RendererSpec, args: Seq<ArgumentInfo>, n: nat) -> Seq<Seq<char>>
    decreases n,
{
    if n == 0 || n > args.len() {
        Seq::empty()
    } else {
        argument_blocks(r, args, (n - 1) as nat) + argument_block(r, args[n - 1])
    }
}

/// The lines of the help message.
pub open spec fn help_lines_spec(p: PrinterSpec, program: Seq<char>) -> Seq<Seq<char>> {
    let r = renderer_for(p);
    let positional = if p.arguments.len() > 0 {
        seq![Seq::<char>::empty(), "positional arguments:"@] + argument_blocks(r, p.arguments, p.arguments.len())
    } else {
        Seq::empty()
    };
    seq![usage_line(p, program)] + positional + seq![Seq::<char>::empty(), "options:"@]
        + render_spec(r, 1, "-h, --help"@, "Show this help message and exit."@, Seq::empty())
        + option_blocks(r, p.options, p.options.len())
}

/// Appends `rows` to `out`.
fn extend_lines(out: &mut Vec<String>, rows: Vec<String>)
    ensures
        strings_view(final(out)@) == strings_view(old(out)@) + strings_view(rows@),
{
    let mut i: usize = 0;
    let ghost start = strings_view(out@);
    let n = rows.len();
    let ghost rv = strings_view(rows@);
    while i < n
        invariant
            i <= n,
            n == rv.len(),
            rows@.len() == n,
            strings_view(rows@) == rv,
            strings_view(out@) == start + rv.take(i as int),
        decreases n - i,
    {
        let line = rows[i].clone();
        let ghost before = strings_view(out@);
        out.push(line);
        assert(strings_view(out@) =~= before.push(rv[i as int]));
        assert(rv.take(i + 1) =~= rv.take(i as int).push(rv[i as int]));
        i = i + 1;
    }
    assert(rv.take(n as int) =~= rv);
}

/// The names of the choices, separated by `, `, in braces and followed by a space.
fn choices_text_of(choices: &Vec<(String, String)>) -> (r: Vec<char>)
    ensures
        r@ == choices_text(choices_view(choices@)),
{
    let ghost cs = choices_view(choices@);
    let mut r: Vec<char> = Vec::new();
    if choices.len() == 0 {
        return r;
    }
    r.push('{');
    let mut i: usize = 0;
    while i < choices.len()
        invariant
            i <= choices@.len(),
            cs == choices_view(choices@),
            cs.len() > 0,
            r@ == seq!['{'] + keys_joined(cs, i as nat),
        decreases choices.len() - i,
    {
        if i > 0 {
            r.push(',');
            r.push(' ');
        }
        let key = crate::text::chars_of(choices[i].0.as_str());
        crate::text::append_chars(&mut r, &key);
        i = i + 1;
        assert(r@ =~= seq!['{'] + keys_joined(cs, i as nat));
    }
    r.push('}');
    r.push(' ');
    r
}

/// Whether a string fits a right column: at most `width` characters.
proof fn lemma_items_fit(items: Seq<Seq<char>>, l: LayoutSpec, meta: Option<Seq<Seq<char>>>)
    requires
        items == meta_or_empty(meta),
        meta matches Some(m) ==> {
            &&& m.len() <= l.rights.len()
            &&& forall|i: int| 0 <= i < m.len() ==> #[trigger] m[i].len() <= l.rights[i]
        },
    ensures
        items.len() <= l.rights.len(),
        forall|i: int| 0 <= i < items.len() ==> #[trigger] items[i].len() <= l.rights[i],
{
}

proof fn lemma_choice_left(cs: Seq<(Seq<char>, Seq<char>)>, i: int)
    requires
        0 <= i < cs.len(),
    ensures
        choice_left(cs) >= sat((cs[i].0.len() + 2) as int),
    decreases cs.len(),
{
    if i < cs.len() - 1 {
        lemma_choice_left(cs.drop_last(), i);
    }
}

impl Printer {
    /// The column renderer for the help message.
    fn renderer(&self, l: &Layout) -> (r: ColumnRenderer)
        requires
            l@ == layout(self@),
            forall|i: int| 0 <= i < l@.rights.len() ==> #[trigger] l@.rights[i] >= 1,
            dominates(l@, initial_layout()),
        ensures
            r.wf(),
            r@ == renderer_for(self@),
    {
        let mut rights: Vec<RightWidth> = Vec::new();
        let mut total: usize = 0;
        let mut i: usize = 0;
        while i < l.rights.len()
            invariant
                i <= l.rights@.len(),
                forall|j: int| 0 <= j < l@.rights.len() ==> #[trigger] l@.rights[j] >= 1,
                rights_view(rights@) == l@.rights.take(i as int),
                total as int == crate::printer::sat(sum_widths(l@.rights.take(i as int)) as int),
            decreases l.rights.len() - i,
        {
            let w = l.rights[i];
            assert(l@.rights[i as int] == w);
            let ghost before = rights_view(rights@);
            rights.push(RightWidth::of(w));
            assert(rights_view(rights@) =~= before.push(w as nat));
            assert(l@.rights.take(i + 1) =~= l@.rights.take(i as int).push(w as nat));
            assert(l@.rights.take(i + 1).drop_last() =~= l@.rights.take(i as int));
            proof {
                lemma_sat(sum_widths(l@.rights.take(i as int)) as int, w as int);
            }
            total = total.saturating_add(w);
            i = i + 1;
        }
        assert(l@.rights.take(i as int) =~= l@.rights);
        let padding = PaddingWidth::of(3);
        let left = LeftWidth::of(l.left);
        let fallback = if l.middle < 17 { l.middle } else { 17 };
        let bound = usize::MAX / 8;
        let chosen = match self.terminal_width {
            Some(tw) => {
                if l.left <= bound && l.middle <= bound && total <= bound && l.rights.len() <= bound {
                    let middle = MiddleWidth::of(l.middle);
                    match ColumnRenderer::fitted_middle(&padding, &left, &middle, &rights, tw) {
                        Some(m) => m,
                        None => fallback,
                    }
                } else {
                    fallback
                }
            },
            None => fallback,
        };
        ColumnRenderer::new(padding, left, MiddleWidth::of(chosen), rights)
    }
}

/// Appends the rows of the choices to `out`.
fn push_choice_rows(out: &mut Vec<String>, r: &ColumnRenderer, choices: &Vec<(String, String)>)
    requires
        r.wf(),
        r@.middle >= 5,
        r@.left >= choice_left(choices_view(choices@)),
    ensures
        strings_view(final(out)@) == strings_view(old(out)@) + choice_rows(r@, choices_view(choices@), choices@.len() as nat),
{
    let ghost cs = choices_view(choices@);
    let mut i: usize = 0;
    while i < choices.len()
        invariant
            i <= choices@.len(),
            cs == choices_view(choices@),
            r.wf(),
            r@.middle >= 5,
            r@.left >= choice_left(cs),
            strings_view(out@) == strings_view(old(out)@) + choice_rows(r@, cs, i as nat),
        decreases choices.len() - i,
    {
        proof {
            lemma_choice_left(cs, i as int);
        }
        let key = &choices[i].0;
        let description = &choices[i].1;
        let key_len = crate::text::char_len(key);
        let empty: Vec<String> = Vec::new();
        assert(strings_view(empty@) =~= Seq::<Seq<char>>::empty());
        let rows = r.render(3, key.as_str(), description.as_str(), &empty);
        let ghost before = strings_view(out@);
        extend_lines(out, rows);
        i = i + 1;
        assert(before + render_spec(r@, 3, cs[i - 1].0, cs[i - 1].1, Seq::empty())
            =~= strings_view(old(out)@) + choice_rows(r@, cs, i as nat));
    }
}

impl Printer {
    /// The usage line.
    fn usage(&self, program: &str) -> (r: Vec<char>)
        ensures
            r@ == usage_line(self@, program@),
    {
        let mut line = crate::text::chars_of("usage: ");
        crate::text::append_str(&mut line, program);
        line.push(' ');
        line.push('[');
        line.push('-');
        line.push('h');
        line.push(']');
        let ghost head = line@;
        let ghost opts = self@.options;
        let mut i: usize = 0;
        while i < self.options.len()
            invariant
                i <= self.options@.len(),
                opts == self@.options,
                line@ == head + option_summaries(opts, i as nat),
            decreases self.options.len() - i,
        {
            let o = &self.options[i];
            assert(opts[i as int] == o@);
            let name = crate::text::chars_of(o.name.as_str());
            let g = option_grammar_of(&name, o.nargs);
            line.push(' ');
            line.push('[');
            line.push('-');
            match o.short {
                Some(c) => {
                    line.push(c);
                },
                None => {
                    line.push('-');
                    crate::text::append_chars(&mut line, &name);
                },
            }
            crate::text::append_chars(&mut line, &g);
            line.push(']');
            i = i + 1;
            assert(line@ =~= head + option_summaries(opts, i as nat));
        }
        let ghost mid = line@;
        let ghost args = self@.arguments;
        let mut k: usize = 0;
        while k < self.arguments.len()
            invariant
                k <= self.arguments@.len(),
                args == self@.arguments,
                line@ == mid + argument_summaries(args, k as nat),
            decreases self.arguments.len() - k,
        {
            let a = &self.arguments[k];
            assert(args[k as int] == a@);
            let name = crate::text::chars_of(a.name.as_str());
            let g = argument_grammar_of(&name, a.nargs);
            line.push(' ');
            crate::text::append_chars(&mut line, &g);
            k = k + 1;
            assert(line@ =~= mid + argument_summaries(args, k as nat));
        }
        assert(line@ =~= usage_line(self@, program@));
        line
    }

    /// Appends option `k`'s rows.
    #[verifier::rlimit(40)]
    fn push_option_block(&self, out: &mut Vec<String>, r: &ColumnRenderer, k: usize)
        requires
            k < self@.options.len(),
            r.wf(),
            r@ == renderer_for(self@),
            r@.middle >= 17,
        ensures
            strings_view(final(out)@) == strings_view(old(out)@) + option_block(r@, self@.options[k as int]),
    {
        let o = &self.options[k];
        assert(self@.options[k as int] == o@);
        proof {
            lemma_layout_covers_option(self@, k as int);
        }
        let name = crate::text::chars_of(o.name.as_str());
        let g = option_grammar_of(&name, o.nargs);
        let mut flags: Vec<char> = Vec::new();
        flags.push('-');
        match o.short {
            Some(c) => {
                flags.push(c);
                crate::text::append_chars(&mut flags, &g);
                flags.push(',');
                flags.push(' ');
                flags.push('-');
                flags.push('-');
                crate::text::append_chars(&mut flags, &name);
                crate::text::append_chars(&mut flags, &g);
            },
            None => {
                flags.push('-');
                crate::text::append_chars(&mut flags, &name);
                crate::text::append_chars(&mut flags, &g);
            },
        }
        assert(flags@ =~= option_flags(o@));
        let flags_len = flags.len();
        let mut middle = choices_text_of(&o.choices);
        match &o.help {
            Some(h) => crate::text::append_str(&mut middle, h.as_str()),
            None => {},
        }
        assert(middle@ =~= choices_text(o@.choices) + text_or_empty(o@.help));
        let empty: Vec<String> = Vec::new();
        let items = match &o.meta {
            Some(m) => m,
            None => &empty,
        };
        assert(strings_view(items@) =~= meta_or_empty(o@.meta));
        proof {
            lemma_items_fit(strings_view(items@), layout(self@), o@.meta);
            assert forall|i: int| 0 <= i < items@.len() implies #[trigger] items@[i]@.len() <= r@.rights[i] by {
                assert(strings_view(items@)[i] == items@[i]@);
            }
        }
        let flag_text = crate::text::string_of(&flags);
        let middle_text = crate::text::string_of(&middle);
        let rows = r.render(1, flag_text.as_str(), middle_text.as_str(), items);
        extend_lines(out, rows);
        push_choice_rows(out, r, &o.choices);
    }

    /// Appends argument `k`'s rows.
    #[verifier::rlimit(40)]
    fn push_argument_block(&self, out: &mut Vec<String>, r: &ColumnRenderer, k: usize)
        requires
            k < self@.arguments.len(),
            r.wf(),
            r@ == renderer_for(self@),
            r@.middle >= 17,
        ensures
            strings_view(final(out)@) == strings_view(old(out)@) + argument_block(r@, self@.arguments[k as int]),
    {
        let a = &self.arguments[k];
        assert(self@.arguments[k as int] == a@);
        proof {
            lemma_layout_covers_argument(self@, k as int);
        }
        let name = crate::text::chars_of(a.name.as_str());
        let g = argument_grammar_of(&name, a.nargs);
        let mut middle = choices_text_of(&a.choices);
        match &a.help {
            Some(h) => crate::text::append_str(&mut middle, h.as_str()),
            None => {},
        }
        assert(middle@ =~= choices_text(a@.choices) + text_or_empty(a@.help));
        let empty: Vec<String> = Vec::new();
        let items = match &a.meta {
            Some(m) => m,
            None => &empty,
        };
        assert(strings_view(items@) =~= meta_or_empty(a@.meta));
        proof {
            lemma_items_fit(strings_view(items@), layout(self@), a@.meta);
            assert forall|i: int| 0 <= i < items@.len() implies #[trigger] items@[i]@.len() <= r@.rights[i] by {
                assert(strings_view(items@)[i] == items@[i]@);
            }
        }
        let grammar_text = crate::text::string_of(&g);
        let middle_text = crate::text::string_of(&middle);
        let rows = r.render(1, grammar_text.as_str(), middle_text.as_str(), items);
        extend_lines(out, rows);
        push_choice_rows(out, r, &a.choices);
    }

    /// The lines of the help message for `program`.
    #[verifier::rlimit(40)]
    pub fn help_lines(&self, program: &str) -> (r: Vec<String>)
        requires
            names_distinct(self@),
        ensures
            strings_view(r@) == help_lines_spec(self@, program@),
    {
        let l = self.layout();
        proof {
            lemma_layout_options_mono(self@.options, 0, self@.options.len());
            lemma_layout_arguments_mono(self@.arguments, 0, self@.arguments.len(), layout_options(self@.options, self@.options.len()));
            lemma_dominates_trans(layout(self@), layout_options(self@.options, self@.options.len()), initial_layout());
        }
        let r = self.renderer(&l);
        let ghost rs = r@;
        let mut out: Vec<String> = Vec::new();
        let usage = self.usage(program);
        out.push(crate::text::string_of(&usage));
        assert(strings_view(out@) =~= seq![usage_line(self@, program@)]);
        let ghost after_usage = strings_view(out@);
        if self.arguments.len() > 0 {
            out.push(String::new());
            out.push("positional arguments:".to_owned());
            assert(strings_view(out@) =~= after_usage + seq![Seq::<char>::empty(), "positional arguments:"@]);
            let ghost head = strings_view(out@);
            let mut k: usize = 0;
            while k < self.arguments.len()
                invariant
                    k <= self@.arguments.len(),
                    r.wf(),
                    r@ == rs,
                    rs == renderer_for(self@),
                    rs.middle >= 17,
                    strings_view(out@) == head + argument_blocks(rs, self@.arguments, k as nat),
                decreases self.arguments.len() - k,
            {
                let ghost before = strings_view(out@);
                self.push_argument_block(&mut out, &r, k);
                k = k + 1;
                assert(before + argument_block(rs, self@.arguments[k - 1]) =~= head + argument_blocks(rs, self@.arguments, k as nat));
            }
            assert(strings_view(out@) =~= after_usage + (seq![Seq::<char>::empty(), "positional arguments:"@] + argument_blocks(rs, self@.arguments, self@.arguments.len())));
        } else {
            assert(after_usage =~= after_usage + Seq::<Seq<char>>::empty());
        }
        let ghost after_positional = strings_view(out@);
        out.push(String::new());
        out.push("options:".to_owned());
        assert(strings_view(out@) =~= after_positional + seq![Seq::<char>::empty(), "options:"@]);
        let help_flags = "-h, --help";
        proof {
            reveal_strlit("-h, --help");
        }
        let empty: Vec<String> = Vec::new();
        assert(strings_view(empty@) =~= Seq::<Seq<char>>::empty());
        let rows = r.render(1, help_flags, "Show this help message and exit.", &empty);
        let ghost before_help = strings_view(out@);
        extend_lines(&mut out, rows);
        let ghost head = strings_view(out@);
        assert(head == before_help + render_spec(rs, 1, "-h, --help"@, "Show this help message and exit."@, Seq::empty()));
        let mut i: usize = 0;
        while i < self.options.len()
            invariant
                i <= self@.options.len(),
                r.wf(),
                r@ == rs,
                rs == renderer_for(self@),
                rs.middle >= 17,
                strings_view(out@) == head + option_blocks(rs, self@.options, i as nat),
            decreases self.options.len() - i,
        {
            let ghost before = strings_view(out@);
            self.push_option_block(&mut out, &r, i);
            i = i + 1;
            assert(before + option_block(rs, self@.options[i - 1]) =~= head + option_blocks(rs, self@.options, i as nat));
        }
        assert(strings_view(out@) =~= help_lines_spec(self@, program@));
        out
    }
}

} // verus!
