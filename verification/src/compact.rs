//! The compact help message: the flags of every parameter in one column, each followed by its
//! description.
use vstd::prelude::*;
use crate::interface::UserInterface;
use crate::model::Nargs;
use crate::printer::ArgumentInfo;
use crate::printer::ArgumentParameter;
use crate::printer::OptionInfo;
use crate::printer::OptionParameter;
use crate::printer::PrinterSpec;
use crate::printer::argument_values;
use crate::printer::argument_values_of;
use crate::printer::option_values;
use crate::printer::option_values_of;
use crate::printer::sat;
use crate::printer::smax;
use crate::printer::sort_options;
use crate::render::pad_to;
use crate::render::spaces;
use crate::render::strings_view;
use crate::text::upper_ascii;

verus! {

/// An option: its name, short name, number of values and description.
pub type OptionEntry = (String, Option<char>, Nargs, Option<&'static str>);

/// An argument: its name, number of values and description.
pub type ArgumentEntry = (String, Nargs, Option<&'static str>);

/// The name in ASCII upper case, as the compact message shows values.
pub open spec fn upper_example(name: Seq<char>) -> Seq<char> {
    name.map_values(|c: char| upper_ascii(c))
}

/// The abstract value of an option entry.
pub open spec fn option_entry_info(e: OptionEntry) -> OptionInfo {
    OptionInfo {
        name: e.0@,
        short: e.1,
        nargs: e.2,
        help: match e.3 {
            Some(d) => Some(d@),
            None => None,
        },
        meta: None,
        choices: Seq::empty(),
    }
}

/// The abstract value of an argument entry.
pub open spec fn argument_entry_info(e: ArgumentEntry) -> ArgumentInfo {
    ArgumentInfo {
        name: e.0@,
        nargs: e.1,
        help: match e.2 {
            Some(d) => Some(d@),
            None => None,
        },
        meta: None,
        choices: Seq::empty(),
    }
}

/// The values an option takes, after its flag.
pub open spec fn compact_option_grammar(o: OptionInfo) -> Seq<char> {
    option_values(upper_example(o.name), o.nargs)
}

/// The values an argument takes.
pub open spec fn compact_argument_grammar(a: ArgumentInfo) -> Seq<char> {
    argument_values(upper_example(a.name), a.nargs)
}

/// An option's flags; with `short_values`, the short flag is followed by the values too.
pub open spec fn compact_flags(o: OptionInfo, short_values: bool) -> Seq<char> {
    let g = compact_option_grammar(o);
    match o.short {
        Some(c) => if short_values {
            seq!['-', c] + g + seq![',', ' ', '-', '-'] + o.name + g
        } else {
            seq!['-', c, ',', ' ', '-', '-'] + o.name + g
        },
        None => seq!['-', '-'] + o.name + g,
    }
}

/// The width of the first `n` options' flags, at least that of the help flags.
pub open spec fn options_width(opts: Seq<OptionInfo>, n: nat, short_values: bool) -> int
    decreases n,
{
    if n == 0 || n > opts.len() {
        10
    } else {
        let o = opts[n - 1];
        let g = compact_option_grammar(o);
        let need = match o.short {
            Some(_) => sat((o.name.len() + g.len() * (if short_values { 2int } else { 1int }) + 6) as int),
            None => sat((o.name.len() + g.len() + 2) as int),
        };
        smax(options_width(opts, (n - 1) as nat, short_values), need)
    }
}

/// The width of the flags column: that of the options, and of the first `n` arguments.
pub open spec fn arguments_width(args: Seq<ArgumentInfo>, n: nat, base: int) -> int
    decreases n,
{
    if n == 0 || n > args.len() {
        base
    } else {
        smax(arguments_width(args, (n - 1) as nat, base), compact_argument_grammar(args[n - 1]).len() as int)
    }
}

/// The width of the flags column.
pub open spec fn compact_width(p: PrinterSpec, short_values: bool) -> int {
    arguments_width(p.arguments, p.arguments.len(), options_width(p.options, p.options.len(), short_values))
}

/// A description after two spaces, or nothing.
pub open spec fn described(d: Option<Seq<char>>) -> Seq<char> {
    match d {
        Some(x) => seq![' ', ' '] + x,
        None => Seq::empty(),
    }
}

/// A row: the flags padded to the column width, then the description.
pub open spec fn compact_row(text: Seq<char>, d: Option<Seq<char>>, width: int) -> Seq<char> {
    seq![' '] + pad_to(text, width as nat) + described(d)
}

/// The usage entries of the first `n` options, each after a space.
pub open spec fn compact_option_summaries(opts: Seq<OptionInfo>, n: nat) -> Seq<char>
    decreases n,
{
    if n == 0 || n > opts.len() {
        Seq::empty()
    } else {
        let o = opts[n - 1];
        let g = compact_option_grammar(o);
        compact_option_summaries(opts, (n - 1) as nat) + seq![' '] + match o.short {
            Some(c) => seq!['[', '-', c] + g + seq![']'],
            None => seq!['[', '-', '-'] + o.name + g + seq![']'],
        }
    }
}

/// The usage entries of the first `n` arguments, each after a space.
pub open spec fn compact_argument_summaries(args: Seq<ArgumentInfo>, n: nat) -> Seq<char>
    decreases n,
{
    if n == 0 || n > args.len() {
        Seq::empty()
    } else {
        compact_argument_summaries(args, (n - 1) as nat) + seq![' '] + compact_argument_grammar(args[n - 1])
    }
}

/// The lines of the compact help message.
pub open spec fn compact_lines(p: PrinterSpec, program: Seq<char>, short_values: bool) -> Seq<Seq<char>> {
    let w = compact_width(p, short_values);
    let usage = "usage: "@ + program + seq![' ', '[', '-', 'h', ']']
        + compact_option_summaries(p.options, p.options.len()) + compact_argument_summaries(p.arguments, p.arguments.len());
    let positional = if p.arguments.len() > 0 {
        seq![Seq::<char>::empty(), "positional arguments:"@]
            + Seq::new(p.arguments.len(), |i: int| compact_row(compact_argument_grammar(p.arguments[i]), p.arguments[i].help, w))
    } else {
        Seq::empty()
    };
    seq![usage] + positional + seq![Seq::<char>::empty(), "options:"@, seq![' '] + pad_to("-h, --help"@, w as nat) + "  Show this help message and exit."@]
        + Seq::new(p.options.len(), |i: int| compact_row(compact_flags(p.options[i], short_values), p.options[i].help, w))
}

/// No name is shared by two of the entries, options and arguments together.
pub open spec fn entry_names_distinct(options: Seq<OptionEntry>, arguments: Seq<ArgumentEntry>) -> bool {
    let names = options.map_values(|e: OptionEntry| e.0@) + arguments.map_values(|e: ArgumentEntry| e.0@);
    forall|i: int, j: int| 0 <= i < j < names.len() ==> names[i] != names[j]
}

/// The name in ASCII upper case.
fn upper_example_of(name: &Vec<char>) -> (r: Vec<char>)
    ensures
        r@ == upper_example(name@),
{
    let mut r: Vec<char> = Vec::new();
    let mut i: usize = 0;
    while i < name.len()
        invariant
            i <= name@.len(),
            r@ == upper_example(name@).take(i as int),
        decreases name.len() - i,
    {
        r.push(crate::text::to_upper_ascii(name[i]));
        i = i + 1;
        assert(r@ =~= upper_example(name@).take(i as int));
    }
    assert(upper_example(name@).take(i as int) =~= upper_example(name@));
    r
}

/// The compact help printer.
pub struct Printer {
    inner: crate::printer::Printer,
}

impl View for Printer {
    type V = PrinterSpec;

    closed spec fn view(&self) -> PrinterSpec {
        self.inner@
    }
}

/// The text of an optional description.
fn description_of(d: Option<&'static str>) -> (r: Option<String>)
    ensures
        crate::printer::opt_text(r) == match d {
            Some(x) => Some(x@),
            None => None::<Seq<char>>,
        },
{
    match d {
        Some(x) => Some(x.to_owned()),
        None => None,
    }
}

impl Printer {
    /// A printer of the given options (shown sorted by name) and arguments (shown in order).
    pub fn new(options: Vec<OptionEntry>, arguments: Vec<ArgumentEntry>) -> (r: Self)
        ensures
            r@.options == sort_options(options@.map_values(|e: OptionEntry| option_entry_info(e))),
            r@.arguments == arguments@.map_values(|e: ArgumentEntry| argument_entry_info(e)),
    {
        let ghost ov = options@.map_values(|e: OptionEntry| option_entry_info(e));
        let ghost av = arguments@.map_values(|e: ArgumentEntry| argument_entry_info(e));
        let mut option_parameters: Vec<OptionParameter> = Vec::new();
        let mut i: usize = 0;
        while i < options.len()
            invariant
                i <= options@.len(),
                ov == options@.map_values(|e: OptionEntry| option_entry_info(e)),
                crate::printer::option_infos(option_parameters@) == ov.take(i as int),
            decreases options.len() - i,
        {
            let e = &options[i];
            let p = OptionParameter::basic(e.0.clone(), e.1, e.2, description_of(e.3), None);
            let ghost before = crate::printer::option_infos(option_parameters@);
            let ghost pv = p@;
            option_parameters.push(p);
            assert(pv == ov[i as int]);
            assert(crate::printer::option_infos(option_parameters@) =~= before.push(pv));
            assert(ov.take(i + 1) =~= ov.take(i as int).push(ov[i as int]));
            i = i + 1;
        }
        assert(ov.take(i as int) =~= ov);
        let mut argument_parameters: Vec<ArgumentParameter> = Vec::new();
        let mut k: usize = 0;
        while k < arguments.len()
            invariant
                k <= arguments@.len(),
                av == arguments@.map_values(|e: ArgumentEntry| argument_entry_info(e)),
                crate::printer::argument_infos(argument_parameters@) == av.take(k as int),
            decreases arguments.len() - k,
        {
            let e = &arguments[k];
            let p = ArgumentParameter::basic(e.0.clone(), e.1, description_of(e.2), None);
            let ghost before = crate::printer::argument_infos(argument_parameters@);
            let ghost pv = p@;
            argument_parameters.push(p);
            assert(pv == av[k as int]);
            assert(crate::printer::argument_infos(argument_parameters@) =~= before.push(pv));
            assert(av.take(k + 1) =~= av.take(k as int).push(av[k as int]));
            k = k + 1;
        }
        assert(av.take(k as int) =~= av);
        Printer { inner: crate::printer::Printer::new(option_parameters, argument_parameters, None) }
    }

    /// A printer with nothing to document.
    pub fn empty() -> (r: Self)
        ensures
            r@.options.len() == 0,
            r@.arguments.len() == 0,
    {
        Printer { inner: crate::printer::Printer::empty() }
    }

    /// The lines of the compact help message for `program`.
    pub fn help_lines(&self, program: &str) -> (r: Vec<String>)
        requires
            crate::printer::names_distinct(self@),
        ensures
            strings_view(r@) == compact_lines(self@, program@, true),
    {
        compact_help_lines(&self.inner, program, true)
    }

    /// Print the compact help message for `program`, line by line.
    pub fn print_help(&self, program: &str, user_interface: &dyn UserInterface)
        requires
            crate::printer::names_distinct(self@),
    {
        let lines = self.help_lines(program);
        let mut i: usize = 0;
        while i < lines.len()
            invariant
                i <= lines@.len(),
            decreases lines.len() - i,
        {
            user_interface.print(lines[i].clone());
            i = i + 1;
        }
    }
}

/// The printer of the given entries: options sorted by name, arguments in order.
pub open spec fn entries_printer(options: Seq<OptionEntry>, arguments: Seq<ArgumentEntry>) -> PrinterSpec {
    PrinterSpec {
        options: sort_options(options.map_values(|e: OptionEntry| option_entry_info(e))),
        arguments: arguments.map_values(|e: ArgumentEntry| argument_entry_info(e)),
        terminal_width: None,
    }
}

/// The lines of the compact help message of `program`'s options (sorted by name) and arguments,
/// where a short flag is shown without its values.
pub fn help_lines_of(program: &str, options: Vec<OptionEntry>, arguments: Vec<ArgumentEntry>) -> (r: Vec<String>)
    requires
        entry_names_distinct(options@, arguments@),
    ensures
        strings_view(r@) == compact_lines(entries_printer(options@, arguments@), program@, false),
{
    let ghost ov = options@;
    let ghost av = arguments@;
    let printer = Printer::new(options, arguments);
    let ghost ps = printer@;
    assert(compact_lines(ps, program@, false) == compact_lines(entries_printer(ov, av), program@, false));
    compact_help_lines(&printer.inner, program, false)
}

/// Print the compact help message of `program`'s options (sorted by name) and arguments, where a
/// short flag is shown without its values: the lines of `help_lines_of`, one by one.
pub fn print_help(program: &str, options: Vec<OptionEntry>, arguments: Vec<ArgumentEntry>, user_interface: &dyn UserInterface)
    requires
        entry_names_distinct(options@, arguments@),
{
    let lines = help_lines_of(program, options, arguments);
    let mut i: usize = 0;
    while i < lines.len()
        invariant
            i <= lines@.len(),
        decreases lines.len() - i,
    {
        user_interface.print(lines[i].clone());
        i = i + 1;
    }
}

/// The flags column width.
fn compact_width_of(p: &crate::printer::Printer, short_values: bool) -> (r: usize)
    ensures
        r == compact_width(p@, short_values),
{
    let opts = p.options();
    let ghost os = p@.options;
    let mut w: usize = 10;
    let mut i: usize = 0;
    while i < opts.len()
        invariant
            i <= opts@.len(),
            os == crate::printer::option_infos(opts@),
            w as int == options_width(os, i as nat, short_values),
        decreases opts.len() - i,
    {
        let o = &opts[i];
        assert(os[i as int] == o@);
        let name = crate::text::chars_of(o.name().as_str());
        let g = option_values_of(&upper_example_of(&name), o.nargs());
        let need = match o.short() {
            Some(_) => {
                let mut n = name.len().saturating_add(g.len());
                if short_values {
                    n = n.saturating_add(g.len());
                }
                n.saturating_add(6)
            },
            None => name.len().saturating_add(g.len()).saturating_add(2),
        };
        if w < need {
            w = need;
        }
        i = i + 1;
    }
    let args = p.arguments();
    let ghost as_ = p@.arguments;
    let ghost base = w as int;
    let mut k: usize = 0;
    while k < args.len()
        invariant
            k <= args@.len(),
            as_ == crate::printer::argument_infos(args@),
            w as int == arguments_width(as_, k as nat, base),
        decreases args.len() - k,
    {
        let a = &args[k];
        assert(as_[k as int] == a@);
        let name = crate::text::chars_of(a.name().as_str());
        let g = argument_values_of(&upper_example_of(&name), a.nargs());
        if w < g.len() {
            w = g.len();
        }
        k = k + 1;
    }
    w
}

/// A row: the flags padded to the column width, then the description.
fn row_of(text: &Vec<char>, d: &Option<String>, width: usize) -> (r: String)
    ensures
        r@ == compact_row(text@, crate::printer::opt_text(*d), width as int),
{
    let mut line: Vec<char> = Vec::new();
    line.push(' ');
    crate::text::append_chars(&mut line, text);
    if text.len() < width {
        crate::text::append_spaces(&mut line, width - text.len());
    }
    match d {
        Some(x) => {
            line.push(' ');
            line.push(' ');
            crate::text::append_str(&mut line, x.as_str());
        },
        None => {},
    }
    assert(line@ =~= compact_row(text@, crate::printer::opt_text(*d), width as int));
    crate::text::string_of(&line)
}

/// The lines of the compact help message.
fn compact_help_lines(p: &crate::printer::Printer, program: &str, short_values: bool) -> (r: Vec<String>)
    ensures
        strings_view(r@) == compact_lines(p@, program@, short_values),
{
    let w = compact_width_of(p, short_values);
    let opts = p.options();
    let args = p.arguments();
    let ghost os = p@.options;
    let ghost as_ = p@.arguments;
    let mut usage = crate::text::chars_of("usage: ");
    crate::text::append_str(&mut usage, program);
    usage.push(' ');
    usage.push('[');
    usage.push('-');
    usage.push('h');
    usage.push(']');
    let ghost head = usage@;
    let mut i: usize = 0;
    while i < opts.len()
        invariant
            i <= opts@.len(),
            os == crate::printer::option_infos(opts@),
            usage@ == head + compact_option_summaries(os, i as nat),
        decreases opts.len() - i,
    {
        let o = &opts[i];
        assert(os[i as int] == o@);
        let name = crate::text::chars_of(o.name().as_str());
        let g = option_values_of(&upper_example_of(&name), o.nargs());
        usage.push(' ');
        usage.push('[');
        usage.push('-');
        match o.short() {
            Some(c) => {
                usage.push(c);
            },
            None => {
                usage.push('-');
                crate::text::append_chars(&mut usage, &name);
            },
        }
        crate::text::append_chars(&mut usage, &g);
        usage.push(']');
        i = i + 1;
        assert(usage@ =~= head + compact_option_summaries(os, i as nat));
    }
    let ghost mid = usage@;
    let mut k: usize = 0;
    while k < args.len()
        invariant
            k <= args@.len(),
            as_ == crate::printer::argument_infos(args@),
            usage@ == mid + compact_argument_summaries(as_, k as nat),
        decreases args.len() - k,
    {
        let a = &args[k];
        assert(as_[k as int] == a@);
        let name = crate::text::chars_of(a.name().as_str());
        let g = argument_values_of(&upper_example_of(&name), a.nargs());
        usage.push(' ');
        crate::text::append_chars(&mut usage, &g);
        k = k + 1;
        assert(usage@ =~= mid + compact_argument_summaries(as_, k as nat));
    }
    let mut out: Vec<String> = Vec::new();
    out.push(crate::text::string_of(&usage));
    let ghost after_usage = strings_view(out@);
    if args.len() > 0 {
        out.push(String::new());
        out.push("positional arguments:".to_owned());
        let ghost head2 = strings_view(out@);
        assert(head2 =~= after_usage + seq![Seq::<char>::empty(), "positional arguments:"@]);
        let mut k: usize = 0;
        while k < args.len()
            invariant
                k <= args@.len(),
                as_ == crate::printer::argument_infos(args@),
                strings_view(out@).len() == head2.len() + k,
                forall|j: int| 0 <= j < head2.len() ==> #[trigger] strings_view(out@)[j] == head2[j],
                forall|j: int| 0 <= j < k ==> #[trigger] strings_view(out@)[head2.len() + j]
                    == compact_row(compact_argument_grammar(as_[j]), as_[j].help, w as int),
            decreases args.len() - k,
        {
            let a = &args[k];
            assert(as_[k as int] == a@);
            let name = crate::text::chars_of(a.name().as_str());
            let g = argument_values_of(&upper_example_of(&name), a.nargs());
            let row = row_of(&g, a.help(), w);
            let ghost before = strings_view(out@);
            out.push(row);
            assert(strings_view(out@) == before.push(row@));
            k = k + 1;
        }
        let ghost target = after_usage + (seq![Seq::<char>::empty(), "positional arguments:"@]
            + Seq::new(as_.len(), |j: int| compact_row(compact_argument_grammar(as_[j]), as_[j].help, w as int)));
        assert(head2.len() == after_usage.len() + 2);
        assert forall|j: int| 0 <= j < target.len() implies #[trigger] strings_view(out@)[j] == target[j] by {
            if j >= head2.len() {
                let t = j - head2.len();
                assert(strings_view(out@)[head2.len() + t] == compact_row(compact_argument_grammar(as_[t]), as_[t].help, w as int));
            }
        }
        assert(strings_view(out@) =~= target);
    } else {
        assert(after_usage =~= after_usage + Seq::<Seq<char>>::empty());
    }
    let ghost after_positional = strings_view(out@);
    out.push(String::new());
    out.push("options:".to_owned());
    let mut help_row = crate::text::chars_of(" ");
    let help_flags = crate::text::chars_of("-h, --help");
    crate::text::append_chars(&mut help_row, &help_flags);
    if help_flags.len() < w {
        crate::text::append_spaces(&mut help_row, w - help_flags.len());
    }
    crate::text::append_str(&mut help_row, "  Show this help message and exit.");
    proof {
        reveal_strlit(" ");
    }
    assert(help_row@ =~= seq![' '] + pad_to("-h, --help"@, w as nat) + "  Show this help message and exit."@);
    out.push(crate::text::string_of(&help_row));
    let ghost head3 = strings_view(out@);
    assert(head3 =~= after_positional + seq![Seq::<char>::empty(), "options:"@, seq![' '] + pad_to("-h, --help"@, w as nat) + "  Show this help message and exit."@]);
    let mut i: usize = 0;
    while i < opts.len()
        invariant
            i <= opts@.len(),
            os == crate::printer::option_infos(opts@),
            strings_view(out@).len() == head3.len() + i,
            forall|j: int| 0 <= j < head3.len() ==> #[trigger] strings_view(out@)[j] == head3[j],
            forall|j: int| 0 <= j < i ==> #[trigger] strings_view(out@)[head3.len() + j]
                == compact_row(compact_flags(os[j], short_values), os[j].help, w as int),
        decreases opts.len() - i,
    {
        let o = &opts[i];
        assert(os[i as int] == o@);
        let name = crate::text::chars_of(o.name().as_str());
        let g = option_values_of(&upper_example_of(&name), o.nargs());
        let mut flags: Vec<char> = Vec::new();
        flags.push('-');
        match o.short() {
            Some(c) => {
                flags.push(c);
                if short_values {
                    crate::text::append_chars(&mut flags, &g);
                }
                flags.push(',');
                flags.push(' ');
                flags.push('-');
                flags.push('-');
                crate::text::append_chars(&mut flags, &name);
                crate::text::append_chars(&mut flags, &g);
            },
            None => {
                flags.push('-');
                crate::text::append_chars(&mut flags, &name);
                crate::text::append_chars(&mut flags, &g);
            },
        }
        assert(flags@ =~= compact_flags(o@, short_values));
        let row = row_of(&flags, o.help(), w);
        let ghost before = strings_view(out@);
        out.push(row);
        assert(strings_view(out@) == before.push(row@));
        i = i + 1;
    }
    let ghost target = compact_lines(p@, program@, short_values);
    assert(head3.len() + os.len() == target.len());
    assert forall|j: int| 0 <= j < target.len() implies #[trigger] strings_view(out@)[j] == target[j] by {
        if j >= head3.len() {
            let t = j - head3.len();
            assert(strings_view(out@)[head3.len() + t] == compact_row(compact_flags(os[t], short_values), os[t].help, w as int));
        }
    }
    assert(strings_view(out@) =~= target);
    out
}

} // verus!
