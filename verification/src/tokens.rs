//! The token parser: matches command line tokens against options, which take up to a limit of
//! values, and arguments, which take a limit or an unlimited number of values.  A cluster of short
//! options (`-vf`) may end in an option that takes the rest of the token as its value (`-vfa`,
//! `-vf=a`).
use vstd::prelude::*;
use crate::matcher::token_matcher::is_long_flag;
use crate::matcher::token_matcher::is_short_flag;
use crate::matcher::token_matcher::spec_split_eq;
use crate::render::strings_view;
use crate::text::char_width;

verus! {

/// How many values a parameter takes.
#[derive(Debug, Clone, Copy, PartialEq, Eq, Hash, Structural)]
pub enum Narg {
    /// Up to this many values (an option), or this many (an argument).
    Limit(usize),
    /// Any number of values, at least one.
    Unlimited,
}

/// The configuration of a positional argument.
#[derive(Debug, Clone)]
pub struct ArgumentConfig {
    pub name: String,
    pub narg: Narg,
}

/// The configuration of an option, which takes up to `limit` values.
#[derive(Debug, Clone, PartialEq, Eq, Hash)]
pub struct OptionConfig {
    pub name: String,
    pub short: Option<char>,
    pub limit: usize,
}

/// A parameter and the values matched to it.
#[derive(Debug, PartialEq, Eq, Hash)]
pub struct Parameter {
    pub name: String,
    pub values: Vec<String>,
}

/// The abstract value of an argument configuration.
pub struct ArgumentSpec {
    pub name: Seq<char>,
    pub narg: Narg,
}

/// The abstract value of an option configuration.
pub struct OptionSpec {
    pub name: Seq<char>,
    pub short: Option<char>,
    pub limit: usize,
}

/// The abstract value of a parameter.
pub struct ParameterSpec {
    pub name: Seq<char>,
    pub values: Seq<Seq<char>>,
}

impl View for ArgumentConfig {
    type V = ArgumentSpec;

    open spec fn view(&self) -> ArgumentSpec {
        ArgumentSpec { name: self.name@, narg: self.narg }
    }
}

impl View for OptionConfig {
    type V = OptionSpec;

    open spec fn view(&self) -> OptionSpec {
        OptionSpec { name: self.name@, short: self.short, limit: self.limit }
    }
}

impl View for Parameter {
    type V = ParameterSpec;

    open spec fn view(&self) -> ParameterSpec {
        ParameterSpec { name: self.name@, values: strings_view(self.values@) }
    }
}

/// The abstract value of the values collected for one parameter.
pub struct BufferSpec {
    pub name: Seq<char>,
    pub narg: Narg,
    pub values: Seq<Seq<char>>,
}

/// No values yet.
pub open spec fn empty_buffer(name: Seq<char>, narg: Narg) -> BufferSpec {
    BufferSpec { name, narg, values: Seq::empty() }
}

/// Whether the buffer takes another value.
pub open spec fn buffer_is_open(b: BufferSpec) -> bool {
    match b.narg {
        Narg::Limit(n) => b.values.len() < n,
        Narg::Unlimited => true,
    }
}

/// The buffer after offering it a value: taken while it is open, ignored otherwise.
pub open spec fn buffer_push(b: BufferSpec, v: Seq<char>) -> BufferSpec {
    if buffer_is_open(b) {
        BufferSpec { values: b.values.push(v), ..b }
    } else {
        b
    }
}

/// The parameter a buffer closes to: a limit of zero takes no value, any other narg at least one.
pub open spec fn buffer_close(b: BufferSpec) -> Option<ParameterSpec> {
    let fits = match b.narg {
        Narg::Limit(n) => if n == 0 { b.values.len() == 0 } else { b.values.len() > 0 },
        Narg::Unlimited => b.values.len() > 0,
    };
    if fits {
        Some(ParameterSpec { name: b.name, values: b.values })
    } else {
        None
    }
}

struct ParameterBuffer {
    name: String,
    narg: Narg,
    values: Vec<String>,
}

impl View for ParameterBuffer {
    type V = BufferSpec;

    closed spec fn view(&self) -> BufferSpec {
        BufferSpec { name: self.name@, narg: self.narg, values: strings_view(self.values@) }
    }
}

impl ParameterBuffer {
    fn new(name: String, narg: Narg) -> (r: Self)
        ensures
            r@ == empty_buffer(name@, narg),
    {
        let r = ParameterBuffer { name, narg, values: Vec::new() };
        assert(r@.values =~= Seq::<Seq<char>>::empty());
        r
    }

    fn is_open(&self) -> (r: bool)
        ensures
            r == buffer_is_open(self@),
    {
        match self.narg {
            Narg::Limit(n) => self.values.len() < n,
            Narg::Unlimited => true,
        }
    }

    fn push(&mut self, value: String) -> (r: Result<(), ()>)
        ensures
            final(self)@ == buffer_push(old(self)@, value@),
            r is Ok == buffer_is_open(old(self)@),
    {
        if self.is_open() {
            let ghost v = value@;
            self.values.push(value);
            assert(strings_view(self.values@) =~= strings_view(old(self).values@).push(v));
            Ok(())
        } else {
            Err(())
        }
    }

    fn close(self) -> (r: Result<Parameter, ()>)
        ensures
            match buffer_close(self@) {
                Some(p) => r matches Ok(q) && q@ == p,
                None => r is Err,
            },
    {
        match self.narg {
            Narg::Limit(0) => {
                if self.values.len() != 0 {
                    return Err(());
                }
            },
            Narg::Unlimited | Narg::Limit(_) => {
                if self.values.len() == 0 {
                    return Err(());
                }
            },
        }
        Ok(Parameter { name: self.name, values: self.values })
    }
}

/// The abstract state of a token parser.
pub struct ParserState {
    /// The option names, each once, and the narg of each.
    pub names: Seq<Seq<char>>,
    pub nargs: Seq<Narg>,
    /// Whether each option may still be matched.
    pub live: Seq<bool>,
    /// The short names, each with the name of its option.
    pub shorts: Seq<char>,
    pub short_names: Seq<Seq<char>>,
    /// Whether each short name may still be matched.
    pub short_live: Seq<bool>,
    /// The arguments, in positional order, and how many have been started.
    pub arguments: Seq<ArgumentSpec>,
    pub next_argument: nat,
    /// The completed parameters, in order of completion.
    pub parameters: Seq<ParameterSpec>,
    /// The parameter collecting values.
    pub buffer: Option<BufferSpec>,
}

/// The first index at or after `i` where `name` occurs.
pub open spec fn name_index(names: Seq<Seq<char>>, name: Seq<char>, i: int) -> Option<int>
    decreases names.len() - i,
{
    if i < 0 || i >= names.len() {
        None
    } else if names[i] == name {
        Some(i)
    } else {
        name_index(names, name, i + 1)
    }
}

/// A found index is in range and names `name`; otherwise no later index does.
pub proof fn lemma_name_index(names: Seq<Seq<char>>, name: Seq<char>, i: int)
    requires
        0 <= i,
    ensures
        name_index(names, name, i) matches Some(k) ==> i <= k < names.len() && names[k] == name,
        name_index(names, name, i) is None ==> forall|j: int| i <= j < names.len() ==> names[j] != name,
    decreases names.len() - i,
{
    if i < names.len() && names[i] != name {
        lemma_name_index(names, name, i + 1);
    }
}

/// The option names of the first `n` configurations, each once, with the narg of the last
/// configuration of that name.
pub open spec fn option_table(opts: Seq<OptionSpec>, n: nat) -> (Seq<Seq<char>>, Seq<Narg>)
    decreases n,
{
    if n == 0 || n > opts.len() {
        (Seq::empty(), Seq::empty())
    } else {
        let t = option_table(opts, (n - 1) as nat);
        let o = opts[n - 1];
        match name_index(t.0, o.name, 0) {
            Some(i) => (t.0, t.1.update(i, Narg::Limit(o.limit))),
            None => (t.0.push(o.name), t.1.push(Narg::Limit(o.limit))),
        }
    }
}

/// The short names of the first `n` configurations, with their option names.
pub open spec fn short_table(opts: Seq<OptionSpec>, n: nat) -> (Seq<char>, Seq<Seq<char>>)
    decreases n,
{
    if n == 0 || n > opts.len() {
        (Seq::empty(), Seq::empty())
    } else {
        let t = short_table(opts, (n - 1) as nat);
        let o = opts[n - 1];
        match o.short {
            Some(c) => (t.0.push(c), t.1.push(o.name)),
            None => t,
        }
    }
}

/// No two configurations share a short name.
pub open spec fn shorts_distinct(opts: Seq<OptionSpec>) -> bool {
    forall|i: int, j: int| 0 <= i < j < opts.len() && opts[i].short is Some ==> opts[i].short != opts[j].short
}

/// The state of a parser configured with `opts` and `args`.
pub open spec fn initial_parser(opts: Seq<OptionSpec>, args: Seq<ArgumentSpec>) -> ParserState {
    let t = option_table(opts, opts.len());
    let u = short_table(opts, opts.len());
    ParserState {
        names: t.0,
        nargs: t.1,
        live: Seq::new(t.0.len(), |i: int| true),
        shorts: u.0,
        short_names: u.1,
        short_live: Seq::new(u.0.len(), |i: int| true),
        arguments: args,
        next_argument: 0,
        parameters: Seq::empty(),
        buffer: None,
    }
}

/// The shape every reachable parser state has.
pub open spec fn parser_wf(s: ParserState) -> bool {
    &&& s.nargs.len() == s.names.len()
    &&& s.live.len() == s.names.len()
    &&& s.short_names.len() == s.shorts.len()
    &&& s.short_live.len() == s.shorts.len()
    &&& s.next_argument <= s.arguments.len()
}

/// The abstract value of a sequence of option configurations.
pub open spec fn options_view(v: Seq<OptionConfig>) -> Seq<OptionSpec> {
    v.map_values(|o: OptionConfig| o@)
}

/// The abstract value of a sequence of argument configurations.
pub open spec fn arguments_view(v: Seq<ArgumentConfig>) -> Seq<ArgumentSpec> {
    v.map_values(|a: ArgumentConfig| a@)
}

/// The abstract value of a sequence of parameters.
pub open spec fn parameters_view(v: Seq<Parameter>) -> Seq<ParameterSpec> {
    v.map_values(|p: Parameter| p@)
}

/// Matches command line tokens against options and arguments.
pub struct TokenParser {
    names: Vec<String>,
    nargs: Vec<Narg>,
    live: Vec<bool>,
    shorts: Vec<char>,
    short_names: Vec<String>,
    short_live: Vec<bool>,
    arguments: Vec<ArgumentConfig>,
    next_argument: usize,
    parameters: Vec<Parameter>,
    buffer: Option<ParameterBuffer>,
}

impl View for TokenParser {
    type V = ParserState;

    closed spec fn view(&self) -> ParserState {
        ParserState {
            names: strings_view(self.names@),
            nargs: self.nargs@,
            live: self.live@,
            shorts: self.shorts@,
            short_names: strings_view(self.short_names@),
            short_live: self.short_live@,
            arguments: arguments_view(self.arguments@),
            next_argument: self.next_argument as nat,
            parameters: parameters_view(self.parameters@),
            buffer: match self.buffer {
                Some(b) => Some(b@),
                None => None,
            },
        }
    }
}

fn find_name(names: &Vec<String>, name: &String) -> (r: Option<usize>)
    ensures
        match r {
            Some(i) => name_index(strings_view(names@), name@, 0) == Some(i as int) && i < names@.len(),
            None => name_index(strings_view(names@), name@, 0) is None,
        },
{
    let ghost v = strings_view(names@);
    let mut i: usize = 0;
    while i < names.len()
        invariant
            i <= names@.len(),
            v == strings_view(names@),
            name_index(v, name@, 0) == name_index(v, name@, i as int),
        decreases names.len() - i,
    {
        if names[i] == *name {
            assert(v[i as int] == name@);
            return Some(i);
        }
        i = i + 1;
    }
    None
}

fn all_true(n: usize) -> (r: Vec<bool>)
    ensures
        r@ == Seq::new(n as nat, |i: int| true),
{
    let mut r: Vec<bool> = Vec::new();
    let mut k: usize = 0;
    while k < n
        invariant
            k <= n,
            r@ == Seq::new(k as nat, |i: int| true),
        decreases n - k,
    {
        r.push(true);
        k = k + 1;
        assert(r@ =~= Seq::new(k as nat, |i: int| true));
    }
    r
}

impl TokenParser {
    /// The parser's invariant.
    pub closed spec fn wf(&self) -> bool {
        parser_wf(self@)
    }

    /// A parser of the given options and arguments; no two options may share a short name.
    pub fn new(options: Vec<OptionConfig>, arguments: Vec<ArgumentConfig>) -> (r: Self)
        requires
            shorts_distinct(options_view(options@)),
        ensures
            r.wf(),
            r@ == initial_parser(options_view(options@), arguments_view(arguments@)),
    {
        let ghost opts = options_view(options@);
        let mut names: Vec<String> = Vec::new();
        let mut nargs: Vec<Narg> = Vec::new();
        let mut shorts: Vec<char> = Vec::new();
        let mut short_names: Vec<String> = Vec::new();
        let mut i: usize = 0;
        while i < options.len()
            invariant
                i <= options@.len(),
                opts == options_view(options@),
                names@.len() == nargs@.len(),
                shorts@.len() == short_names@.len(),
                (strings_view(names@), nargs@) == option_table(opts, i as nat),
                (shorts@, strings_view(short_names@)) == short_table(opts, i as nat),
            decreases options.len() - i,
        {
            let o = &options[i];
            assert(opts[i as int] == o@);
            proof {
                lemma_name_index(strings_view(names@), o.name@, 0);
            }
            match find_name(&names, &o.name) {
                Some(k) => {
                    nargs.set(k, Narg::Limit(o.limit));
                },
                None => {
                    let ghost before = strings_view(names@);
                    names.push(o.name.clone());
                    nargs.push(Narg::Limit(o.limit));
                    assert(strings_view(names@) =~= before.push(o.name@));
                },
            }
            match o.short {
                Some(c) => {
                    let ghost before = strings_view(short_names@);
                    shorts.push(c);
                    short_names.push(o.name.clone());
                    assert(strings_view(short_names@) =~= before.push(o.name@));
                },
                None => {},
            }
            i = i + 1;
        }
        let live = all_true(names.len());
        let short_live = all_true(shorts.len());
        let r = TokenParser {
            names,
            nargs,
            live,
            shorts,
            short_names,
            short_live,
            arguments,
            next_argument: 0,
            parameters: Vec::new(),
            buffer: None,
        };
        assert(r@.parameters =~= Seq::<ParameterSpec>::empty());
        r
    }
}

/// How a step of the parser ends.
pub enum Flow {
    /// The token was taken.
    Done,
    /// The token was refused.
    Refused,
    /// The step cannot be taken: a token with nothing to match it while no parameter is open, or
    /// a short option cluster that would be cut inside a character.
    Aborts,
}

/// The state with one more completed parameter.
pub open spec fn with_parameter(s: ParserState, p: ParameterSpec) -> ParserState {
    ParserState { parameters: s.parameters.push(p), ..s }
}

/// Replacing the buffer, closing the previous one.
pub open spec fn spec_update_buffer(s: ParserState, next: Option<BufferSpec>) -> (ParserState, Flow) {
    let s1 = ParserState { buffer: next, ..s };
    match s.buffer {
        None => (s1, Flow::Done),
        Some(p) => match buffer_close(p) {
            Some(q) => (with_parameter(s1, q), Flow::Done),
            None => (s1, Flow::Refused),
        },
    }
}

/// The next argument's buffer, offered `tok`.
pub open spec fn start_argument(s: ParserState, tok: Seq<char>) -> ParserState {
    let a = s.arguments[s.next_argument as int];
    ParserState {
        next_argument: s.next_argument + 1,
        buffer: Some(buffer_push(empty_buffer(a.name, a.narg), tok)),
        ..s
    }
}

/// Matching a positional token: to the open buffer, else to the next argument.
pub open spec fn spec_match_argument(s: ParserState, tok: Seq<char>) -> (ParserState, Flow) {
    let s0 = ParserState { buffer: None, ..s };
    match s.buffer {
        Some(b) => if buffer_is_open(b) {
            (ParserState { buffer: Some(buffer_push(b, tok)), ..s }, Flow::Done)
        } else {
            match buffer_close(b) {
                None => (s0, Flow::Refused),
                Some(p) => {
                    let s1 = with_parameter(s0, p);
                    if s.next_argument < s.arguments.len() {
                        (start_argument(s1, tok), Flow::Done)
                    } else {
                        (s1, Flow::Refused)
                    }
                },
            }
        },
        None => if s.next_argument < s.arguments.len() {
            (start_argument(s, tok), Flow::Done)
        } else {
            (s, Flow::Aborts)
        },
    }
}

/// The index of the option `name`, if it may still be matched.
pub open spec fn live_index(s: ParserState, name: Seq<char>) -> Option<int> {
    match name_index(s.names, name, 0) {
        Some(i) => if s.live[i] {
            Some(i)
        } else {
            None
        },
        None => None,
    }
}

/// The first index at or after `i` of the short name `c`.
pub open spec fn char_index(cs: Seq<char>, c: char, i: int) -> Option<int>
    decreases cs.len() - i,
{
    if i < 0 || i >= cs.len() {
        None
    } else if cs[i] == c {
        Some(i)
    } else {
        char_index(cs, c, i + 1)
    }
}

/// A found index is in range and holds `c`.
pub proof fn lemma_char_index(cs: Seq<char>, c: char, i: int)
    requires
        0 <= i,
    ensures
        char_index(cs, c, i) matches Some(k) ==> i <= k < cs.len() && cs[k] == c,
    decreases cs.len() - i,
{
    if i < cs.len() && cs[i] != c {
        lemma_char_index(cs, c, i + 1);
    }
}

/// The index of the short name `c`, if it may still be matched.
pub open spec fn short_live_index(s: ParserState, c: char) -> Option<int> {
    match char_index(s.shorts, c, 0) {
        Some(j) => if s.short_live[j] {
            Some(j)
        } else {
            None
        },
        None => None,
    }
}

/// Matching `--name` or `--name=value` (`tok` is what follows the dashes).
pub open spec fn spec_match_option(s: ParserState, tok: Seq<char>) -> (ParserState, Flow) {
    let p = spec_split_eq(tok);
    let name = p.0;
    match live_index(s, name) {
        None => (s, Flow::Refused),
        Some(i) => {
            let s1 = ParserState { live: s.live.update(i, false), ..s };
            let b = empty_buffer(name, s.nargs[i]);
            match p.1 {
                Some(v) => if !buffer_is_open(b) {
                    (s1, Flow::Refused)
                } else {
                    match buffer_close(buffer_push(b, v)) {
                        None => (s1, Flow::Refused),
                        Some(q) => spec_update_buffer(with_parameter(s1, q), None),
                    }
                },
                None => spec_update_buffer(s1, Some(b)),
            }
        },
    }
}

/// What is left of `t` after its first `b` bytes, if `b` falls between two characters.
pub open spec fn byte_suffix(t: Seq<char>, b: int) -> Option<Seq<char>>
    decreases t.len(),
{
    if b == 0 {
        Some(t)
    } else if b < 0 || t.len() == 0 {
        None
    } else {
        byte_suffix(t.drop_first(), b - char_width(t[0]))
    }
}

/// Matching the short name `t[k]`, which names option `i` through short entry `j`: the new state,
/// how it ended, and whether it took the rest of the token as its value.
pub open spec fn spec_short_step(s: ParserState, t: Seq<char>, k: int, i: int) -> (ParserState, Flow, bool) {
    let name = s.names[i];
    let narg = s.nargs[i];
    let s1 = ParserState { live: s.live.update(i, false), ..s };
    if narg == Narg::Limit(0) {
        let r = spec_update_buffer(with_parameter(s1, ParameterSpec { name, values: Seq::empty() }), None);
        (r.0, r.1, false)
    } else {
        match byte_suffix(t, k + 1) {
            None => (s1, Flow::Aborts, false),
            Some(rem) => if rem.len() == 0 {
                let r = spec_update_buffer(s1, Some(empty_buffer(name, narg)));
                (r.0, r.1, false)
            } else {
                let v = if rem[0] == '=' {
                    rem.skip(1)
                } else {
                    rem
                };
                let r = spec_update_buffer(with_parameter(s1, ParameterSpec { name, values: seq![v] }), None);
                (r.0, r.1, true)
            },
        }
    }
}

/// Matching the short option cluster `t` (what follows the dash) from its `k`-th character on.
pub open spec fn spec_match_short(s: ParserState, t: Seq<char>, k: int) -> (ParserState, Flow)
    decreases t.len() - k,
{
    if k < 0 || k >= t.len() {
        (s, Flow::Done)
    } else {
        match short_live_index(s, t[k]) {
            None => (s, Flow::Refused),
            Some(j) => match live_index(s, s.short_names[j]) {
                None => (s, Flow::Refused),
                Some(i) => {
                    let step = spec_short_step(s, t, k, i);
                    if !(step.1 is Done) {
                        (step.0, step.1)
                    } else {
                        let s2 = ParserState { short_live: step.0.short_live.update(j, false), ..step.0 };
                        if step.2 {
                            (s2, Flow::Done)
                        } else {
                            spec_match_short(s2, t, k + 1)
                        }
                    }
                },
            },
        }
    }
}

/// Feeding one token to the parser.
pub open spec fn spec_feed(s: ParserState, tok: Seq<char>) -> (ParserState, Flow) {
    if is_long_flag(tok) {
        spec_match_option(s, tok.skip(2))
    } else if is_short_flag(tok) {
        spec_match_short(s, tok.skip(1), 0)
    } else {
        spec_match_argument(s, tok)
    }
}

/// What the parser yields at the end: the parameters, unless the open parameter cannot close or
/// an argument was never started.
pub open spec fn spec_parameters(s: ParserState) -> Option<Seq<ParameterSpec>> {
    let first: Option<Seq<ParameterSpec>> = match s.buffer {
        None => Some(s.parameters),
        Some(b) => match buffer_close(b) {
            Some(p) => Some(s.parameters.push(p)),
            None => None,
        },
    };
    if s.next_argument < s.arguments.len() {
        None
    } else {
        first
    }
}

spec fn opt_buffer(b: Option<ParameterBuffer>) -> Option<BufferSpec> {
    match b {
        Some(x) => Some(x@),
        None => None,
    }
}

fn split_eq(t: &Vec<char>) -> (r: (Vec<char>, Option<Vec<char>>))
    ensures
        r.0@ == spec_split_eq(t@).0,
        match r.1 {
            Some(v) => spec_split_eq(t@).1 == Some(v@),
            None => spec_split_eq(t@).1 is None,
        },
{
    match crate::text::find_char(t, '=') {
        Some(k) => {
            let n = crate::text::sub_chars(t, 0, k);
            let v = crate::text::sub_chars(t, k + 1, t.len());
            assert(n@ =~= t@.take(k as int));
            assert(v@ =~= t@.skip(k + 1));
            (n, Some(v))
        },
        None => {
            let n = crate::text::sub_chars(t, 0, t.len());
            assert(n@ =~= t@);
            (n, None)
        },
    }
}

fn byte_suffix_of(t: &Vec<char>, b: usize) -> (r: Option<Vec<char>>)
    ensures
        match byte_suffix(t@, b as int) {
            Some(x) => r matches Some(y) && y@ == x,
            None => r is None,
        },
{
    let mut i: usize = 0;
    let mut acc: usize = 0;
    assert(t@.skip(0) =~= t@);
    while acc < b && i < t.len()
        invariant
            i <= t@.len(),
            acc <= b,
            byte_suffix(t@, b as int) == byte_suffix(t@.skip(i as int), b - acc),
        decreases t.len() - i,
    {
        let w = crate::text::utf8_width(t[i]);
        assert(t@.skip(i as int).drop_first() =~= t@.skip(i + 1));
        assert(t@.skip(i as int)[0] == t@[i as int]);
        if w > b - acc {
            assert(byte_suffix(t@.skip(i + 1), b - acc - w) is None);
            return None;
        }
        acc = acc + w;
        i = i + 1;
    }
    if acc == b {
        let r = crate::text::sub_chars(t, i, t.len());
        assert(r@ =~= t@.skip(i as int));
        Some(r)
    } else {
        None
    }
}

impl TokenParser {
    fn push_parameter(&mut self, p: Parameter)
        requires
            old(self).wf(),
        ensures
            final(self).wf(),
            final(self)@ == with_parameter(old(self)@, p@),
    {
        let ghost pv = p@;
        self.parameters.push(p);
        assert(parameters_view(self.parameters@) =~= parameters_view(old(self).parameters@).push(pv));
    }

    fn update_buffer(&mut self, next: Option<ParameterBuffer>) -> (r: Result<(), ()>)
        requires
            old(self).wf(),
        ensures
            final(self).wf(),
            final(self)@ == spec_update_buffer(old(self)@, opt_buffer(next)).0,
            r is Ok <==> spec_update_buffer(old(self)@, opt_buffer(next)).1 is Done,
            !(spec_update_buffer(old(self)@, opt_buffer(next)).1 is Aborts),
    {
        let previous = self.buffer.take();
        self.buffer = next;
        match previous {
            Some(b) => match b.close() {
                Ok(p) => {
                    self.push_parameter(p);
                    Ok(())
                },
                Err(_) => Err(()),
            },
            None => Ok(()),
        }
    }

    fn start_argument(&mut self, token: &str)
        requires
            old(self).wf(),
            old(self)@.next_argument < old(self)@.arguments.len(),
        ensures
            final(self).wf(),
            final(self)@ == start_argument(old(self)@, token@),
    {
        assert(self.arguments@.len() == arguments_view(self.arguments@).len());
        let n = self.next_argument;
        assert(n < self.arguments.len());
        let a = &self.arguments[n];
        assert(arguments_view(self.arguments@)[n as int] == a@);
        let mut b = ParameterBuffer::new(a.name.clone(), a.narg);
        let _ = b.push(token.to_owned());
        self.next_argument = n + 1;
        self.buffer = Some(b);
    }

    fn match_argument(&mut self, token: &str) -> (r: Result<(), ()>)
        requires
            old(self).wf(),
            !(spec_match_argument(old(self)@, token@).1 is Aborts),
        ensures
            final(self).wf(),
            final(self)@ == spec_match_argument(old(self)@, token@).0,
            r is Ok <==> spec_match_argument(old(self)@, token@).1 is Done,
    {
        let taken = self.buffer.take();
        match taken {
            Some(mut b) => {
                if b.is_open() {
                    let _ = b.push(token.to_owned());
                    self.buffer = Some(b);
                    Ok(())
                } else {
                    match b.close() {
                        Ok(p) => {
                            self.push_parameter(p);
                            if self.next_argument < self.arguments.len() {
                                self.start_argument(token);
                                Ok(())
                            } else {
                                Err(())
                            }
                        },
                        Err(_) => Err(()),
                    }
                }
            },
            None => {
                self.start_argument(token);
                Ok(())
            },
        }
    }

    fn find_live(&self, name: &String) -> (r: Option<usize>)
        requires
            self.wf(),
        ensures
            match r {
                Some(i) => live_index(self@, name@) == Some(i as int) && i < self@.names.len(),
                None => live_index(self@, name@) is None,
            },
    {
        proof {
            lemma_name_index(self@.names, name@, 0);
        }
        match find_name(&self.names, name) {
            Some(i) => if self.live[i] {
                Some(i)
            } else {
                None
            },
            None => None,
        }
    }

    fn find_short_live(&self, c: char) -> (r: Option<usize>)
        requires
            self.wf(),
        ensures
            match r {
                Some(j) => short_live_index(self@, c) == Some(j as int) && j < self@.shorts.len(),
                None => short_live_index(self@, c) is None,
            },
    {
        let mut j: usize = 0;
        while j < self.shorts.len()
            invariant
                self.wf(),
                j <= self.shorts@.len(),
                char_index(self@.shorts, c, 0) == char_index(self@.shorts, c, j as int),
            decreases self.shorts.len() - j,
        {
            if self.shorts[j] == c {
                if self.short_live[j] {
                    return Some(j);
                } else {
                    return None;
                }
            }
            j = j + 1;
        }
        None
    }

    fn match_option(&mut self, t: &Vec<char>) -> (r: Result<(), ()>)
        requires
            old(self).wf(),
        ensures
            final(self).wf(),
            final(self)@ == spec_match_option(old(self)@, t@).0,
            r is Ok <==> spec_match_option(old(self)@, t@).1 is Done,
            !(spec_match_option(old(self)@, t@).1 is Aborts),
    {
        let (name_chars, value) = split_eq(t);
        let name = crate::text::string_of(&name_chars);
        match self.find_live(&name) {
            None => Err(()),
            Some(i) => {
                assert(self.live@.len() == self@.names.len());
                assert(self.nargs@.len() == self@.names.len());
                let ghost s = self@;
                self.live.set(i, false);
                assert(self@ == ParserState { live: s.live.update(i as int, false), ..s });
                let mut b = ParameterBuffer::new(name, self.nargs[i]);
                match value {
                    Some(v) => {
                        match b.push(crate::text::string_of(&v)) {
                            Ok(()) => {},
                            Err(()) => {
                                return Err(());
                            },
                        }
                        match b.close() {
                            Ok(p) => {
                                self.push_parameter(p);
                                self.update_buffer(None)
                            },
                            Err(_) => Err(()),
                        }
                    },
                    None => self.update_buffer(Some(b)),
                }
            },
        }
    }
}

impl TokenParser {
    fn short_step(&mut self, t: &Vec<char>, k: usize, i: usize) -> (r: Result<bool, ()>)
        requires
            old(self).wf(),
            k < t@.len(),
            i < old(self)@.names.len(),
            !(spec_short_step(old(self)@, t@, k as int, i as int).1 is Aborts),
        ensures
            final(self).wf(),
            final(self)@ == spec_short_step(old(self)@, t@, k as int, i as int).0,
            match r {
                Ok(e) => spec_short_step(old(self)@, t@, k as int, i as int).1 is Done
                    && e == spec_short_step(old(self)@, t@, k as int, i as int).2,
                Err(_) => spec_short_step(old(self)@, t@, k as int, i as int).1 is Refused,
            },
    {
        let ghost s = self@;
        assert(self.names@.len() == self@.names.len());
        let name = self.names[i].clone();
        let narg = self.nargs[i];
        self.live.set(i, false);
        assert(self@ == ParserState { live: s.live.update(i as int, false), ..s });
        if narg == Narg::Limit(0) {
            let p = ParameterBuffer::new(name, narg);
            match p.close() {
                Ok(q) => {
                    assert(q@ == ParameterSpec { name: s.names[i as int], values: Seq::empty() });
                    self.push_parameter(q);
                },
                Err(_) => {
                    return Err(());
                },
            }
            match self.update_buffer(None) {
                Ok(()) => Ok(false),
                Err(()) => Err(()),
            }
        } else {
            let n = t.len();
            assert(k < n);
            match byte_suffix_of(t, k + 1) {
                None => Err(()),
                Some(rem) => {
                    if rem.len() == 0 {
                        match self.update_buffer(Some(ParameterBuffer::new(name, narg))) {
                            Ok(()) => Ok(false),
                            Err(()) => Err(()),
                        }
                    } else {
                        let v = if rem[0] == '=' {
                            crate::text::sub_chars(&rem, 1, rem.len())
                        } else {
                            crate::text::sub_chars(&rem, 0, rem.len())
                        };
                        assert(rem@[0] == '=' ==> v@ =~= rem@.skip(1));
                        assert(rem@[0] != '=' ==> v@ =~= rem@);
                        let mut b = ParameterBuffer::new(name, narg);
                        let _ = b.push(crate::text::string_of(&v));
                        match b.close() {
                            Ok(q) => {
                                assert(q@.values =~= seq![v@]);
                                self.push_parameter(q);
                            },
                            Err(_) => {
                                return Err(());
                            },
                        }
                        match self.update_buffer(None) {
                            Ok(()) => Ok(true),
                            Err(()) => Err(()),
                        }
                    }
                },
            }
        }
    }

    fn match_option_short(&mut self, t: &Vec<char>) -> (r: Result<(), ()>)
        requires
            old(self).wf(),
            !(spec_match_short(old(self)@, t@, 0).1 is Aborts),
        ensures
            final(self).wf(),
            final(self)@ == spec_match_short(old(self)@, t@, 0).0,
            r is Ok <==> spec_match_short(old(self)@, t@, 0).1 is Done,
    {
        let ghost goal = spec_match_short(self@, t@, 0);
        let mut k: usize = 0;
        while k < t.len()
            invariant
                self.wf(),
                k <= t@.len(),
                goal == spec_match_short(self@, t@, k as int),
                goal == spec_match_short(old(self)@, t@, 0),
                !(goal.1 is Aborts),
            decreases t.len() - k,
        {
            let ghost s = self@;
            match self.find_short_live(t[k]) {
                None => {
                    return Err(());
                },
                Some(j) => {
                    assert(self.short_names@.len() == self@.short_names.len());
                    let name = self.short_names[j].clone();
                    match self.find_live(&name) {
                        None => {
                            return Err(());
                        },
                        Some(i) => {
                            match self.short_step(t, k, i) {
                                Err(()) => {
                                    return Err(());
                                },
                                Ok(exhausted) => {
                                    assert(self.short_live@.len() == self@.shorts.len());
                                    let ghost s1 = self@;
                                    self.short_live.set(j, false);
                                    assert(self@ == ParserState { short_live: s1.short_live.update(j as int, false), ..s1 });
                                    if exhausted {
                                        return Ok(());
                                    }
                                },
                            }
                        },
                    }
                },
            }
            k = k + 1;
        }
        Ok(())
    }

    /// Feed the next command line token; the parser refuses it (`Err`) where it does not fit.
    pub fn feed(&mut self, token: &str) -> (r: Result<(), ()>)
        requires
            old(self).wf(),
            !(spec_feed(old(self)@, token@).1 is Aborts),
        ensures
            final(self).wf(),
            final(self)@ == spec_feed(old(self)@, token@).0,
            r is Ok <==> spec_feed(old(self)@, token@).1 is Done,
    {
        let chars = crate::text::chars_of(token);
        if chars.len() >= 2 && chars[0] == '-' && chars[1] == '-' {
            let rest = crate::text::sub_chars(&chars, 2, chars.len());
            assert(rest@ =~= token@.skip(2));
            self.match_option(&rest)
        } else if chars.len() >= 1 && chars[0] == '-' {
            let rest = crate::text::sub_chars(&chars, 1, chars.len());
            assert(rest@ =~= token@.skip(1));
            self.match_option_short(&rest)
        } else {
            self.match_argument(token)
        }
    }

    /// The matched parameters, in order of completion: refused (`Err`) where the open parameter
    /// cannot close or an argument received no value.
    pub fn parameters(self) -> (r: Result<Vec<Parameter>, ()>)
        requires
            self.wf(),
        ensures
            match spec_parameters(self@) {
                Some(ps) => r matches Ok(v) && parameters_view(v@) == ps,
                None => r is Err,
            },
    {
        let ghost s = self@;
        let mut parameters = self.parameters;
        match self.buffer {
            Some(b) => match b.close() {
                Ok(p) => {
                    let ghost pv = p@;
                    parameters.push(p);
                    assert(parameters_view(parameters@) =~= s.parameters.push(pv));
                },
                Err(_) => {
                    return Err(());
                },
            },
            None => {},
        }
        if self.next_argument < self.arguments.len() {
            Err(())
        } else {
            Ok(parameters)
        }
    }
}

fn copy_strings(v: &Vec<String>) -> (r: Vec<String>)
    ensures
        strings_view(r@) == strings_view(v@),
{
    let mut r: Vec<String> = Vec::new();
    let mut i: usize = 0;
    while i < v.len()
        invariant
            i <= v@.len(),
            strings_view(r@) == strings_view(v@).take(i as int),
        decreases v.len() - i,
    {
        let ghost before = strings_view(r@);
        r.push(v[i].clone());
        assert(strings_view(r@) =~= before.push(v@[i as int]@));
        assert(strings_view(v@).take(i + 1) =~= strings_view(v@).take(i as int).push(strings_view(v@)[i as int]));
        i = i + 1;
    }
    assert(strings_view(v@).take(i as int) =~= strings_view(v@));
    r
}

fn copy_copies<T: Copy>(v: &Vec<T>) -> (r: Vec<T>)
    ensures
        r@ == v@,
{
    let mut r: Vec<T> = Vec::new();
    let mut i: usize = 0;
    while i < v.len()
        invariant
            i <= v@.len(),
            r@ == v@.take(i as int),
        decreases v.len() - i,
    {
        r.push(v[i]);
        i = i + 1;
        assert(r@ =~= v@.take(i as int));
    }
    assert(v@.take(i as int) =~= v@);
    r
}

fn copy_argument_configs(v: &Vec<ArgumentConfig>) -> (r: Vec<ArgumentConfig>)
    ensures
        arguments_view(r@) == arguments_view(v@),
{
    let mut r: Vec<ArgumentConfig> = Vec::new();
    let mut i: usize = 0;
    while i < v.len()
        invariant
            i <= v@.len(),
            arguments_view(r@) == arguments_view(v@).take(i as int),
        decreases v.len() - i,
    {
        let a = ArgumentConfig { name: v[i].name.clone(), narg: v[i].narg };
        let ghost before = arguments_view(r@);
        let ghost av = a@;
        r.push(a);
        assert(arguments_view(r@) =~= before.push(av));
        assert(arguments_view(v@).take(i + 1) =~= arguments_view(v@).take(i as int).push(arguments_view(v@)[i as int]));
        i = i + 1;
    }
    assert(arguments_view(v@).take(i as int) =~= arguments_view(v@));
    r
}

fn copy_parameters(v: &Vec<Parameter>) -> (r: Vec<Parameter>)
    ensures
        parameters_view(r@) == parameters_view(v@),
{
    let mut r: Vec<Parameter> = Vec::new();
    let mut i: usize = 0;
    while i < v.len()
        invariant
            i <= v@.len(),
            parameters_view(r@) == parameters_view(v@).take(i as int),
        decreases v.len() - i,
    {
        let p = Parameter { name: v[i].name.clone(), values: copy_strings(&v[i].values) };
        let ghost before = parameters_view(r@);
        let ghost pv = p@;
        r.push(p);
        assert(parameters_view(r@) =~= before.push(pv));
        assert(parameters_view(v@).take(i + 1) =~= parameters_view(v@).take(i as int).push(parameters_view(v@)[i as int]));
        i = i + 1;
    }
    assert(parameters_view(v@).take(i as int) =~= parameters_view(v@));
    r
}

/// Matching `--name` never aborts.
proof fn lemma_match_option_never_aborts(s: ParserState, tok: Seq<char>)
    ensures
        !(spec_match_option(s, tok).1 is Aborts),
{
}

impl TokenParser {
    fn replica(&self) -> (r: Self)
        requires
            self.wf(),
        ensures
            r.wf(),
            r@ == self@,
    {
        let buffer = match &self.buffer {
            Some(b) => Some(ParameterBuffer { name: b.name.clone(), narg: b.narg, values: copy_strings(&b.values) }),
            None => None,
        };
        TokenParser {
            names: copy_strings(&self.names),
            nargs: copy_copies(&self.nargs),
            live: copy_copies(&self.live),
            shorts: copy_copies(&self.shorts),
            short_names: copy_strings(&self.short_names),
            short_live: copy_copies(&self.short_live),
            arguments: copy_argument_configs(&self.arguments),
            next_argument: self.next_argument,
            parameters: copy_parameters(&self.parameters),
            buffer,
        }
    }

    /// Whether the token could not be taken at all (`Flow::Aborts`), which `feed` must not be
    /// given.
    pub fn aborts_on(&self, token: &str) -> (r: bool)
        requires
            self.wf(),
        ensures
            r == (spec_feed(self@, token@).1 is Aborts),
    {
        let chars = crate::text::chars_of(token);
        if chars.len() >= 2 && chars[0] == '-' && chars[1] == '-' {
            proof {
                lemma_match_option_never_aborts(self@, token@.skip(2));
            }
            false
        } else if chars.len() >= 1 && chars[0] == '-' {
            let rest = crate::text::sub_chars(&chars, 1, chars.len());
            assert(rest@ =~= token@.skip(1));
            self.short_cluster_aborts(&rest)
        } else {
            self.buffer.is_none() && self.next_argument >= self.arguments.len()
        }
    }

    fn short_cluster_aborts(&self, t: &Vec<char>) -> (r: bool)
        requires
            self.wf(),
        ensures
            r == (spec_match_short(self@, t@, 0).1 is Aborts),
    {
        let ghost goal = spec_match_short(self@, t@, 0).1 is Aborts;
        let mut p = self.replica();
        let mut k: usize = 0;
        while k < t.len()
            invariant
                p.wf(),
                k <= t@.len(),
                goal == (spec_match_short(p@, t@, k as int).1 is Aborts),
                goal == (spec_match_short(self@, t@, 0).1 is Aborts),
            decreases t.len() - k,
        {
            match p.find_short_live(t[k]) {
                None => {
                    return false;
                },
                Some(j) => {
                    assert(p.short_names@.len() == p@.short_names.len());
                    let name = p.short_names[j].clone();
                    match p.find_live(&name) {
                        None => {
                            return false;
                        },
                        Some(i) => {
                            assert(p.nargs@.len() == p@.names.len());
                            if p.nargs[i] != Narg::Limit(0) {
                                let n = t.len();
                                assert(k < n);
                                if byte_suffix_of(t, k + 1).is_none() {
                                    return true;
                                }
                            }
                            match p.short_step(t, k, i) {
                                Err(()) => {
                                    return false;
                                },
                                Ok(exhausted) => {
                                    assert(p.short_live@.len() == p@.shorts.len());
                                    p.short_live.set(j, false);
                                    if exhausted {
                                        return false;
                                    }
                                },
                            }
                        },
                    }
                },
            }
            k = k + 1;
        }
        false
    }
}

} // verus!
