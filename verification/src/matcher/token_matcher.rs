//! The token matcher: a state machine fed one command line token at a time.
use vstd::prelude::*;
use crate::matcher::api::ArgumentConfig;
use crate::matcher::api::ArgumentSpec;
use crate::matcher::api::Matches;
use crate::matcher::api::OffsetValue;
use crate::matcher::api::OptionConfig;
use crate::matcher::api::OptionSpec;
use crate::matcher::api::tokens_view;
use crate::matcher::model::BufferSpec;
use crate::matcher::model::CloseError;
use crate::matcher::model::CloseErrorSpec;
use crate::matcher::model::MatchBuffer;
use crate::matcher::model::MatchTokens;
use crate::matcher::model::TokensSpec;
use crate::matcher::model::buffer_open;
use crate::matcher::model::close_buffer;
use crate::matcher::model::empty_buffer;
use crate::matcher::model::values_view;
use crate::text::byte_len;
use crate::text::first_index_of;

verus! {

/// The abstract value of a configuration error.
pub enum TokenMatcherErrorSpec {
    DuplicateOption(Seq<char>),
    DuplicateShortOption(char),
}

/// Why a token matcher could not be configured.
#[derive(Debug, PartialEq, Eq)]
pub enum TokenMatcherError {
    /// Two options share a long name.
    DuplicateOption(String),
    /// Two options share a short name.
    DuplicateShortOption(char),
}

impl View for TokenMatcherError {
    type V = TokenMatcherErrorSpec;

    open spec fn view(&self) -> TokenMatcherErrorSpec {
        match self {
            TokenMatcherError::DuplicateOption(n) => TokenMatcherErrorSpec::DuplicateOption(n@),
            TokenMatcherError::DuplicateShortOption(c) => TokenMatcherErrorSpec::DuplicateShortOption(*c),
        }
    }
}

/// The abstract value of a match error.
pub enum MatchErrorSpec {
    Undercomplete(Seq<char>),
    Overcomplete(Seq<char>),
    ArgumentsExhausted,
    InvalidOption(Seq<char>),
    InvalidShortOption(char),
}

/// Why the tokens could not be matched.
#[derive(Debug, PartialEq, Eq)]
pub enum MatchError {
    /// Not enough tokens for the named parameter.
    Undercomplete(String),
    /// Too many tokens for the named parameter.
    Overcomplete(String),
    /// A positional token arrived after every argument was filled.
    ArgumentsExhausted,
    /// An unknown (or already used) long option.
    InvalidOption(String),
    /// An unknown (or already used) short option.
    InvalidShortOption(char),
}

impl View for MatchError {
    type V = MatchErrorSpec;

    open spec fn view(&self) -> MatchErrorSpec {
        match self {
            MatchError::Undercomplete(n) => MatchErrorSpec::Undercomplete(n@),
            MatchError::Overcomplete(n) => MatchErrorSpec::Overcomplete(n@),
            MatchError::ArgumentsExhausted => MatchErrorSpec::ArgumentsExhausted,
            MatchError::InvalidOption(n) => MatchErrorSpec::InvalidOption(n@),
            MatchError::InvalidShortOption(c) => MatchErrorSpec::InvalidShortOption(*c),
        }
    }
}

/// The message of a configuration error.
pub open spec fn matcher_error_message(e: TokenMatcherErrorSpec) -> Seq<char> {
    match e {
        TokenMatcherErrorSpec::DuplicateOption(n) => "Cannot duplicate the option '"@ + n + "'."@,
        TokenMatcherErrorSpec::DuplicateShortOption(c) => "Cannot duplicate the short option '"@ + seq![c] + "'."@,
    }
}

/// The message of a match error.
pub open spec fn match_error_message(e: MatchErrorSpec) -> Seq<char> {
    match e {
        MatchErrorSpec::Undercomplete(n) => "Not enough tokens provided to parameter '"@ + n + "'."@,
        MatchErrorSpec::Overcomplete(n) => "Too many tokens provided to parameter '"@ + n + "'."@,
        MatchErrorSpec::ArgumentsExhausted => "No more arguments to match against."@,
        MatchErrorSpec::InvalidOption(n) => "Option '"@ + n + "' does not exist."@,
        MatchErrorSpec::InvalidShortOption(c) => "Short option '"@ + seq![c] + "' does not exist."@,
    }
}

impl TokenMatcherError {
    /// The error message.
    pub fn to_string(&self) -> (r: String)
        ensures
            r@ == matcher_error_message(self@),
    {
        let mut v: Vec<char>;
        match self {
            TokenMatcherError::DuplicateOption(n) => {
                v = crate::text::chars_of("Cannot duplicate the option '");
                crate::text::append_str(&mut v, n.as_str());
            },
            TokenMatcherError::DuplicateShortOption(c) => {
                v = crate::text::chars_of("Cannot duplicate the short option '");
                v.push(*c);
            },
        }
        crate::text::append_str(&mut v, "'.");
        crate::text::string_of(&v)
    }
}

impl MatchError {
    /// The error message.
    pub fn to_string(&self) -> (r: String)
        ensures
            r@ == match_error_message(self@),
    {
        let mut v: Vec<char>;
        match self {
            MatchError::Undercomplete(n) => {
                v = crate::text::chars_of("Not enough tokens provided to parameter '");
                crate::text::append_str(&mut v, n.as_str());
                crate::text::append_str(&mut v, "'.");
            },
            MatchError::Overcomplete(n) => {
                v = crate::text::chars_of("Too many tokens provided to parameter '");
                crate::text::append_str(&mut v, n.as_str());
                crate::text::append_str(&mut v, "'.");
            },
            MatchError::ArgumentsExhausted => {
                v = crate::text::chars_of("No more arguments to match against.");
            },
            MatchError::InvalidOption(n) => {
                v = crate::text::chars_of("Option '");
                crate::text::append_str(&mut v, n.as_str());
                crate::text::append_str(&mut v, "' does not exist.");
            },
            MatchError::InvalidShortOption(c) => {
                v = crate::text::chars_of("Short option '");
                v.push(*c);
                crate::text::append_str(&mut v, "' does not exist.");
            },
        }
        crate::text::string_of(&v)
    }
}

/// The match error a close error turns into.
pub open spec fn match_error_of(e: CloseErrorSpec) -> MatchErrorSpec {
    match e {
        CloseErrorSpec::TooFewValues { name, .. } => MatchErrorSpec::Undercomplete(name),
        CloseErrorSpec::TooManyValues { name, .. } => MatchErrorSpec::Overcomplete(name),
    }
}

impl MatchError {
    /// The match error a close error turns into.
    pub fn from_close(error: CloseError) -> (r: MatchError)
        ensures
            r@ == match_error_of(error@),
    {
        match error {
            CloseError::TooFewValues { name, .. } => MatchError::Undercomplete(name),
            CloseError::TooManyValues { name, .. } => MatchError::Overcomplete(name),
        }
    }
}

/// The outcome of one step of the matcher.
pub enum Step {
    /// The step succeeded.
    Done,
    /// The step was refused with this error.
    Failed(MatchErrorSpec),
    /// The step cannot be taken: a value for a parameter whose values are complete but cannot
    /// close, or a short name whose option was already taken by its long name.
    Aborts,
}

/// The abstract state of a token matcher.
pub struct MatcherState {
    /// The configured options.
    pub options: Seq<OptionSpec>,
    /// Whether each option may still be matched by its long name.
    pub bound_live: Seq<bool>,
    /// Whether each option may still be matched by its short name.
    pub short_live: Seq<bool>,
    /// The configured arguments, in positional order.
    pub arguments: Seq<ArgumentSpec>,
    /// How many arguments have been started.
    pub next_argument: nat,
    /// The number of bytes fed so far.
    pub fed: nat,
    /// The completed matches, in order of completion.
    pub matches: Seq<TokensSpec>,
    /// The parameter currently collecting values.
    pub buffer: Option<BufferSpec>,
}

/// The index of the first option named `name`, searching from `i`.
pub open spec fn option_index(opts: Seq<OptionSpec>, name: Seq<char>, i: int) -> Option<int>
    decreases opts.len() - i,
{
    if i < 0 || i >= opts.len() {
        None
    } else if opts[i].name == name {
        Some(i)
    } else {
        option_index(opts, name, i + 1)
    }
}

/// The index of the first option with short name `c`, searching from `i`.
pub open spec fn short_index(opts: Seq<OptionSpec>, c: char, i: int) -> Option<int>
    decreases opts.len() - i,
{
    if i < 0 || i >= opts.len() {
        None
    } else if opts[i].short == Some(c) {
        Some(i)
    } else {
        short_index(opts, c, i + 1)
    }
}

/// The first configuration error among the options, checking from `i` onwards.
pub open spec fn config_error(opts: Seq<OptionSpec>, i: int) -> Option<TokenMatcherErrorSpec>
    decreases opts.len() - i,
{
    if i < 0 || i >= opts.len() {
        None
    } else if exists|j: int| 0 <= j < i && opts[j].name == opts[i].name {
        Some(TokenMatcherErrorSpec::DuplicateOption(opts[i].name))
    } else if opts[i].short is Some && exists|j: int| 0 <= j < i && opts[j].short == opts[i].short {
        Some(TokenMatcherErrorSpec::DuplicateShortOption(opts[i].short->0))
    } else {
        config_error(opts, i + 1)
    }
}

/// The state of a freshly configured matcher.
pub open spec fn initial_state(opts: Seq<OptionSpec>, args: Seq<ArgumentSpec>) -> MatcherState {
    MatcherState {
        options: opts,
        bound_live: Seq::new(opts.len(), |i: int| true),
        short_live: Seq::new(opts.len(), |i: int| true),
        arguments: args,
        next_argument: 0,
        fed: 0,
        matches: Seq::empty(),
        buffer: None,
    }
}

/// The state with a different buffer.
pub open spec fn with_buffer(s: MatcherState, b: Option<BufferSpec>) -> MatcherState {
    MatcherState { buffer: b, ..s }
}

/// The state with one more completed match.
pub open spec fn with_match(s: MatcherState, t: TokensSpec) -> MatcherState {
    MatcherState { matches: s.matches.push(t), ..s }
}

/// The buffer with one more value.
pub open spec fn push_value(b: BufferSpec, offset: nat, v: Seq<char>) -> BufferSpec {
    BufferSpec { values: b.values.push((offset, v)), ..b }
}

/// Starting the next positional argument, if there is one.
pub open spec fn spec_next_argument(s: MatcherState) -> Option<(MatcherState, BufferSpec)> {
    if s.next_argument < s.arguments.len() {
        let a = s.arguments[s.next_argument as int];
        Some((MatcherState { next_argument: s.next_argument + 1, ..s }, empty_buffer(a.name, a.bound)))
    } else {
        None
    }
}

/// Matching a positional token.
pub open spec fn spec_match_argument(s: MatcherState, tok: Seq<char>) -> (MatcherState, Step) {
    let s0 = with_buffer(s, None);
    let pick: (MatcherState, Option<BufferSpec>, Step) = match s.buffer {
        Some(b) => if buffer_open(b) {
            (s0, Some(b), Step::Done)
        } else {
            match close_buffer(b) {
                Ok(t) => {
                    let s1 = with_match(s0, t);
                    match spec_next_argument(s1) {
                        Some(p) => (p.0, Some(p.1), Step::Done),
                        None => (s1, None, Step::Failed(MatchErrorSpec::ArgumentsExhausted)),
                    }
                },
                Err(e) => (s0, None, Step::Aborts),
            }
        },
        None => match spec_next_argument(s0) {
            Some(p) => (p.0, Some(p.1), Step::Done),
            None => (s0, None, Step::Failed(MatchErrorSpec::ArgumentsExhausted)),
        },
    };
    if pick.2 is Done && pick.1 is Some {
        (with_buffer(pick.0, Some(push_value(pick.1->0, s.fed, tok))), Step::Done)
    } else {
        (pick.0, pick.2)
    }
}

/// Replacing the buffer, closing the previous one.
pub open spec fn spec_update_buffer(s: MatcherState, next: Option<BufferSpec>) -> (MatcherState, Step) {
    let s1 = with_buffer(s, next);
    match s.buffer {
        None => (s1, Step::Done),
        Some(p) => match close_buffer(p) {
            Ok(t) => (with_match(s1, t), Step::Done),
            Err(e) => (s1, Step::Failed(match_error_of(e))),
        },
    }
}

/// Matching `--name` or `--name=value`.
pub open spec fn spec_match_option(s: MatcherState, name: Seq<char>, val: Option<Seq<char>>) -> (MatcherState, Step) {
    let idx = option_index(s.options, name, 0);
    if idx is Some && s.bound_live[idx->0] {
        let i = idx->0;
        let s1 = MatcherState { bound_live: s.bound_live.update(i, false), ..s };
        let buf = empty_buffer(name, s.options[i].bound);
        match val {
            Some(v) => match close_buffer(push_value(buf, s.fed + byte_len(name) + 3, v)) {
                Ok(t) => spec_update_buffer(with_match(s1, t), None),
                Err(e) => (s1, Step::Failed(match_error_of(e))),
            },
            None => spec_update_buffer(s1, Some(buf)),
        }
    } else {
        (s, Step::Failed(MatchErrorSpec::InvalidOption(name)))
    }
}

/// The effect of one short option character whose option is still available.
pub open spec fn spec_short_one(s: MatcherState, k: int, shorts: Seq<char>, val: Option<Seq<char>>, i: int) -> (MatcherState, Step) {
    let name = s.options[k].name;
    let bound = s.options[k].bound;
    let s1 = MatcherState { bound_live: s.bound_live.update(k, false), ..s };
    if i + 1 == byte_len(shorts) {
        match val {
            Some(v) => match close_buffer(push_value(empty_buffer(name, bound), s.fed + byte_len(shorts) + 2, v)) {
                Ok(t) => (with_match(s1, t), Step::Done),
                Err(e) => (s1, Step::Failed(match_error_of(e))),
            },
            None => spec_update_buffer(s1, Some(empty_buffer(name, bound))),
        }
    } else {
        match close_buffer(empty_buffer(name, bound)) {
            Ok(t) => (with_match(s1, t), Step::Done),
            Err(e) => (s1, Step::Failed(match_error_of(e))),
        }
    }
}

/// Matching the short option characters `shorts[i..]` (from `-abc` or `-abc=value`).
pub open spec fn spec_match_short(s: MatcherState, shorts: Seq<char>, val: Option<Seq<char>>, i: int) -> (MatcherState, Step)
    decreases shorts.len() - i,
{
    if i < 0 || i >= shorts.len() {
        (s, Step::Done)
    } else {
        let c = shorts[i];
        let idx = short_index(s.options, c, 0);
        if idx is Some && s.short_live[idx->0] {
            let k = idx->0;
            if !s.bound_live[k] {
                (s, Step::Aborts)
            } else {
                let r = spec_short_one(s, k, shorts, val, i);
                if r.1 is Done {
                    spec_match_short(MatcherState { short_live: r.0.short_live.update(k, false), ..r.0 }, shorts, val, i + 1)
                } else {
                    r
                }
            }
        } else {
            (s, Step::Failed(MatchErrorSpec::InvalidShortOption(c)))
        }
    }
}

/// Splitting at the first `=`.
pub open spec fn spec_split_eq(t: Seq<char>) -> (Seq<char>, Option<Seq<char>>) {
    match first_index_of(t, '=') {
        Some(k) => (t.take(k), Some(t.skip(k + 1))),
        None => (t, None),
    }
}

/// Whether the token starts with `--`.
pub open spec fn is_long_flag(tok: Seq<char>) -> bool {
    tok.len() >= 2 && tok[0] == '-' && tok[1] == '-'
}

/// Whether the token starts with `-`.
pub open spec fn is_short_flag(tok: Seq<char>) -> bool {
    tok.len() >= 1 && tok[0] == '-'
}

/// Feeding one token to the matcher.
pub open spec fn spec_feed(s: MatcherState, tok: Seq<char>) -> (MatcherState, Step) {
    let r = if is_long_flag(tok) {
        let p = spec_split_eq(tok.skip(2));
        spec_match_option(s, p.0, p.1)
    } else if is_short_flag(tok) {
        let p = spec_split_eq(tok.skip(1));
        spec_match_short(s, p.0, p.1, 0)
    } else {
        spec_match_argument(s, tok)
    };
    (MatcherState { fed: s.fed + byte_len(tok), ..r.0 }, r.1)
}

/// Whether every argument from `k` on may close without values.
pub open spec fn args_can_close(args: Seq<ArgumentSpec>, k: int) -> bool {
    forall|j: int| k <= j < args.len() ==> #[trigger] close_buffer(empty_buffer(args[j].name, args[j].bound)) is Ok
}

/// Whether closing the matcher would succeed.
pub open spec fn spec_can_close(s: MatcherState) -> bool {
    &&& (s.buffer is None || close_buffer(s.buffer->0) is Ok)
    &&& args_can_close(s.arguments, s.next_argument as int)
}

/// Closing the remaining arguments from `k` on, keeping the first error.
pub open spec fn close_args(args: Seq<ArgumentSpec>, k: int, m: Seq<TokensSpec>, err: Option<CloseErrorSpec>) -> (Seq<TokensSpec>, Option<CloseErrorSpec>)
    decreases args.len() - k,
{
    if k < 0 || k >= args.len() {
        (m, err)
    } else {
        match close_buffer(empty_buffer(args[k].name, args[k].bound)) {
            Ok(t) => close_args(args, k + 1, m.push(t), err),
            Err(e) => close_args(args, k + 1, m, if err is None { Some(e) } else { err }),
        }
    }
}

/// What closing the matcher yields: the matches, or the offset, error and partial matches.
pub open spec fn spec_close(s: MatcherState) -> Result<Seq<TokensSpec>, (nat, MatchErrorSpec, Seq<TokensSpec>)> {
    let first: (Seq<TokensSpec>, Option<CloseErrorSpec>) = match s.buffer {
        None => (s.matches, None),
        Some(b) => match close_buffer(b) {
            Ok(t) => (s.matches.push(t), None),
            Err(e) => (s.matches, Some(e)),
        },
    };
    let all = close_args(s.arguments, s.next_argument as int, first.0, first.1);
    match all.1 {
        None => Ok(all.0),
        Some(e) => Err((s.fed, match_error_of(e), all.0)),
    }
}

/// Whether an exec result agrees with a step's outcome.
pub open spec fn agrees(st: Step, r: Result<(), MatchError>) -> bool {
    match r {
        Ok(_) => st is Done,
        Err(e) => st == Step::Failed(e@),
    }
}

/// Matches command line tokens against a configuration of options and arguments.
#[derive(Debug)]
pub struct TokenMatcher {
    options: Vec<OptionConfig>,
    bound_live: Vec<bool>,
    short_live: Vec<bool>,
    arguments: Vec<ArgumentConfig>,
    next_argument: usize,
    fed: usize,
    matches: Vec<MatchTokens>,
    buffer: Option<MatchBuffer>,
}

/// The abstract value of a sequence of option configurations.
pub open spec fn options_view(v: Seq<OptionConfig>) -> Seq<OptionSpec> {
    v.map_values(|o: OptionConfig| o@)
}

/// The abstract value of a sequence of argument configurations.
pub open spec fn arguments_view(v: Seq<ArgumentConfig>) -> Seq<ArgumentSpec> {
    v.map_values(|a: ArgumentConfig| a@)
}

/// The abstract value of an optional buffer.
pub open spec fn buffer_view(b: Option<MatchBuffer>) -> Option<BufferSpec> {
    match b {
        Some(x) => Some(x@),
        None => None,
    }
}

impl View for TokenMatcher {
    type V = MatcherState;

    closed spec fn view(&self) -> MatcherState {
        MatcherState {
            options: options_view(self.options@),
            bound_live: self.bound_live@,
            short_live: self.short_live@,
            arguments: arguments_view(self.arguments@),
            next_argument: self.next_argument as nat,
            fed: self.fed as nat,
            matches: tokens_view(self.matches@),
            buffer: buffer_view(self.buffer),
        }
    }
}

/// The shape that every reachable matcher state has.
pub open spec fn state_wf(s: MatcherState) -> bool {
    &&& s.bound_live.len() == s.options.len()
    &&& s.short_live.len() == s.options.len()
    &&& s.next_argument <= s.arguments.len()
}

/// The name (and value) split out of a flag token are shorter than the token.
proof fn lemma_split_len(tok: Seq<char>, n: int)
    requires
        0 <= n <= tok.len(),
    ensures
        byte_len(spec_split_eq(tok.skip(n)).0) + n <= byte_len(tok),
        spec_split_eq(tok.skip(n)).1 is Some ==> byte_len(spec_split_eq(tok.skip(n)).0) + n + 1 <= byte_len(tok),
{
    let rest = tok.skip(n);
    crate::text::lemma_first_index_from(rest, '=', 0);
    assert(tok =~= tok.take(n) + rest);
    crate::text::lemma_byte_len_concat(tok.take(n), rest);
    crate::text::lemma_byte_len_at_least_len(tok.take(n));
    match first_index_of(rest, '=') {
        Some(k) => {
            assert(rest =~= rest.take(k) + rest.skip(k));
            crate::text::lemma_byte_len_concat(rest.take(k), rest.skip(k));
            crate::text::lemma_byte_len_at_least_len(rest.skip(k));
        },
        None => {},
    }
}

fn split_equals_delimiter(token: &Vec<char>) -> (r: (Vec<char>, Option<Vec<char>>))
    ensures
        r.0@ == spec_split_eq(token@).0,
        match r.1 {
            Some(v) => spec_split_eq(token@).1 == Some(v@),
            None => spec_split_eq(token@).1 is None,
        },
{
    match crate::text::find_char(token, '=') {
        Some(k) => {
            let n = crate::text::sub_chars(token, 0, k);
            let v = crate::text::sub_chars(token, k + 1, token.len());
            assert(n@ =~= token@.take(k as int));
            assert(v@ =~= token@.skip(k + 1));
            (n, Some(v))
        },
        None => {
            let n = crate::text::sub_chars(token, 0, token.len());
            assert(n@ =~= token@);
            (n, None)
        },
    }
}

impl TokenMatcher {
    /// The matcher's invariant.
    pub closed spec fn wf(&self) -> bool {
        &&& state_wf(self@)
        &&& self.options@.len() == self.bound_live@.len()
    }

    /// Configure a matcher; options must not share long or short names.
    pub fn new(options: Vec<OptionConfig>, arguments: Vec<ArgumentConfig>) -> (r: Result<Self, TokenMatcherError>)
        ensures
            match r {
                Ok(m) => {
                    &&& config_error(options_view(options@), 0) is None
                    &&& m.wf()
                    &&& m@ == initial_state(options_view(options@), arguments_view(arguments@))
                },
                Err(e) => config_error(options_view(options@), 0) == Some(e@),
            },
    {
        let ghost opts = options_view(options@);
        let mut i: usize = 0;
        while i < options.len()
            invariant
                i <= options.len(),
                opts == options_view(options@),
                config_error(opts, 0) == config_error(opts, i as int),
            decreases options.len() - i,
        {
            let mut j: usize = 0;
            while j < i
                invariant
                    i < options.len(),
                    j <= i,
                    opts == options_view(options@),
                    config_error(opts, 0) == config_error(opts, i as int),
                    forall|k: int| 0 <= k < j ==> opts[k].name != opts[i as int].name,
                decreases i - j,
            {
                if options[j].name == options[i].name {
                    let e = TokenMatcherError::DuplicateOption(options[i].name.clone());
                    assert(opts[j as int].name == opts[i as int].name);
                    assert(config_error(opts, i as int) == Some(e@));
                    return Err(e);
                }
                j = j + 1;
            }
            if let Some(c) = options[i].short {
                let mut j: usize = 0;
                while j < i
                    invariant
                        i < options.len(),
                        j <= i,
                        opts == options_view(options@),
                        config_error(opts, 0) == config_error(opts, i as int),
                        opts[i as int].short == Some(c),
                        forall|k: int| 0 <= k < j ==> opts[k].short != Some(c),
                        forall|k: int| 0 <= k < i ==> opts[k].name != opts[i as int].name,
                    decreases i - j,
                {
                    if options[j].short == Some(c) {
                        assert(opts[j as int].short == opts[i as int].short);
                        assert(!exists|k: int| 0 <= k < i && opts[k].name == opts[i as int].name);
                        assert(config_error(opts, i as int) == Some(TokenMatcherErrorSpec::DuplicateShortOption(c)));
                        return Err(TokenMatcherError::DuplicateShortOption(c));
                    }
                    j = j + 1;
                }
            }
            assert(!exists|k: int| 0 <= k < i && opts[k].name == opts[i as int].name);
            assert(!(opts[i as int].short is Some && exists|k: int| 0 <= k < i && opts[k].short == opts[i as int].short));
            i = i + 1;
        }
        let n = options.len();
        let mut bound_live: Vec<bool> = Vec::new();
        let mut short_live: Vec<bool> = Vec::new();
        let mut k: usize = 0;
        while k < n
            invariant
                k <= n,
                bound_live@ == Seq::new(k as nat, |x: int| true),
                short_live@ == Seq::new(k as nat, |x: int| true),
            decreases n - k,
        {
            bound_live.push(true);
            short_live.push(true);
            k = k + 1;
            assert(bound_live@ =~= Seq::new(k as nat, |x: int| true));
            assert(short_live@ =~= Seq::new(k as nat, |x: int| true));
        }
        let m = TokenMatcher {
            options,
            bound_live,
            short_live,
            arguments,
            next_argument: 0,
            fed: 0,
            matches: Vec::new(),
            buffer: None,
        };
        assert(m@.matches =~= Seq::<TokensSpec>::empty());
        assert(m@ == initial_state(opts, m@.arguments));
        Ok(m)
    }
}


impl TokenMatcher {
    /// A matcher of a single option and no arguments (a single option cannot clash).
    pub fn single(option: OptionConfig) -> (r: Self)
        ensures
            r.wf(),
            r@ == initial_state(seq![option@], Seq::empty()),
    {
        let ghost ov = option@;
        let mut options: Vec<OptionConfig> = Vec::new();
        options.push(option);
        let mut bound_live: Vec<bool> = Vec::new();
        bound_live.push(true);
        let mut short_live: Vec<bool> = Vec::new();
        short_live.push(true);
        let m = TokenMatcher {
            options,
            bound_live,
            short_live,
            arguments: Vec::new(),
            next_argument: 0,
            fed: 0,
            matches: Vec::new(),
            buffer: None,
        };
        assert(m@.options =~= seq![ov]);
        assert(m@.arguments =~= Seq::<ArgumentSpec>::empty());
        assert(m@.matches =~= Seq::<TokensSpec>::empty());
        assert(m@.bound_live =~= Seq::new(1, |i: int| true));
        assert(m@.short_live =~= Seq::new(1, |i: int| true));
        m
    }

    fn find_option(&self, name: &String) -> (r: Option<usize>)
        ensures
            match r {
                Some(i) => option_index(self@.options, name@, 0) == Some(i as int) && i < self.options@.len(),
                None => option_index(self@.options, name@, 0) is None,
            },
    {
        let mut i: usize = 0;
        while i < self.options.len()
            invariant
                i <= self.options@.len(),
                option_index(self@.options, name@, 0) == option_index(self@.options, name@, i as int),
            decreases self.options.len() - i,
        {
            if self.options[i].name == *name {
                return Some(i);
            }
            i = i + 1;
        }
        None
    }

    fn find_short(&self, c: char) -> (r: Option<usize>)
        ensures
            match r {
                Some(i) => short_index(self@.options, c, 0) == Some(i as int) && i < self.options@.len(),
                None => short_index(self@.options, c, 0) is None,
            },
    {
        let mut i: usize = 0;
        while i < self.options.len()
            invariant
                i <= self.options@.len(),
                short_index(self@.options, c, 0) == short_index(self@.options, c, i as int),
            decreases self.options.len() - i,
        {
            if self.options[i].short == Some(c) {
                return Some(i);
            }
            i = i + 1;
        }
        None
    }

    fn next_argument(&mut self) -> (r: Option<MatchBuffer>)
        requires
            old(self).wf(),
        ensures
            final(self)@.fed == old(self)@.fed,
            final(self).wf(),
            match spec_next_argument(old(self)@) {
                Some(p) => r matches Some(b) && b@ == p.1 && final(self)@ == p.0,
                None => r is None && final(self)@ == old(self)@,
            },
    {
        if self.next_argument < self.arguments.len() {
            let name = self.arguments[self.next_argument].name.clone();
            let bound = self.arguments[self.next_argument].bound;
            let b = MatchBuffer::new(name, bound);
            self.next_argument = self.next_argument + 1;
            Some(b)
        } else {
            None
        }
    }

    fn push_match(&mut self, t: MatchTokens)
        requires
            old(self).wf(),
        ensures
            final(self)@.fed == old(self)@.fed,
            final(self).wf(),
            final(self)@ == with_match(old(self)@, t@),
    {
        let ghost tv = t@;
        self.matches.push(t);
        assert(tokens_view(self.matches@) =~= tokens_view(old(self).matches@).push(tv));
    }

    fn update_buffer(&mut self, next: Option<MatchBuffer>) -> (r: Result<(), MatchError>)
        requires
            old(self).wf(),
        ensures
            final(self)@.fed == old(self)@.fed,
            final(self).wf(),
            final(self)@ == spec_update_buffer(old(self)@, buffer_view(next)).0,
            agrees(spec_update_buffer(old(self)@, buffer_view(next)).1, r),
    {
        let prev = self.buffer.take();
        self.buffer = next;
        match prev {
            Some(b) => match b.close() {
                Ok(t) => {
                    self.push_match(t);
                    Ok(())
                },
                Err(e) => Err(MatchError::from_close(e)),
            },
            None => Ok(()),
        }
    }

    fn match_argument(&mut self, token: String) -> (r: Result<(), MatchError>)
        requires
            old(self).wf(),
            !(spec_match_argument(old(self)@, token@).1 is Aborts),
        ensures
            final(self)@.fed == old(self)@.fed,
            final(self).wf(),
            final(self)@ == spec_match_argument(old(self)@, token@).0,
            agrees(spec_match_argument(old(self)@, token@).1, r),
    {
        let ghost s = self@;
        let taken = self.buffer.take();
        let mut match_buffer = match taken {
            Some(b) => {
                if b.is_open() {
                    b
                } else {
                    match b.close() {
                        Ok(t) => {
                            self.push_match(t);
                            match self.next_argument() {
                                Some(nb) => nb,
                                None => {
                                    return Err(MatchError::ArgumentsExhausted);
                                },
                            }
                        },
                        Err(e) => {
                            return Err(MatchError::from_close(e));
                        },
                    }
                }
            },
            None => match self.next_argument() {
                Some(nb) => nb,
                None => {
                    return Err(MatchError::ArgumentsExhausted);
                },
            },
        };
        match_buffer.push(self.fed, token);
        self.buffer = Some(match_buffer);
        Ok(())
    }

    fn match_option(&mut self, option_name: Vec<char>, single_argument: Option<Vec<char>>) -> (r: Result<(), MatchError>)
        requires
            old(self).wf(),
            single_argument is Some ==> old(self)@.fed + byte_len(option_name@) + 3 <= usize::MAX,
        ensures
            final(self)@.fed == old(self)@.fed,
            final(self).wf(),
            final(self)@ == spec_match_option(old(self)@, option_name@, match single_argument { Some(v) => Some(v@), None => None }).0,
            agrees(spec_match_option(old(self)@, option_name@, match single_argument { Some(v) => Some(v@), None => None }).1, r),
    {
        let name = crate::text::string_of(&option_name);
        match self.find_option(&name) {
            Some(i) => {
                if self.bound_live[i] {
                    self.bound_live.set(i, false);
                    let bound = self.options[i].bound;
                    let mut match_buffer = MatchBuffer::new(name, bound);
                    match single_argument {
                        Some(value) => {
                            let name_length = crate::text::utf8_len(&option_name);
                            match_buffer.push(self.fed + name_length + 3, crate::text::string_of(&value));
                            match match_buffer.close() {
                                Ok(t) => {
                                    self.push_match(t);
                                    self.update_buffer(None)
                                },
                                Err(e) => Err(MatchError::from_close(e)),
                            }
                        },
                        None => self.update_buffer(Some(match_buffer)),
                    }
                } else {
                    Err(MatchError::InvalidOption(name))
                }
            },
            None => Err(MatchError::InvalidOption(name)),
        }
    }
}


/// The abstract value of an optional character sequence.
pub open spec fn opt_chars(v: Option<Vec<char>>) -> Option<Seq<char>> {
    match v {
        Some(x) => Some(x@),
        None => None,
    }
}

/// The abstract value of an optional close error.
pub open spec fn opt_close_error(e: Option<CloseError>) -> Option<CloseErrorSpec> {
    match e {
        Some(x) => Some(x@),
        None => None,
    }
}

impl TokenMatcher {
    fn match_short_one(&mut self, k: usize, i: usize, total: usize, shorts: &Vec<char>, single_argument: &Option<Vec<char>>) -> (r: Result<(), MatchError>)
        requires
            old(self).wf(),
            k < old(self)@.options.len(),
            i < total,
            total == byte_len(shorts@),
            opt_chars(*single_argument) is Some && i + 1 == total ==> old(self)@.fed + total + 2 <= usize::MAX,
        ensures
            final(self)@.fed == old(self)@.fed,
            final(self).wf(),
            final(self)@ == spec_short_one(old(self)@, k as int, shorts@, opt_chars(*single_argument), i as int).0,
            agrees(spec_short_one(old(self)@, k as int, shorts@, opt_chars(*single_argument), i as int).1, r),
    {
        self.bound_live.set(k, false);
        let name = self.options[k].name.clone();
        let bound = self.options[k].bound;
        if i + 1 == total {
            let mut match_buffer = MatchBuffer::new(name, bound);
            match single_argument {
                Some(value) => {
                    match_buffer.push(self.fed + total + 2, crate::text::string_of(value));
                    match match_buffer.close() {
                        Ok(t) => {
                            self.push_match(t);
                            Ok(())
                        },
                        Err(e) => Err(MatchError::from_close(e)),
                    }
                },
                None => self.update_buffer(Some(match_buffer)),
            }
        } else {
            let empty = MatchBuffer::new(name, bound);
            match empty.close() {
                Ok(t) => {
                    self.push_match(t);
                    Ok(())
                },
                Err(e) => Err(MatchError::from_close(e)),
            }
        }
    }

    fn match_option_short(&mut self, shorts: Vec<char>, single_argument: Option<Vec<char>>) -> (r: Result<(), MatchError>)
        requires
            old(self).wf(),
            !(spec_match_short(old(self)@, shorts@, opt_chars(single_argument), 0).1 is Aborts),
            byte_len(shorts@) <= usize::MAX,
            single_argument is Some ==> old(self)@.fed + byte_len(shorts@) + 2 <= usize::MAX,
        ensures
            final(self)@.fed == old(self)@.fed,
            final(self).wf(),
            final(self)@ == spec_match_short(old(self)@, shorts@, opt_chars(single_argument), 0).0,
            agrees(spec_match_short(old(self)@, shorts@, opt_chars(single_argument), 0).1, r),
    {
        let ghost val = opt_chars(single_argument);
        let ghost goal = spec_match_short(self@, shorts@, val, 0);
        let total = crate::text::utf8_len(&shorts);
        proof {
            crate::text::lemma_byte_len_at_least_len(shorts@);
        }
        let mut i: usize = 0;
        while i < shorts.len()
            invariant
                self.wf(),
                i <= shorts.len(),
                shorts@.len() <= total,
                total == byte_len(shorts@),
                val == opt_chars(single_argument),
                goal == spec_match_short(self@, shorts@, val, i as int),
                goal == spec_match_short(old(self)@, shorts@, opt_chars(single_argument), 0),
                !(goal.1 is Aborts),
                self@.fed == old(self)@.fed,
                single_argument is Some ==> old(self)@.fed + byte_len(shorts@) + 2 <= usize::MAX,
            decreases shorts.len() - i,
        {
            let c = shorts[i];
            let found = self.find_short(c);
            match found {
                Some(k) => {
                    if !self.short_live[k] {
                        assert(goal == (self@, Step::Failed(MatchErrorSpec::InvalidShortOption(c))));
                        return Err(MatchError::InvalidShortOption(c));
                    }
                    if !self.bound_live[k] {
                        assert(goal == (self@, Step::Aborts));
                        return Err(MatchError::InvalidShortOption(c));
                    }
                    let ghost before = self@;
                    let step = self.match_short_one(k, i, total, &shorts, &single_argument);
                    if let Err(e) = step {
                        return Err(e);
                    }
                    self.short_live.set(k, false);
                },
                None => {
                    assert(goal == (self@, Step::Failed(MatchErrorSpec::InvalidShortOption(c))));
                    return Err(MatchError::InvalidShortOption(c));
                },
            }
            i = i + 1;
        }
        Ok(())
    }

    fn feed_long(&mut self, chars: &Vec<char>) -> (r: Result<(), MatchError>)
        requires
            old(self).wf(),
            is_long_flag(chars@),
            old(self)@.fed + byte_len(chars@) <= usize::MAX,
        ensures
            final(self)@.fed == old(self)@.fed,
            final(self).wf(),
            final(self)@ == spec_match_option(old(self)@, spec_split_eq(chars@.skip(2)).0, spec_split_eq(chars@.skip(2)).1).0,
            agrees(spec_match_option(old(self)@, spec_split_eq(chars@.skip(2)).0, spec_split_eq(chars@.skip(2)).1).1, r),
    {
        let rest = crate::text::sub_chars(chars, 2, chars.len());
        let (option_name, single_argument) = split_equals_delimiter(&rest);
        proof {
            lemma_split_len(chars@, 2);
        }
        self.match_option(option_name, single_argument)
    }

    fn feed_short(&mut self, chars: &Vec<char>) -> (r: Result<(), MatchError>)
        requires
            old(self).wf(),
            !(spec_match_short(old(self)@, spec_split_eq(chars@.skip(1)).0, spec_split_eq(chars@.skip(1)).1, 0).1 is Aborts),
            is_short_flag(chars@),
            old(self)@.fed + byte_len(chars@) <= usize::MAX,
        ensures
            final(self)@.fed == old(self)@.fed,
            final(self).wf(),
            final(self)@ == spec_match_short(old(self)@, spec_split_eq(chars@.skip(1)).0, spec_split_eq(chars@.skip(1)).1, 0).0,
            agrees(spec_match_short(old(self)@, spec_split_eq(chars@.skip(1)).0, spec_split_eq(chars@.skip(1)).1, 0).1, r),
    {
        let rest = crate::text::sub_chars(chars, 1, chars.len());
        let (shorts, single_argument) = split_equals_delimiter(&rest);
        proof {
            lemma_split_len(chars@, 1);
            assert(opt_chars(single_argument) == spec_split_eq(chars@.skip(1)).1);
        }
        self.match_option_short(shorts, single_argument)
    }

    /// Feed one token.
    ///
    /// A token `--name` or `--name=value` selects the option `name`; a token `-abc` or `-abc=value`
    /// selects the options with short names `a`, `b` and `c`, where only the last may take values;
    /// any other token is a value for the open option, or for the current positional argument.
    pub fn feed(&mut self, token: &str) -> (r: Result<(), MatchError>)
        requires
            old(self).wf(),
            !(spec_feed(old(self)@, token@).1 is Aborts),
            old(self)@.fed + byte_len(token@) <= usize::MAX,
        ensures
            final(self).wf(),
            final(self)@ == spec_feed(old(self)@, token@).0,
            agrees(spec_feed(old(self)@, token@).1, r),
    {
        let token_length = token.len();
        let chars = crate::text::chars_of(token);
        let result = if chars.len() >= 2 && chars[0] == '-' && chars[1] == '-' {
            self.feed_long(&chars)
        } else if chars.len() >= 1 && chars[0] == '-' {
            self.feed_short(&chars)
        } else {
            self.match_argument(crate::text::string_of(&chars))
        };
        self.fed = self.fed + token_length;
        result
    }

    /// The number of bytes fed so far.
    pub fn fed(&self) -> (r: usize)
        ensures
            r == self@.fed,
    {
        self.fed
    }

    /// Whether closing now would succeed.
    pub fn can_close(&self) -> (r: bool)
        requires
            self.wf(),
        ensures
            r == spec_can_close(self@),
    {
        if let Some(b) = &self.buffer {
            if !b.can_close() {
                return false;
            }
        }
        let mut k = self.next_argument;
        while k < self.arguments.len()
            invariant
                self.wf(),
                self.next_argument <= k <= self.arguments@.len(),
                forall|j: int| self.next_argument <= j < k ==> #[trigger] close_buffer(empty_buffer(self@.arguments[j].name, self@.arguments[j].bound)) is Ok,
            decreases self.arguments.len() - k,
        {
            let b = MatchBuffer::new(self.arguments[k].name.clone(), self.arguments[k].bound);
            if !b.can_close() {
                proof {
                    assert(self@.arguments[k as int] == self.arguments@[k as int]@);
                    assert(b@ == empty_buffer(self@.arguments[k as int].name, self@.arguments[k as int].bound));
                    assert(close_buffer(empty_buffer(self@.arguments[k as int].name, self@.arguments[k as int].bound)) is Err);
                    assert(!args_can_close(self@.arguments, self@.next_argument as int));
                }
                return false;
            }
            k = k + 1;
        }
        true
    }

    /// Close the matcher: close the open parameter and every argument not yet started.
    ///
    /// On error, the offset is the number of bytes fed, the error is the first one found,
    /// and the matches are those that did close.
    pub fn close(self) -> (r: Result<Matches, (usize, MatchError, Matches)>)
        requires
            self.wf(),
        ensures
            r is Ok <==> spec_close(self@) is Ok,
            r matches Ok(m) ==> spec_close(self@) == Ok::<Seq<TokensSpec>, (nat, MatchErrorSpec, Seq<TokensSpec>)>(m@),
            r matches Err(x) ==> spec_close(self@) == Err::<Seq<TokensSpec>, (nat, MatchErrorSpec, Seq<TokensSpec>)>((x.0 as nat, x.1@, x.2@)),
    {
        let ghost s = self@;
        let TokenMatcher { options: _, bound_live: _, short_live: _, arguments, next_argument, fed, mut matches, buffer } = self;
        let mut close_error: Option<CloseError> = None;
        match buffer {
            Some(b) => match b.close() {
                Ok(t) => {
                    let ghost tv = t@;
                    matches.push(t);
                    assert(tokens_view(matches@) =~= s.matches.push(tv));
                },
                Err(e) => {
                    close_error = Some(e);
                },
            },
            None => {},
        }
        let ghost args = arguments_view(arguments@);
        let ghost goal = close_args(args, next_argument as int, tokens_view(matches@), opt_close_error(close_error));
        let mut k = next_argument;
        while k < arguments.len()
            invariant
                next_argument <= k <= arguments@.len(),
                args == arguments_view(arguments@),
                goal == close_args(args, k as int, tokens_view(matches@), opt_close_error(close_error)),
            decreases arguments.len() - k,
        {
            let b = MatchBuffer::new(arguments[k].name.clone(), arguments[k].bound);
            match b.close() {
                Ok(t) => {
                    let ghost before = tokens_view(matches@);
                    let ghost tv = t@;
                    matches.push(t);
                    assert(tokens_view(matches@) =~= before.push(tv));
                },
                Err(e) => {
                    if close_error.is_none() {
                        close_error = Some(e);
                    }
                },
            }
            k = k + 1;
        }
        let m = Matches { values: matches };
        match close_error {
            None => Ok(m),
            Some(e) => Err((fed, MatchError::from_close(e), m)),
        }
    }
}

fn copy_options(v: &Vec<OptionConfig>) -> (r: Vec<OptionConfig>)
    ensures
        options_view(r@) == options_view(v@),
{
    let mut r: Vec<OptionConfig> = Vec::new();
    let mut i: usize = 0;
    while i < v.len()
        invariant
            i <= v@.len(),
            options_view(r@) == options_view(v@).take(i as int),
        decreases v.len() - i,
    {
        let o = OptionConfig::new(v[i].name.clone(), v[i].short, v[i].bound);
        let ghost before = options_view(r@);
        let ghost ov = o@;
        r.push(o);
        assert(options_view(r@) =~= before.push(ov));
        assert(options_view(v@).take(i + 1) =~= options_view(v@).take(i as int).push(options_view(v@)[i as int]));
        i = i + 1;
    }
    assert(options_view(v@).take(i as int) =~= options_view(v@));
    r
}

fn copy_arguments(v: &Vec<ArgumentConfig>) -> (r: Vec<ArgumentConfig>)
    ensures
        arguments_view(r@) == arguments_view(v@),
{
    let mut r: Vec<ArgumentConfig> = Vec::new();
    let mut i: usize = 0;
    while i < v.len()
        invariant
            i <= v@.len(),
            arguments_view(r@) == arguments_view(v@).take(i as int),
        decreases v.len() - i,
    {
        let a = ArgumentConfig::new(v[i].name.clone(), v[i].bound);
        let ghost before = arguments_view(r@);
        let ghost av = a@;
        r.push(a);
        assert(arguments_view(r@) =~= before.push(av));
        assert(arguments_view(v@).take(i + 1) =~= arguments_view(v@).take(i as int).push(arguments_view(v@)[i as int]));
        i = i + 1;
    }
    assert(arguments_view(v@).take(i as int) =~= arguments_view(v@));
    r
}

fn copy_flags(v: &Vec<bool>) -> (r: Vec<bool>)
    ensures
        r@ == v@,
{
    let mut r: Vec<bool> = Vec::new();
    let mut i: usize = 0;
    while i < v.len()
        invariant
            i <= v@.len(),
            r@ == v@.take(i as int),
        decreases v.len() - i,
    {
        r.push(v[i]);
        i = i + 1;
        assert(r@ =~= v@.take(i as int));
    }
    assert(v@.take(i as int) =~= v@);
    r
}

fn copy_values(v: &Vec<OffsetValue>) -> (r: Vec<OffsetValue>)
    ensures
        values_view(r@) == values_view(v@),
{
    let mut r: Vec<OffsetValue> = Vec::new();
    let mut i: usize = 0;
    while i < v.len()
        invariant
            i <= v@.len(),
            values_view(r@) == values_view(v@).take(i as int),
        decreases v.len() - i,
    {
        let pair: OffsetValue = (v[i].0, v[i].1.clone());
        let ghost before = values_view(r@);
        let ghost pv = (pair.0 as nat, pair.1@);
        r.push(pair);
        assert(values_view(r@) =~= before.push(pv));
        assert(values_view(v@).take(i + 1) =~= values_view(v@).take(i as int).push(values_view(v@)[i as int]));
        i = i + 1;
    }
    assert(values_view(v@).take(i as int) =~= values_view(v@));
    r
}

fn copy_matches(v: &Vec<MatchTokens>) -> (r: Vec<MatchTokens>)
    ensures
        tokens_view(r@) == tokens_view(v@),
{
    let mut r: Vec<MatchTokens> = Vec::new();
    let mut i: usize = 0;
    while i < v.len()
        invariant
            i <= v@.len(),
            tokens_view(r@) == tokens_view(v@).take(i as int),
        decreases v.len() - i,
    {
        let t = MatchTokens { name: v[i].name.clone(), values: copy_values(&v[i].values) };
        let ghost before = tokens_view(r@);
        let ghost tv = t@;
        r.push(t);
        assert(tokens_view(r@) =~= before.push(tv));
        assert(tokens_view(v@).take(i + 1) =~= tokens_view(v@).take(i as int).push(tokens_view(v@)[i as int]));
        i = i + 1;
    }
    assert(tokens_view(v@).take(i as int) =~= tokens_view(v@));
    r
}

fn copy_buffer(b: &Option<MatchBuffer>) -> (r: Option<MatchBuffer>)
    ensures
        buffer_view(r) == buffer_view(*b),
{
    match b {
        Some(x) => Some(MatchBuffer { name: x.name.clone(), bound: x.bound, values: copy_values(&x.values) }),
        None => None,
    }
}

/// One short option step is taken or refused; it never aborts.
proof fn lemma_short_one_never_aborts(s: MatcherState, k: int, shorts: Seq<char>, val: Option<Seq<char>>, i: int)
    ensures
        !(spec_short_one(s, k, shorts, val, i).1 is Aborts),
{
}

impl TokenMatcher {
    /// A matcher in the same state.
    pub fn replica(&self) -> (r: Self)
        requires
            self.wf(),
        ensures
            r.wf(),
            r@ == self@,
    {
        TokenMatcher {
            options: copy_options(&self.options),
            bound_live: copy_flags(&self.bound_live),
            short_live: copy_flags(&self.short_live),
            arguments: copy_arguments(&self.arguments),
            next_argument: self.next_argument,
            fed: self.fed,
            matches: copy_matches(&self.matches),
            buffer: copy_buffer(&self.buffer),
        }
    }

    /// Whether the token could not be taken at all (`Step::Aborts`), which `feed` must not be
    /// given.
    pub fn aborts_on(&self, token: &str) -> (r: bool)
        requires
            self.wf(),
        ensures
            r == (spec_feed(self@, token@).1 is Aborts),
    {
        let chars = crate::text::chars_of(token);
        if chars.len() >= 2 && chars[0] == '-' && chars[1] == '-' {
            false
        } else if chars.len() >= 1 && chars[0] == '-' {
            let rest = crate::text::sub_chars(&chars, 1, chars.len());
            assert(rest@ =~= token@.skip(1));
            let (shorts, single_argument) = split_equals_delimiter(&rest);
            self.short_cluster_aborts(&shorts, &single_argument)
        } else {
            match &self.buffer {
                Some(b) => !b.is_open() && !b.can_close(),
                None => false,
            }
        }
    }

    fn short_cluster_aborts(&self, shorts: &Vec<char>, single_argument: &Option<Vec<char>>) -> (r: bool)
        requires
            self.wf(),
        ensures
            r == (spec_match_short(self@, shorts@, opt_chars(*single_argument), 0).1 is Aborts),
    {
        let ghost val = opt_chars(*single_argument);
        let ghost goal = spec_match_short(self@, shorts@, val, 0).1 is Aborts;
        let mut bound_live = copy_flags(&self.bound_live);
        let mut short_live = copy_flags(&self.short_live);
        let ghost mut gs = self@;
        let single_bytes = crate::text::is_single_byte(shorts);
        proof {
            crate::text::lemma_byte_len_at_least_len(shorts@);
        }
        let n = shorts.len();
        let mut i: usize = 0;
        while i < n
            invariant
                self.wf(),
                n == shorts@.len(),
                i <= n,
                state_wf(gs),
                gs.options == self@.options,
                gs.bound_live == bound_live@,
                gs.short_live == short_live@,
                val == opt_chars(*single_argument),
                goal == (spec_match_short(gs, shorts@, val, i as int).1 is Aborts),
                goal == (spec_match_short(self@, shorts@, val, 0).1 is Aborts),
                single_bytes == (byte_len(shorts@) == shorts@.len()),
                byte_len(shorts@) >= shorts@.len(),
            decreases n - i,
        {
            let c = shorts[i];
            match self.find_short(c) {
                None => {
                    return false;
                },
                Some(k) => {
                    if !short_live[k] {
                        return false;
                    }
                    if !bound_live[k] {
                        return true;
                    }
                    proof {
                        lemma_short_one_never_aborts(gs, k as int, shorts@, val, i as int);
                    }
                    let last = i + 1 == n && single_bytes;
                    assert(last == (i + 1 == byte_len(shorts@)));
                    if last {
                        proof {
                            let one = spec_short_one(gs, k as int, shorts@, val, i as int);
                            let next = MatcherState { short_live: one.0.short_live.update(k as int, false), ..one.0 };
                            assert(spec_match_short(next, shorts@, val, i + 1).1 is Done);
                        }
                        return false;
                    }
                    let b = MatchBuffer::new(self.options[k].name.clone(), self.options[k].bound);
                    if !b.can_close() {
                        return false;
                    }
                    let ghost one = spec_short_one(gs, k as int, shorts@, val, i as int);
                    bound_live.set(k, false);
                    short_live.set(k, false);
                    proof {
                        gs = MatcherState { short_live: one.0.short_live.update(k as int, false), ..one.0 };
                    }
                },
            }
            i = i + 1;
        }
        false
    }
}

} // verus!
