//! The parser of one command: configuration checks, token matching, and capture of the matched values.
use vstd::prelude::*;
use crate::capture::InvalidCapture;
use crate::capture::capture_message;
use crate::field::capture_token;
use crate::field::conversion_failed;
use crate::field::AnonymousCapturable;
use crate::field::FieldSpec;
use crate::field::capture_state;
use crate::matcher::api::ArgumentConfig;
use crate::matcher::api::ArgumentSpec;
use crate::matcher::api::Bound;
use crate::matcher::api::Matches;
use crate::matcher::api::OffsetValue;
use crate::matcher::api::OptionConfig;
use crate::matcher::api::OptionSpec;
use crate::matcher::api::spec_contains;
use crate::matcher::api::tokens_view;
use crate::matcher::model::TokensSpec;
use crate::matcher::token_matcher::MatchErrorSpec;
use crate::matcher::token_matcher::MatcherState;
use crate::matcher::token_matcher::Step;
use crate::matcher::token_matcher::TokenMatcher;
use crate::matcher::token_matcher::arguments_view;
use crate::matcher::token_matcher::config_error;
use crate::matcher::token_matcher::initial_state;
use crate::matcher::token_matcher::match_error_message;
use crate::matcher::token_matcher::matcher_error_message;
use crate::matcher::token_matcher::options_view;
use crate::matcher::token_matcher::spec_can_close;
use crate::matcher::token_matcher::spec_close;
use crate::matcher::token_matcher::spec_feed;
use crate::render::strings_view;
use crate::text::byte_len;

verus! {

/// Why a parser could not be configured.
#[derive(Debug, PartialEq, Eq)]
pub struct ConfigError(String);

impl View for ConfigError {
    type V = Seq<char>;

    closed spec fn view(&self) -> Seq<char> {
        self.0@
    }
}

impl ConfigError {
    /// The error's message.
    pub fn message(&self) -> (r: &String)
        ensures
            r@ == self@,
    {
        &self.0
    }

    /// The error as displayed: `Config error: ` and the message.
    pub fn to_string(&self) -> (r: String)
        ensures
            r@ == "Config error: "@ + self@,
    {
        let mut v = crate::text::chars_of("Config error: ");
        crate::text::append_str(&mut v, self.0.as_str());
        crate::text::string_of(&v)
    }
}

/// Why the tokens could not be parsed.
#[derive(Debug, PartialEq, Eq)]
pub struct ParseError(String);

impl View for ParseError {
    type V = Seq<char>;

    closed spec fn view(&self) -> Seq<char> {
        self.0@
    }
}

impl ParseError {
    /// A parse error with the given message.
    pub fn new(message: String) -> (r: Self)
        ensures
            r@ == message@,
    {
        ParseError(message)
    }

    /// The error's message.
    pub fn message(&self) -> (r: &String)
        ensures
            r@ == self@,
    {
        &self.0
    }

    /// The error as displayed: `Parse error: ` and the message.
    pub fn to_string(&self) -> (r: String)
        ensures
            r@ == "Parse error: "@ + self@,
    {
        let mut v = crate::text::chars_of("Parse error: ");
        crate::text::append_str(&mut v, self.0.as_str());
        crate::text::string_of(&v)
    }
}

/// What a parser asks of its caller once it has consumed the tokens.
#[derive(Debug, PartialEq, Eq)]
pub enum Action {
    /// Go on: with the sub-command selected by the discriminator (its name, offset and value),
    /// and the tokens not consumed.
    Continue { discriminee: Option<(String, OffsetValue)>, remaining: Vec<String> },
    /// Print the help message.
    PrintHelp,
}

/// The configuration of the help option, which every parser has.
pub open spec fn help_config() -> OptionSpec {
    OptionSpec { name: "help"@, short: Some('h'), bound: Bound::Range(0, 0) }
}

/// The matcher's options: the help option, then the given ones (an exact copy of the help option
/// being dropped).
pub open spec fn matcher_options(opts: Seq<OptionSpec>) -> Seq<OptionSpec>
    decreases opts.len(),
{
    if opts.len() == 0 {
        seq![help_config()]
    } else if opts.last() == help_config() {
        matcher_options(opts.drop_last())
    } else {
        matcher_options(opts.drop_last()).push(opts.last())
    }
}

/// The first name, from position `i` on, that repeats an earlier one.
pub open spec fn duplicate_from(names: Seq<Seq<char>>, i: int) -> Option<Seq<char>>
    decreases names.len() - i,
{
    if i < 0 || i >= names.len() {
        None
    } else if exists|j: int| 0 <= j < i && names[j] == names[i] {
        Some(names[i])
    } else {
        duplicate_from(names, i + 1)
    }
}

/// The message for a repeated parameter name.
pub open spec fn duplicate_message(name: Seq<char>) -> Seq<char> {
    "Cannot duplicate the parameter '"@ + name + "'."@
}

/// The abstract value of option captures: their configurations.
pub open spec fn option_capture_specs<'a>(v: Seq<(OptionConfig, Box<dyn AnonymousCapturable + 'a>)>) -> Seq<OptionSpec> {
    v.map_values(|p: (OptionConfig, Box<dyn AnonymousCapturable + 'a>)| p.0@)
}

/// The abstract value of argument captures: their configurations.
pub open spec fn argument_capture_specs<'a>(v: Seq<(ArgumentConfig, Box<dyn AnonymousCapturable + 'a>)>) -> Seq<ArgumentSpec> {
    v.map_values(|p: (ArgumentConfig, Box<dyn AnonymousCapturable + 'a>)| p.0@)
}

/// The names of the options, then of the arguments.
pub open spec fn parameter_names(opts: Seq<OptionSpec>, args: Seq<ArgumentSpec>) -> Seq<Seq<char>> {
    opts.map_values(|o: OptionSpec| o.name) + args.map_values(|a: ArgumentSpec| a.name)
}

/// The abstract state of a parser.
pub struct ParserSpec {
    pub matcher: MatcherState,
    pub names: Seq<Seq<char>>,
    pub discriminator: Option<Seq<char>>,
    /// For matches, the first matched value (offset and text) that its field does not convert.
    pub unconverted: spec_fn(Seq<TokensSpec>) -> Option<(nat, Seq<char>)>,
    /// Whether every field takes each value that converts (no collection that may refuse one).
    pub accepts_all: bool,
    /// Whether each field has been declared matched.
    pub matched: Seq<bool>,
    /// The values handed to each field, in order.
    pub given: Seq<Seq<Seq<char>>>,
    /// The state of each field, in the order of the names.
    pub fields: Seq<FieldSpec>,
}

/// What configuring a parser yields: the matcher's initial state, or the error message.
pub open spec fn parser_config(opts: Seq<OptionSpec>, args: Seq<ArgumentSpec>) -> Result<MatcherState, Seq<char>> {
    match duplicate_from(parameter_names(opts, args), 0) {
        Some(n) => Err(duplicate_message(n)),
        None => match config_error(matcher_options(opts), 0) {
            Some(e) => Err(matcher_error_message(e)),
            None => Ok(initial_state(matcher_options(opts), args)),
        },
    }
}

/// Whether configuring a parser with these parameters yields the matcher state `m`.
pub open spec fn config_yields(opts: Seq<OptionSpec>, args: Seq<ArgumentSpec>, m: MatcherState) -> bool {
    parser_config(opts, args) == Ok::<MatcherState, Seq<char>>(m)
}

/// Whether configuring a parser with these parameters fails with the message `msg`.
pub open spec fn config_fails(opts: Seq<OptionSpec>, args: Seq<ArgumentSpec>, msg: Seq<char>) -> bool {
    parser_config(opts, args) == Err::<MatcherState, Seq<char>>(msg)
}

/// The outcome of feeding tokens from position `i` on.
pub enum FeedOutcome {
    /// A token was refused: the offset at which it starts and the error.
    Refused(nat, MatchErrorSpec),
    /// Feeding stopped in this state, having consumed this many tokens.
    Stopped(MatcherState, nat),
    /// A token could not be taken at all (see `Step::Aborts`).
    Aborted,
}

/// Feeding `tokens[i..]`; with `minimal`, stopping as soon as the matcher could close.
pub open spec fn feed_from(s: MatcherState, tokens: Seq<Seq<char>>, minimal: bool, i: nat) -> FeedOutcome
    decreases tokens.len() - i,
{
    if i >= tokens.len() {
        FeedOutcome::Stopped(s, i)
    } else {
        let r = spec_feed(s, tokens[i as int]);
        match r.1 {
            Step::Failed(e) => FeedOutcome::Refused(s.fed, e),
            Step::Aborts => FeedOutcome::Aborted,
            Step::Done => if minimal && spec_can_close(r.0) {
                FeedOutcome::Stopped(r.0, i + 1)
            } else {
                feed_from(r.0, tokens, minimal, i + 1)
            },
        }
    }
}

/// Feeding stops after the tokens it started from and before the end.
pub proof fn lemma_feed_consumed(s: MatcherState, tokens: Seq<Seq<char>>, minimal: bool, i: nat)
    requires
        i <= tokens.len(),
    ensures
        feed_from(s, tokens, minimal, i) matches FeedOutcome::Stopped(_, c) ==> i <= c <= tokens.len(),
    decreases tokens.len() - i,
{
    if i < tokens.len() {
        let r = spec_feed(s, tokens[i as int]);
        if r.1 is Done && !(minimal && spec_can_close(r.0)) {
            lemma_feed_consumed(r.0, tokens, minimal, i + 1);
        }
    }
}

/// What matching the tokens comes to.
pub enum MatchOutcome {
    /// An error at an offset, with its message.
    Error(nat, Seq<char>),
    /// The help option was given.
    Help,
    /// The matches, and the number of tokens consumed.
    Matched(Seq<TokensSpec>, nat),
    /// A token could not be taken at all (see `Step::Aborts`).
    Aborted,
}

/// Matching the tokens: feeding them, then closing the matcher; the help option wins over errors
/// found on closing.
pub open spec fn match_outcome(s: MatcherState, tokens: Seq<Seq<char>>, minimal: bool) -> MatchOutcome {
    match feed_from(s, tokens, minimal, 0) {
        FeedOutcome::Refused(o, e) => MatchOutcome::Error(o, match_error_message(e)),
        FeedOutcome::Aborted => MatchOutcome::Aborted,
        FeedOutcome::Stopped(s1, consumed) => match spec_close(s1) {
            Ok(m) => if spec_contains(m, "help"@) {
                MatchOutcome::Help
            } else {
                MatchOutcome::Matched(m, consumed)
            },
            Err(x) => if spec_contains(x.2, "help"@) {
                MatchOutcome::Help
            } else {
                MatchOutcome::Error(x.0, match_error_message(x.1))
            },
        },
    }
}

/// The first value of the first match named `target`, from position `i` on.
pub open spec fn discriminee_from(m: Seq<TokensSpec>, target: Seq<char>, i: int) -> Option<(nat, Seq<char>)>
    decreases m.len() - i,
{
    if i < 0 || i >= m.len() {
        None
    } else if m[i].name == target && m[i].values.len() > 0 {
        Some(m[i].values[0])
    } else {
        discriminee_from(m, target, i + 1)
    }
}

/// The abstract value of a string slice sequence.
pub open spec fn slices_view(v: Seq<&str>) -> Seq<Seq<char>> {
    v.map_values(|s: &str| s@)
}

/// The total number of bytes of the tokens.
pub open spec fn total_bytes(tokens: Seq<Seq<char>>) -> nat
    decreases tokens.len(),
{
    if tokens.len() == 0 {
        0
    } else {
        total_bytes(tokens.drop_last()) + byte_len(tokens.last())
    }
}

/// The names of the captures.
pub open spec fn capture_names<'a>(v: Seq<(String, Box<dyn AnonymousCapturable + 'a>)>) -> Seq<Seq<char>> {
    v.map_values(|p: (String, Box<dyn AnonymousCapturable + 'a>)| p.0@)
}

/// The first of the values, from position `v` on, that the capture at position `k` does not
/// convert.
pub open spec fn unconverted_value<'a>(caps: Seq<(String, Box<dyn AnonymousCapturable + 'a>)>, k: int, values: Seq<(nat, Seq<char>)>, v: int) -> Option<(nat, Seq<char>)>
    decreases values.len() - v,
{
    if v < 0 || v >= values.len() {
        None
    } else if !caps[k].1.spec_converts(values[v].1) {
        Some(values[v])
    } else {
        unconverted_value(caps, k, values, v + 1)
    }
}

/// The first capture, from position `i` on, named `name` that has not taken a match yet.
pub open spec fn free_index(names: Seq<Seq<char>>, used: Seq<bool>, name: Seq<char>, i: int) -> Option<int>
    decreases names.len() - i,
{
    if i < 0 || i >= names.len() {
        None
    } else if names[i] == name && !used[i] {
        Some(i)
    } else {
        free_index(names, used, name, i + 1)
    }
}

/// No capture has taken a match yet.
pub open spec fn none_used(n: nat) -> Seq<bool> {
    Seq::new(n, |i: int| false)
}

/// Capturing the matches from position `q` on, each into the first capture of its name that has
/// not taken one yet (those marked in `used` have): the first value that its capture does not
/// convert.
pub open spec fn unconverted_from<'a>(caps: Seq<(String, Box<dyn AnonymousCapturable + 'a>)>, m: Seq<TokensSpec>, q: int, used: Seq<bool>) -> Option<(nat, Seq<char>)>
    decreases m.len() - q,
{
    if q < 0 || q >= m.len() {
        None
    } else {
        match free_index(capture_names(caps), used, m[q].name, 0) {
            Some(k) => match unconverted_value(caps, k, m[q].values, 0) {
                Some(x) => Some(x),
                None => unconverted_from(caps, m, q + 1, used.update(k, true)),
            },
            None => unconverted_from(caps, m, q + 1, used),
        }
    }
}

/// Capturing the matches: the first value that its capture does not convert.
pub open spec fn unconverted<'a>(caps: Seq<(String, Box<dyn AnonymousCapturable + 'a>)>, m: Seq<TokensSpec>) -> Option<(nat, Seq<char>)> {
    unconverted_from(caps, m, 0, none_used(caps.len()))
}

/// The texts of matched values.
pub open spec fn value_texts(vs: Seq<(nat, Seq<char>)>) -> Seq<Seq<char>> {
    vs.map_values(|p: (nat, Seq<char>)| p.1)
}

/// Handing the matches from position `q` on to the captures named `names`, each match to the
/// first capture of its name that has not taken one yet: which captures have taken a match, and
/// the values each has been handed, in order.
pub open spec fn handed_from(names: Seq<Seq<char>>, m: Seq<TokensSpec>, q: int, used: Seq<bool>, given: Seq<Seq<Seq<char>>>) -> (Seq<bool>, Seq<Seq<Seq<char>>>)
    decreases m.len() - q,
{
    if q < 0 || q >= m.len() {
        (used, given)
    } else {
        match free_index(names, used, m[q].name, 0) {
            Some(k) => handed_from(names, m, q + 1, used.update(k, true), given.update(k, given[k] + value_texts(m[q].values))),
            None => handed_from(names, m, q + 1, used, given),
        }
    }
}

/// Handing all the matches to the captures named `names`: which captures take a match, and the
/// values each is handed, in order.
pub open spec fn handed(names: Seq<Seq<char>>, m: Seq<TokensSpec>) -> (Seq<bool>, Seq<Seq<Seq<char>>>) {
    handed_from(names, m, 0, none_used(names.len()), Seq::new(names.len(), |i: int| Seq::<Seq<char>>::empty()))
}

/// Whether the fields' states `matched` and `given` are those of `before` after handing them
/// the matches `m`: a field is declared matched once it takes a match, and is handed that match's
/// values in order.
pub open spec fn captured(before: ParserSpec, m: Seq<TokensSpec>, matched: Seq<bool>, given: Seq<Seq<Seq<char>>>) -> bool {
    let h = handed(before.names, m);
    &&& matched.len() == before.names.len()
    &&& given.len() == before.names.len()
    &&& forall|k: int| 0 <= k < before.names.len() ==> #[trigger] matched[k] == (before.matched[k] || h.0[k])
    &&& forall|k: int| 0 <= k < before.names.len() ==> #[trigger] given[k] == before.given[k] + h.1[k]
}

/// Putting back the element taken out of a sequence replaces it there.
pub proof fn lemma_remove_insert<A>(s: Seq<A>, i: int, x: A)
    requires
        0 <= i < s.len(),
    ensures
        s.remove(i).insert(i, x) == s.update(i, x),
{
    let rm = s.remove(i);
    assert(rm =~= s.subrange(0, i) + s.subrange(i + 1, s.len() as int));
    assert(rm.len() == s.len() - 1);
    let ins = rm.insert(i, x);
    assert(ins.len() == s.len());
    assert forall|j: int| 0 <= j < s.len() implies #[trigger] ins[j] == s.update(i, x)[j] by {
        if j < i {
            assert(rm[j] == s[j]);
        } else if j > i {
            assert(rm[j - 1] == s[j]);
        }
    }
    assert(ins =~= s.update(i, x));
}

/// Whether every capture takes each value that converts.
pub open spec fn captures_accept_all<'a>(caps: Seq<(String, Box<dyn AnonymousCapturable + 'a>)>) -> bool {
    forall|k: int| 0 <= k < caps.len() ==> (#[trigger] caps[k]).1.spec_accepts_all()
}

/// The states of the captures' fields, in order.
pub open spec fn capture_fields<'a, K>(v: Seq<(K, Box<dyn AnonymousCapturable + 'a>)>) -> Seq<FieldSpec> {
    v.map_values(|p: (K, Box<dyn AnonymousCapturable + 'a>)| capture_state(p))
}

/// The first of the values, from position `v` on, that the field `f` does not convert.
pub open spec fn field_unconverted(f: FieldSpec, values: Seq<(nat, Seq<char>)>, v: int) -> Option<(nat, Seq<char>)>
    decreases values.len() - v,
{
    if v < 0 || v >= values.len() {
        None
    } else if !(f.converts)(values[v].1) {
        Some(values[v])
    } else {
        field_unconverted(f, values, v + 1)
    }
}

/// Handing the matches from position `q` on to the fields `fs` named `names`, each match to the
/// first field of its name that has not taken one yet (those marked in `used` have): the first
/// value that its field does not convert.
pub open spec fn fields_unconverted_from(names: Seq<Seq<char>>, fs: Seq<FieldSpec>, m: Seq<TokensSpec>, q: int, used: Seq<bool>) -> Option<(nat, Seq<char>)>
    decreases m.len() - q,
{
    if q < 0 || q >= m.len() {
        None
    } else {
        match free_index(names, used, m[q].name, 0) {
            Some(k) => match field_unconverted(fs[k], m[q].values, 0) {
                Some(x) => Some(x),
                None => fields_unconverted_from(names, fs, m, q + 1, used.update(k, true)),
            },
            None => fields_unconverted_from(names, fs, m, q + 1, used),
        }
    }
}

/// Handing all the matches to the fields `fs` named `names`: the first value that its field does
/// not convert.
pub open spec fn fields_unconverted(names: Seq<Seq<char>>, fs: Seq<FieldSpec>, m: Seq<TokensSpec>) -> Option<(nat, Seq<char>)> {
    fields_unconverted_from(names, fs, m, 0, none_used(names.len()))
}

/// Whether every field takes each value that converts.
pub open spec fn fields_accept_all(fs: Seq<FieldSpec>) -> bool {
    forall|k: int| 0 <= k < fs.len() ==> (#[trigger] fs[k]).accepts_all
}

/// Whether the parser captures into the fields `fs` (one for each of its names, in order): which
/// values fail to convert, whether every converting value is taken, and the fields' states.
pub open spec fn captures_into(p: ParserSpec, fs: Seq<FieldSpec>) -> bool {
    &&& fs.len() == p.names.len()
    &&& p.fields == fs
    &&& p.unconverted == (|m: Seq<TokensSpec>| fields_unconverted(p.names, fs, m))
    &&& p.accepts_all == fields_accept_all(fs)
    &&& p.matched == fs.map_values(|f: FieldSpec| f.matched)
    &&& p.given == fs.map_values(|f: FieldSpec| f.given)
}

pub proof fn lemma_free_index_range(names: Seq<Seq<char>>, used: Seq<bool>, name: Seq<char>, i: int)
    requires
        0 <= i,
    ensures
        free_index(names, used, name, i) matches Some(k) ==> i <= k < names.len() && names[k] == name,
    decreases names.len() - i,
{
    if i < names.len() && !(names[i] == name && !used[i]) {
        lemma_free_index_range(names, used, name, i + 1);
    }
}

proof fn lemma_field_unconverted<'a>(caps: Seq<(String, Box<dyn AnonymousCapturable + 'a>)>, k: int, values: Seq<(nat, Seq<char>)>, v: int)
    requires
        0 <= k < caps.len(),
    ensures
        unconverted_value(caps, k, values, v) == field_unconverted(capture_fields(caps)[k], values, v),
    decreases values.len() - v,
{
    if 0 <= v < values.len() {
        assert(capture_fields(caps)[k] == capture_state(caps[k]));
        lemma_field_unconverted(caps, k, values, v + 1);
    }
}

proof fn lemma_fields_unconverted_from<'a>(caps: Seq<(String, Box<dyn AnonymousCapturable + 'a>)>, m: Seq<TokensSpec>, q: int, used: Seq<bool>)
    requires
        used.len() == caps.len(),
    ensures
        unconverted_from(caps, m, q, used) == fields_unconverted_from(capture_names(caps), capture_fields(caps), m, q, used),
    decreases m.len() - q,
{
    if 0 <= q < m.len() {
        lemma_free_index_range(capture_names(caps), used, m[q].name, 0);
        match free_index(capture_names(caps), used, m[q].name, 0) {
            Some(k) => {
                lemma_field_unconverted(caps, k, m[q].values, 0);
                lemma_fields_unconverted_from(caps, m, q + 1, used.update(k, true));
            },
            None => {
                lemma_fields_unconverted_from(caps, m, q + 1, used);
            },
        }
    }
}

/// Two captures with the same field have the same state.
proof fn lemma_same_state<'a, K, L>(a: (K, Box<dyn AnonymousCapturable + 'a>), b: (L, Box<dyn AnonymousCapturable + 'a>))
    requires
        a.1 == b.1,
    ensures
        capture_state(a) == capture_state(b),
{
    assert(capture_state(a).converts =~= capture_state(b).converts);
}

/// A parser captures into the fields it holds.
proof fn lemma_captures_into<'a>(caps: Seq<(String, Box<dyn AnonymousCapturable + 'a>)>, p: ParserSpec)
    requires
        p.names == capture_names(caps),
        p.unconverted == (|m: Seq<TokensSpec>| unconverted(caps, m)),
        p.accepts_all == captures_accept_all(caps),
        p.matched == caps.map_values(|c: (String, Box<dyn AnonymousCapturable + 'a>)| c.1.spec_matched()),
        p.given == caps.map_values(|c: (String, Box<dyn AnonymousCapturable + 'a>)| c.1.spec_given()),
        p.fields == capture_fields(caps),
    ensures
        captures_into(p, capture_fields(caps)),
{
    let fs = capture_fields(caps);
    assert forall|m: Seq<TokensSpec>| #[trigger] (p.unconverted)(m) == fields_unconverted(p.names, fs, m) by {
        lemma_fields_unconverted_from(caps, m, 0, none_used(caps.len()));
    }
    assert(p.unconverted =~= (|m: Seq<TokensSpec>| fields_unconverted(p.names, fs, m)));
    assert(p.accepts_all == fields_accept_all(fs)) by {
        if p.accepts_all {
            assert forall|k: int| 0 <= k < fs.len() implies (#[trigger] fs[k]).accepts_all by {
                assert(fs[k] == capture_state(caps[k]));
                assert(caps[k].1.spec_accepts_all());
            }
        } else {
            let k = choose|k: int| 0 <= k < caps.len() && !(#[trigger] caps[k]).1.spec_accepts_all();
            assert(fs[k] == capture_state(caps[k]));
        }
    }
    assert(p.matched =~= fs.map_values(|f: FieldSpec| f.matched));
    assert(p.given =~= fs.map_values(|f: FieldSpec| f.given));
}

/// Whether handing the matches from position `q` on to the fields `fs` named `names` (those
/// marked in `used` have taken a match) may be refused at the value at `offset`: a field that may
/// refuse values is handed it, it converts, and every value handed before it converts.
pub open spec fn refusable_from(names: Seq<Seq<char>>, fs: Seq<FieldSpec>, m: Seq<TokensSpec>, q: int, used: Seq<bool>, offset: nat) -> bool
    decreases m.len() - q,
{
    if q < 0 || q >= m.len() {
        false
    } else {
        match free_index(names, used, m[q].name, 0) {
            Some(k) => {
                let vals = m[q].values;
                ||| (!fs[k].accepts_all && exists|v: int| 0 <= v < vals.len() && #[trigger] vals[v].0 == offset
                    && (fs[k].converts)(vals[v].1)
                    && field_unconverted(fs[k], vals, 0) == field_unconverted(fs[k], vals, v))
                ||| (field_unconverted(fs[k], vals, 0) is None && refusable_from(names, fs, m, q + 1, used.update(k, true), offset))
            },
            None => refusable_from(names, fs, m, q + 1, used, offset),
        }
    }
}

/// Whether `x` is how capturing the matches `m` may fail: a value that does not convert (the
/// first such, at its offset), or a value that converts, refused by a field that may refuse
/// values, at its offset, with no value handed before it failing to convert.
pub open spec fn capture_failure(p: ParserSpec, m: Seq<TokensSpec>, offset: nat, message: Seq<char>) -> bool {
    ||| (!p.accepts_all && refusable_from(p.names, p.fields, m, 0, none_used(p.names.len()), offset)
        && exists|e: InvalidCapture| #[trigger] capture_message(e) == message && e is InvalidAdd)
    ||| ((p.unconverted)(m) matches Some(u) && offset == u.0
        && exists|e: InvalidCapture| #[trigger] capture_message(e) == message && e is InvalidConversion && capture_token(e) == u.1)
}

/// Parses the tokens of one command: matches them to parameters, then captures the values.
pub struct Parser<'a> {
    token_matcher: TokenMatcher,
    captures: Vec<(String, Box<dyn AnonymousCapturable + 'a>)>,
    discriminator: Option<String>,
}

impl<'a> View for Parser<'a> {
    type V = ParserSpec;

    closed spec fn view(&self) -> ParserSpec {
        ParserSpec {
            matcher: self.token_matcher@,
            names: capture_names(self.captures@),
            discriminator: match self.discriminator {
                Some(d) => Some(d@),
                None => None,
            },
            unconverted: |m: Seq<TokensSpec>| unconverted(self.captures@, m),
            accepts_all: captures_accept_all(self.captures@),
            matched: self.captures@.map_values(|p: (String, Box<dyn AnonymousCapturable + 'a>)| p.1.spec_matched()),
            given: self.captures@.map_values(|p: (String, Box<dyn AnonymousCapturable + 'a>)| p.1.spec_given()),
            fields: capture_fields(self.captures@),
        }
    }
}

impl<'a> Parser<'a> {
    /// The parser's invariant.
    pub closed spec fn wf(&self) -> bool {
        self.token_matcher.wf()
    }

    /// A parser with no parameters but the help option.
    pub fn empty() -> (r: Self)
        ensures
            r.wf(),
            r@.matcher == initial_state(seq![help_config()], Seq::empty()),
            r@.names.len() == 0,
            r@.discriminator is None,
    {
        let help = OptionConfig::new("help".to_owned(), Some('h'), Bound::Range(0, 0));
        let r = Parser { token_matcher: TokenMatcher::single(help), captures: Vec::new(), discriminator: None };
        assert(capture_names(r.captures@) =~= Seq::empty());
        r
    }

    /// Configure a parser; parameter names must not repeat, nor short names.
    pub fn new(options: Vec<(OptionConfig, Box<dyn AnonymousCapturable + 'a>)>, arguments: Vec<(ArgumentConfig, Box<dyn AnonymousCapturable + 'a>)>, discriminator: Option<String>) -> (r: Result<Self, ConfigError>)
        ensures
            match parser_config(option_capture_specs(options@), argument_capture_specs(arguments@)) {
                Ok(m) => r matches Ok(p) && p.wf() && p@.matcher == m
                    && p@.names == parameter_names(option_capture_specs(options@), argument_capture_specs(arguments@))
                    && p@.discriminator == crate::printer::opt_text(discriminator)
                    && captures_into(p@, capture_fields(options@) + capture_fields(arguments@)),
                Err(msg) => r matches Err(e) && e@ == msg,
            },
    {
        let ghost opts = option_capture_specs(options@);
        let ghost args = argument_capture_specs(arguments@);
        let ghost names = parameter_names(opts, args);
        let mut captures: Vec<(String, Box<dyn AnonymousCapturable + 'a>)> = Vec::new();
        let mut option_configs: Vec<OptionConfig> = Vec::new();
        option_configs.push(OptionConfig::new("help".to_owned(), Some('h'), Bound::Range(0, 0)));
        let mut argument_configs: Vec<ArgumentConfig> = Vec::new();
        assert(options_view(option_configs@) =~= matcher_options(Seq::empty()));
        let ghost ofs = capture_fields(options@);
        let ghost afs = capture_fields(arguments@);
        let mut rest = options;
        assert(capture_fields(rest@) =~= ofs.skip(0));
        assert(capture_fields(captures@) =~= ofs.take(0));
        let n = rest.len();
        let mut i: usize = 0;
        while i < n
            invariant
                i <= n,
                ofs == capture_fields(options@),
                afs == capture_fields(arguments@),
                capture_fields(rest@) == ofs.skip(i as int),
                capture_fields(captures@) == ofs.take(i as int),
                n == opts.len(),
                rest@.len() == n - i,
                option_capture_specs(rest@) == opts.skip(i as int),
                capture_names(captures@) == names.take(i as int),
                duplicate_from(names, 0) == duplicate_from(names, i as int),
                options_view(option_configs@) == matcher_options(opts.take(i as int)),
                names == parameter_names(opts, args),
                argument_configs@.len() == 0,
                opts == option_capture_specs(options@),
                args == argument_capture_specs(arguments@),
            decreases n - i,
        {
            let ghost rv = rest@;
            let pair = rest.remove(0);
            assert(pair == rv[0]);
            assert(rest@ == rv.remove(0));
            let ghost pv = pair;
            let ghost fv = capture_fields(rv);
            assert(fv[0] == capture_state(pv));
            assert(capture_fields(rest@) =~= ofs.skip(i + 1)) by {
                assert forall|x: int| 0 <= x < rest@.len() implies #[trigger] capture_fields(rest@)[x] == ofs.skip(i + 1)[x] by {
                    assert(rest@[x] == rv[x + 1]);
                    assert(fv[x + 1] == ofs.skip(i as int)[x + 1]);
                }
            }
            assert(fv[0] == ofs[i as int]);
            let (oc, f) = pair;
            assert(oc@ == option_capture_specs(rv)[0]);
            assert(oc@ == opts[i as int]);
            assert(option_capture_specs(rest@) =~= opts.skip(i + 1)) by {
                assert forall|k: int| 0 <= k < rest@.len() implies #[trigger] option_capture_specs(rest@)[k] == opts.skip(i + 1)[k] by {
                    assert(rest@[k] == rv[k + 1]);
                    assert(option_capture_specs(rv)[k + 1] == opts.skip(i as int)[k + 1]);
                }
            }
            assert(names[i as int] == oc@.name);
            let name = oc.name.clone();
            assert(capture_names(captures@).len() == captures@.len());
            assert(names.len() == opts.len() + args.len());
            let mut j: usize = 0;
            while j < captures.len()
                invariant
                    j <= captures@.len(),
                    captures@.len() == i,
                    i < names.len(),
                    capture_names(captures@) == names.take(i as int),
                    name@ == names[i as int],
                    forall|k: int| 0 <= k < j ==> names[k] != names[i as int],
                    duplicate_from(names, 0) == duplicate_from(names, i as int),
                    names == parameter_names(opts, args),
                    opts == option_capture_specs(options@),
                    args == argument_capture_specs(arguments@),
                decreases captures.len() - j,
            {
                if crate::text::chars_equal(&crate::text::chars_of(captures[j].0.as_str()), &crate::text::chars_of(name.as_str())) {
                    assert(names[j as int] == capture_names(captures@)[j as int]);
                    assert(duplicate_from(names, i as int) == Some(names[i as int]));
                    return Err(ConfigError(duplicate_error(&name)));
                }
                assert(names[j as int] == capture_names(captures@)[j as int]);
                j = j + 1;
            }
            assert(!exists|k: int| 0 <= k < i && names[k] == names[i as int]);
            let ghost cv = capture_names(captures@);
            let ghost old_caps = captures@;
            let ghost nv = name@;
            let entry = (name, f);
            assert(entry.0@ == nv);
            let ghost before_fields = capture_fields(captures@);
            proof {
                lemma_same_state(entry, pv);
            }
            captures.push(entry);
            assert(capture_fields(captures@) =~= before_fields.push(capture_state(entry)));
            assert(captures@ == old_caps.push(entry));
            assert(capture_names(captures@) =~= cv.push(nv)) by {
                assert(capture_names(captures@).len() == cv.len() + 1);
                assert forall|x: int| 0 <= x < cv.len() implies #[trigger] capture_names(captures@)[x] == cv[x] by {
                    assert(captures@[x] == old_caps[x]);
                }
                assert(capture_names(captures@)[cv.len() as int] == captures@[cv.len() as int].0@);
            }
            assert(names.take(i + 1) =~= names.take(i as int).push(names[i as int]));
            let is_help = crate::text::chars_equal(&crate::text::chars_of(oc.name.as_str()), &crate::text::chars_of("help"))
                && oc.short == Some('h') && oc.bound == Bound::Range(0, 0);
            assert(opts.take(i + 1).drop_last() =~= opts.take(i as int));
            assert(ofs.take(i + 1) =~= ofs.take(i as int).push(ofs[i as int]));
            if !is_help {
                let ghost before = options_view(option_configs@);
                option_configs.push(oc);
                assert(options_view(option_configs@) =~= before.push(opts[i as int]));
            }
            i = i + 1;
        }
        assert(opts.take(n as int) =~= opts);
        let mut rest_args = arguments;
        assert(capture_fields(rest_args@) =~= afs.skip(0));
        assert(ofs.take(n as int) =~= ofs);
        assert(capture_fields(captures@) =~= ofs + afs.take(0));
        let m = rest_args.len();
        let mut k: usize = 0;
        while k < m
            invariant
                k <= m,
                ofs == capture_fields(options@),
                afs == capture_fields(arguments@),
                n == ofs.len(),
                capture_fields(rest_args@) == afs.skip(k as int),
                capture_fields(captures@) == ofs + afs.take(k as int),
                m == args.len(),
                rest_args@.len() == m - k,
                argument_capture_specs(rest_args@) == args.skip(k as int),
                capture_names(captures@) == names.take(n + k),
                duplicate_from(names, 0) == duplicate_from(names, n + k),
                arguments_view(argument_configs@) == args.take(k as int),
                names == parameter_names(opts, args),
                n == opts.len(),
                options_view(option_configs@) == matcher_options(opts),
                opts == option_capture_specs(options@),
                args == argument_capture_specs(arguments@),
            decreases m - k,
        {
            let ghost rv = rest_args@;
            let pair = rest_args.remove(0);
            assert(pair == rv[0]);
            assert(rest_args@ == rv.remove(0));
            let ghost pv = pair;
            let ghost fv = capture_fields(rv);
            assert(fv[0] == capture_state(pv));
            assert(capture_fields(rest_args@) =~= afs.skip(k + 1)) by {
                assert forall|x: int| 0 <= x < rest_args@.len() implies #[trigger] capture_fields(rest_args@)[x] == afs.skip(k + 1)[x] by {
                    assert(rest_args@[x] == rv[x + 1]);
                    assert(fv[x + 1] == afs.skip(k as int)[x + 1]);
                }
            }
            assert(fv[0] == afs[k as int]);
            let (ac, f) = pair;
            assert(ac@ == argument_capture_specs(rv)[0]);
            assert(ac@ == args[k as int]);
            assert(argument_capture_specs(rest_args@) =~= args.skip(k + 1)) by {
                assert forall|x: int| 0 <= x < rest_args@.len() implies #[trigger] argument_capture_specs(rest_args@)[x] == args.skip(k + 1)[x] by {
                    assert(rest_args@[x] == rv[x + 1]);
                    assert(argument_capture_specs(rv)[x + 1] == args.skip(k as int)[x + 1]);
                }
            }
            let ghost at = (n + k) as int;
            assert(names[at] == ac@.name);
            let name = ac.name.clone();
            assert(capture_names(captures@).len() == captures@.len());
            assert(names.len() == opts.len() + args.len());
            let mut j: usize = 0;
            while j < captures.len()
                invariant
                    j <= captures@.len(),
                    captures@.len() == at,
                    at < names.len(),
                    capture_names(captures@) == names.take(at),
                    name@ == names[at],
                    forall|x: int| 0 <= x < j ==> names[x] != names[at],
                    duplicate_from(names, 0) == duplicate_from(names, at),
                    names == parameter_names(opts, args),
                    opts == option_capture_specs(options@),
                    args == argument_capture_specs(arguments@),
                decreases captures.len() - j,
            {
                if crate::text::chars_equal(&crate::text::chars_of(captures[j].0.as_str()), &crate::text::chars_of(name.as_str())) {
                    assert(names[j as int] == capture_names(captures@)[j as int]);
                    assert(duplicate_from(names, at) == Some(names[at]));
                    return Err(ConfigError(duplicate_error(&name)));
                }
                assert(names[j as int] == capture_names(captures@)[j as int]);
                j = j + 1;
            }
            assert(!exists|x: int| 0 <= x < at && names[x] == names[at]);
            let ghost cv = capture_names(captures@);
            let ghost old_caps = captures@;
            let ghost nv = name@;
            let entry = (name, f);
            assert(entry.0@ == nv);
            let ghost before_fields = capture_fields(captures@);
            proof {
                lemma_same_state(entry, pv);
            }
            captures.push(entry);
            assert(capture_fields(captures@) =~= before_fields.push(capture_state(entry)));
            assert(captures@ == old_caps.push(entry));
            assert(capture_names(captures@) =~= cv.push(nv)) by {
                assert(capture_names(captures@).len() == cv.len() + 1);
                assert forall|x: int| 0 <= x < cv.len() implies #[trigger] capture_names(captures@)[x] == cv[x] by {
                    assert(captures@[x] == old_caps[x]);
                }
                assert(capture_names(captures@)[cv.len() as int] == captures@[cv.len() as int].0@);
            }
            assert(names.take(at + 1) =~= names.take(at).push(names[at]));
            let ghost before = arguments_view(argument_configs@);
            argument_configs.push(ac);
            assert(arguments_view(argument_configs@) =~= before.push(args[k as int]));
            assert(args.take(k + 1) =~= args.take(k as int).push(args[k as int]));
            assert(ofs + afs.take(k + 1) =~= (ofs + afs.take(k as int)).push(afs[k as int]));
            k = k + 1;
        }
        assert(args.take(m as int) =~= args);
        assert(names.take(n + m) =~= names);
        assert(duplicate_from(names, (n + m) as int) is None);
        match TokenMatcher::new(option_configs, argument_configs) {
            Ok(token_matcher) => {
                assert(afs.take(m as int) =~= afs);
                let p = Parser { token_matcher, captures, discriminator };
                proof {
                    lemma_captures_into(p.captures@, p@);
                }
                Ok(p)
            },
            Err(e) => Err(ConfigError(e.to_string())),
        }
    }
}

/// The message for a repeated parameter name.
fn duplicate_error(name: &String) -> (r: String)
    ensures
        r@ == duplicate_message(name@),
{
    let mut v = crate::text::chars_of("Cannot duplicate the parameter '");
    crate::text::append_str(&mut v, name.as_str());
    crate::text::append_str(&mut v, "'.");
    crate::text::string_of(&v)
}

proof fn lemma_total_bytes_prefix(t: Seq<Seq<char>>, i: int)
    requires
        0 <= i < t.len(),
    ensures
        total_bytes(t.take(i + 1)) == total_bytes(t.take(i)) + byte_len(t[i]),
        total_bytes(t.take(i + 1)) <= total_bytes(t),
    decreases t.len(),
{
    assert(t.take(i + 1).drop_last() =~= t.take(i));
    if i + 1 < t.len() {
        lemma_total_bytes_prefix(t.drop_last(), i);
        assert(t.drop_last().take(i + 1) =~= t.take(i + 1));
        assert(t.drop_last().take(i) =~= t.take(i));
    } else {
        assert(t.take(i + 1) =~= t);
    }
}

/// Whether the discriminee found agrees with the matches: the first value of the first match of
/// the discriminator (nothing without a discriminator).
pub open spec fn discriminee_agrees(d: Option<(String, OffsetValue)>, discriminator: Option<Seq<char>>, m: Seq<TokensSpec>) -> bool {
    match discriminator {
        None => d is None,
        Some(t) => match discriminee_from(m, t, 0) {
            Some(v) => d matches Some(x) && x.0@ == t && x.1.0 == v.0 && x.1.1@ == v.1,
            None => d is None,
        },
    }
}

impl<'a> Parser<'a> {
    /// Consume the tokens: match them to the parameters (with a discriminator, only as many as
    /// make the matcher closable), then hand each match to the field of its parameter: the field
    /// is declared matched and captures the match's values in order.
    ///
    /// Returns the help request when the help option is given (no field is touched), and the
    /// offset and message of the first error otherwise. The parser keeps its configuration.
    pub fn consume(&mut self, tokens: &[&str]) -> (r: Result<Action, (usize, ParseError)>)
        requires
            old(self).wf(),
            old(self)@.matcher.fed + total_bytes(slices_view(tokens@)) <= usize::MAX,
            !(match_outcome(old(self)@.matcher, slices_view(tokens@), old(self)@.discriminator is Some) is Aborted),
        ensures
            final(self).wf(),
            final(self)@.matcher == old(self)@.matcher,
            final(self)@.names == old(self)@.names,
            final(self)@.discriminator == old(self)@.discriminator,
            match match_outcome(old(self)@.matcher, slices_view(tokens@), old(self)@.discriminator is Some) {
                MatchOutcome::Aborted => false,
                MatchOutcome::Error(o, msg) => r matches Err(x) && x.0 == o && x.1@ == msg
                    && final(self)@.matched == old(self)@.matched && final(self)@.given == old(self)@.given,
                MatchOutcome::Help => r matches Ok(Action::PrintHelp)
                    && final(self)@.matched == old(self)@.matched && final(self)@.given == old(self)@.given,
                MatchOutcome::Matched(m, consumed) => match r {
                    Ok(Action::Continue { discriminee, remaining }) =>
                        strings_view(remaining@) == slices_view(tokens@).skip(consumed as int)
                        && discriminee_agrees(discriminee, old(self)@.discriminator, m)
                        && (old(self)@.unconverted)(m) is None
                        && captured(old(self)@, m, final(self)@.matched, final(self)@.given),
                    Ok(Action::PrintHelp) => false,
                    Err(x) => capture_failure(old(self)@, m, x.0 as nat, x.1@),
                },
            },
    {
        let ghost spec0 = self@;
        let ghost s0 = self@.matcher;
        let ghost disc = self@.discriminator;
        let ghost toks = slices_view(tokens@);
        let ghost caps0 = self.captures@;
        let mut token_matcher = self.token_matcher.replica();
        let minimal = self.discriminator.is_some();
        let mut i: usize = 0;
        while i < tokens.len()
            invariant_except_break
                token_matcher.wf(),
                i <= tokens@.len(),
                toks == slices_view(tokens@),
                feed_from(s0, toks, minimal, 0) == feed_from(token_matcher@, toks, minimal, i as nat),
                !(feed_from(s0, toks, minimal, 0) is Aborted),
                token_matcher@.fed == s0.fed + total_bytes(toks.take(i as int)),
                s0.fed + total_bytes(toks) <= usize::MAX,
                s0 == spec0.matcher,
                disc == spec0.discriminator,
                minimal == (disc is Some),
                self.token_matcher == old(self).token_matcher,
                self.captures@ == old(self).captures@,
                self.discriminator == old(self).discriminator,
                spec0 == old(self)@,
                self.wf(),
            ensures
                self.wf(),
                self.token_matcher == old(self).token_matcher,
                self.captures@ == old(self).captures@,
                self.discriminator == old(self).discriminator,
                token_matcher.wf(),
                i <= tokens@.len(),
                feed_from(s0, toks, minimal, 0) == FeedOutcome::Stopped(token_matcher@, i as nat),
            decreases tokens.len() - i,
        {
            proof {
                lemma_total_bytes_prefix(toks, i as int);
            }
            let offset = token_matcher.fed();
            let token = tokens[i];
            assert(token@ == toks[i as int]);
            match token_matcher.feed(token) {
                Err(e) => {
                    let message = e.to_string();
                    return Err((offset, ParseError(message)));
                },
                Ok(()) => {},
            }
            i = i + 1;
            if minimal && token_matcher.can_close() {
                break;
            }
        }
        let matches = match token_matcher.close() {
            Ok(matches) => {
                if matches.contains("help") {
                    return Ok(Action::PrintHelp);
                }
                matches
            },
            Err((offset, e, partial)) => {
                if partial.contains("help") {
                    return Ok(Action::PrintHelp);
                }
                let message = e.to_string();
                return Err((offset, ParseError(message)));
            },
        };
        let ghost m = matches@;
        assert(match_outcome(s0, toks, minimal) == MatchOutcome::Matched(m, i as nat));
        let ghost names0 = capture_names(caps0);
        let ghost fs0 = capture_fields(caps0);
        let n = self.captures.len();
        let mut used: Vec<bool> = Vec::new();
        let mut u: usize = 0;
        while u < n
            invariant
                u <= n,
                used@ == none_used(u as nat),
            decreases n - u,
        {
            used.push(false);
            u = u + 1;
            assert(used@ =~= none_used(u as nat));
        }
        let ghost mut gsofar: Seq<Seq<Seq<char>>> = Seq::new(n as nat, |x: int| Seq::<Seq<char>>::empty());
        assert(none_used(caps0.len()) == used@);
        let mut discriminee: Option<(String, OffsetValue)> = None;
        let mut q: usize = 0;
        while q < matches.values.len()
            invariant
                q <= matches.values@.len(),
                m == matches@,
                spec0 == old(self)@,
                caps0 == old(self).captures@,
                names0 == capture_names(caps0),
                n == caps0.len(),
                self.token_matcher == old(self).token_matcher,
                self.discriminator == old(self).discriminator,
                self.wf(),
                s0 == spec0.matcher,
                disc == spec0.discriminator,
                minimal == (disc is Some),
                toks == slices_view(tokens@),
                match_outcome(s0, toks, minimal) == MatchOutcome::Matched(m, i as nat),
                disc == crate::printer::opt_text(self.discriminator),
                self.captures@.len() == n,
                capture_names(self.captures@) == names0,
                forall|k: int, t: Seq<char>| 0 <= k < n ==> #[trigger] self.captures@[k].1.spec_converts(t) == caps0[k].1.spec_converts(t),
                forall|k: int| 0 <= k < n ==> #[trigger] self.captures@[k].1.spec_accepts_all() == caps0[k].1.spec_accepts_all(),
                used@.len() == n,
                gsofar.len() == n,
                forall|k: int| 0 <= k < n ==> #[trigger] self.captures@[k].1.spec_given() == caps0[k].1.spec_given() + gsofar[k],
                forall|k: int| 0 <= k < n ==> #[trigger] self.captures@[k].1.spec_matched() == (caps0[k].1.spec_matched() || used@[k]),
                handed(names0, m) == handed_from(names0, m, q as int, used@, gsofar),
                unconverted(caps0, m) == unconverted_from(caps0, m, q as int, used@),
                fs0 == capture_fields(caps0),
                forall|o: nat| #[trigger] refusable_from(names0, fs0, m, q as int, used@, o) ==> refusable_from(names0, fs0, m, 0, none_used(n as nat), o),
                match disc {
                    None => discriminee is None,
                    Some(t) => match discriminee {
                        None => discriminee_from(m, t, 0) == discriminee_from(m, t, q as int),
                        Some(x) => discriminee_from(m, t, 0) matches Some(v) && x.0@ == t && x.1.0 == v.0 && x.1.1@ == v.1,
                    },
                },
            decreases matches.values.len() - q,
        {
            let mt = &matches.values[q];
            assert(m[q as int] == mt@);
            let ghost name = mt.name@;
            let ghost used0 = used@;
            assert(used0.len() == n);
            let mut k: usize = 0;
            let mut found: Option<usize> = None;
            while k < n
                invariant
                    k <= n,
                    n == self.captures@.len(),
                    used@ == used0,
                    used0.len() == n,
                    names0 == capture_names(self.captures@),
                    name == mt.name@,
                    match found {
                        Some(x) => x < n && free_index(names0, used0, name, 0) == Some(x as int),
                        None => free_index(names0, used0, name, 0) == free_index(names0, used0, name, k as int),
                    },
                decreases n - k,
            {
                if found.is_none() && !used[k] {
                    assert(names0[k as int] == self.captures@[k as int].0@);
                    if crate::text::chars_equal(&crate::text::chars_of(self.captures[k].0.as_str()), &crate::text::chars_of(mt.name.as_str())) {
                        found = Some(k);
                    }
                }
                k = k + 1;
            }
            if let Some(index) = found {
                let ghost cs = self.captures@;
                let ghost vals = mt@.values;
                assert(vals.len() == mt.values@.len());
                let mut pair = self.captures.remove(index);
                let ghost c0 = caps0[index as int].1;
                assert(cs[index as int] == pair);
                used.set(index, true);
                pair.1.matched();
                let mut v: usize = 0;
                while v < mt.values.len()
                    invariant
                        v <= mt.values@.len(),
                        vals == mt@.values,
                        vals.len() == mt.values@.len(),
                        index < n,
                        n == caps0.len(),
                        cs.len() == n,
                        q < m.len(),
                        m[q as int].values == vals,
                        names0 == capture_names(caps0),
                        used0.len() == n,
                        free_index(names0, used0, m[q as int].name, 0) == Some(index as int),
                        unconverted(caps0, m) == unconverted_from(caps0, m, q as int, used0),
                        fs0 == capture_fields(caps0),
                        forall|o: nat| #[trigger] refusable_from(names0, fs0, m, q as int, used0, o) ==> refusable_from(names0, fs0, m, 0, none_used(n as nat), o),
                        spec0 == old(self)@,
                        caps0 == old(self).captures@,
                        self.token_matcher == old(self).token_matcher,
                        self.discriminator == old(self).discriminator,
                        self.wf(),
                        self.captures@ == cs.remove(index as int),
                        forall|t: Seq<char>| #[trigger] pair.1.spec_converts(t) == c0.spec_converts(t),
                        pair.1.spec_accepts_all() == c0.spec_accepts_all(),
                        pair.1.spec_matched(),
                        pair.0 == cs[index as int].0,
                        capture_names(cs) == names0,
                        s0 == spec0.matcher,
                        disc == spec0.discriminator,
                        minimal == (disc is Some),
                        toks == slices_view(tokens@),
                        match_outcome(s0, toks, minimal) == MatchOutcome::Matched(m, i as nat),
                        pair.1.spec_given() == cs[index as int].1.spec_given() + value_texts(vals.take(v as int)),
                        c0 == caps0[index as int].1,
                        unconverted_value(caps0, index as int, vals, 0) == unconverted_value(caps0, index as int, vals, v as int),
                    decreases mt.values.len() - v,
                {
                    let (offset, value) = &mt.values[v];
                    assert(vals[v as int] == (*offset as nat, value@));
                    let ghost cb = pair.1;
                    match pair.1.capture(value.as_str()) {
                        Ok(()) => {
                            assert(value_texts(vals.take(v + 1)) =~= value_texts(vals.take(v as int)).push(value@));
                        },
                        Err(error) => {
                            let message = error.to_string();
                            let ghost e = error;
                            let x = (*offset, ParseError(message));
                            assert(capture_message(e) == x.1@);
                            proof {
                                if conversion_failed(Err::<(), InvalidCapture>(e)) {
                                    assert(!cb.spec_converts(value@));
                                    assert(!caps0[index as int].1.spec_converts(vals[v as int].1));
                                    assert(unconverted_value(caps0, index as int, vals, v as int) == Some(vals[v as int]));
                                    assert(unconverted_from(caps0, m, q as int, used0) == Some(vals[v as int]));
                                    assert(e is InvalidConversion && capture_token(e) == vals[v as int].1);
                                } else {
                                    assert(e is InvalidAdd);
                                    assert(!c0.spec_accepts_all());
                                    assert(!captures_accept_all(caps0));
                                    assert(fs0[index as int] == capture_state(caps0[index as int]));
                                    lemma_field_unconverted(caps0, index as int, vals, 0);
                                    lemma_field_unconverted(caps0, index as int, vals, v as int);
                                    assert(cb.spec_converts(value@));
                                    assert((fs0[index as int].converts)(vals[v as int].1));
                                    assert(vals[v as int].0 == x.0 as nat);
                                    assert(refusable_from(names0, fs0, m, q as int, used0, x.0 as nat));
                                    assert(spec0.fields == fs0);
                                    assert(spec0.names.len() == n);
                                }
                            }
                            assert(capture_failure(spec0, m, x.0 as nat, x.1@));
                            let ghost back = pair;
                            self.captures.insert(index, pair);
                            proof {
                                lemma_remove_insert(cs, index as int, back);
                                assert(capture_names(self.captures@) =~= names0) by {
                                    assert forall|j: int| 0 <= j < n implies #[trigger] capture_names(self.captures@)[j] == names0[j] by {
                                        if j != index {
                                            assert(self.captures@[j] == cs[j]);
                                        } else {
                                            assert(self.captures@[j] == back);
                                        }
                                        assert(capture_names(cs)[j] == cs[j].0@);
                                    }
                                }
                            }
                            return Err(x);
                        },
                    }
                    v = v + 1;
                }
                assert(vals.take(v as int) =~= vals);
                assert(unconverted_value(caps0, index as int, vals, v as int) is None);
                let ghost back = pair;
                assert(self.captures@ == cs.remove(index as int));
                assert(cs.len() == n && index < n);
                self.captures.insert(index, pair);
                proof {
                    lemma_remove_insert(cs, index as int, back);
                }
                assert(self.captures@ == cs.update(index as int, back));
                assert(self.captures@.len() == n);
                proof {
                    gsofar = gsofar.update(index as int, gsofar[index as int] + value_texts(vals));
                }
                assert forall|j: int| 0 <= j < n implies #[trigger] self.captures@[j].1.spec_given() == caps0[j].1.spec_given() + gsofar[j] by {
                    if j != index {
                        assert(self.captures@[j] == cs[j]);
                    }
                }
                assert forall|j: int| 0 <= j < n implies #[trigger] self.captures@[j].1.spec_matched() == (caps0[j].1.spec_matched() || used@[j]) by {
                    if j != index {
                        assert(self.captures@[j] == cs[j]);
                    }
                }
                assert forall|j: int, t: Seq<char>| 0 <= j < n implies #[trigger] self.captures@[j].1.spec_converts(t) == caps0[j].1.spec_converts(t) by {
                    if j != index {
                        assert(self.captures@[j] == cs[j]);
                    }
                }
                assert forall|j: int| 0 <= j < n implies #[trigger] self.captures@[j].1.spec_accepts_all() == caps0[j].1.spec_accepts_all() by {
                    if j != index {
                        assert(self.captures@[j] == cs[j]);
                    }
                }
                assert(capture_names(self.captures@) =~= names0) by {
                    assert forall|j: int| 0 <= j < n implies #[trigger] capture_names(self.captures@)[j] == names0[j] by {
                        if j != index {
                            assert(self.captures@[j] == cs[j]);
                        }
                    }
                }
            }
            proof {
                lemma_free_index_range(names0, used0, m[q as int].name, 0);
                match free_index(names0, used0, m[q as int].name, 0) {
                    Some(x) => {
                        lemma_field_unconverted(caps0, x, m[q as int].values, 0);
                    },
                    None => {},
                }
                assert forall|o: nat| #[trigger] refusable_from(names0, fs0, m, q + 1, used@, o) implies refusable_from(names0, fs0, m, 0, none_used(n as nat), o) by {
                    assert(refusable_from(names0, fs0, m, q as int, used0, o));
                }
            }
            match &self.discriminator {
                Some(target) => {
                    if discriminee.is_none() && mt.values.len() > 0
                        && crate::text::chars_equal(&crate::text::chars_of(target.as_str()), &crate::text::chars_of(mt.name.as_str())) {
                        let (offset, value) = &mt.values[0];
                        assert(mt@.values[0] == (*offset as nat, value@));
                        discriminee = Some((target.clone(), (*offset, value.clone())));
                    }
                },
                None => {},
            }
            q = q + 1;
        }
        assert(unconverted_from(caps0, m, q as int, used@) is None);
        assert(handed_from(names0, m, q as int, used@, gsofar) == (used@, gsofar));
        let mut remaining: Vec<String> = Vec::new();
        let mut j = i;
        while j < tokens.len()
            invariant
                i <= j <= tokens@.len(),
                toks == slices_view(tokens@),
                strings_view(remaining@) == toks.subrange(i as int, j as int),
            decreases tokens.len() - j,
        {
            let ghost before = strings_view(remaining@);
            remaining.push(tokens[j].to_owned());
            assert(strings_view(remaining@) =~= before.push(toks[j as int]));
            assert(toks.subrange(i as int, j + 1) =~= toks.subrange(i as int, j as int).push(toks[j as int]));
            j = j + 1;
        }
        assert(toks.subrange(i as int, j as int) =~= toks.skip(i as int));
        Ok(Action::Continue { discriminee, remaining })
    }
}

impl<'a> Parser<'a> {
    /// The name of the argument that selects a sub-command, if any.
    pub fn discriminator(&self) -> (r: &Option<String>)
        ensures
            crate::printer::opt_text(*r) == self@.discriminator,
    {
        &self.discriminator
    }

    /// What matching the tokens would come to, worked out on a copy of the matcher: whether a
    /// token could not be taken at all, and otherwise, when they match, the matches and the
    /// number of tokens consumed.
    pub fn outcome_of(&self, tokens: &[&str]) -> (r: (bool, Option<(Matches, usize)>))
        requires
            self.wf(),
            self@.matcher.fed + total_bytes(slices_view(tokens@)) <= usize::MAX,
        ensures
            r.0 == (match_outcome(self@.matcher, slices_view(tokens@), self@.discriminator is Some) is Aborted),
            match match_outcome(self@.matcher, slices_view(tokens@), self@.discriminator is Some) {
                MatchOutcome::Matched(m, consumed) => r.1 matches Some(x) && x.0@ == m && x.1 == consumed,
                _ => r.1 is None,
            },
    {
        let ghost s0 = self@.matcher;
        let ghost toks = slices_view(tokens@);
        let minimal = self.discriminator.is_some();
        let mut token_matcher = self.token_matcher.replica();
        let mut i: usize = 0;
        while i < tokens.len()
            invariant_except_break
                token_matcher.wf(),
                i <= tokens@.len(),
                toks == slices_view(tokens@),
                feed_from(s0, toks, minimal, 0) == feed_from(token_matcher@, toks, minimal, i as nat),
                token_matcher@.fed == s0.fed + total_bytes(toks.take(i as int)),
                s0.fed + total_bytes(toks) <= usize::MAX,
                s0 == self@.matcher,
                minimal == (self@.discriminator is Some),
            ensures
                token_matcher.wf(),
                i <= tokens@.len(),
                feed_from(s0, toks, minimal, 0) == FeedOutcome::Stopped(token_matcher@, i as nat),
            decreases tokens.len() - i,
        {
            proof {
                lemma_total_bytes_prefix(toks, i as int);
            }
            let token = tokens[i];
            assert(token@ == toks[i as int]);
            if token_matcher.aborts_on(token) {
                return (true, None);
            }
            match token_matcher.feed(token) {
                Err(_) => {
                    return (false, None);
                },
                Ok(()) => {},
            }
            i = i + 1;
            if minimal && token_matcher.can_close() {
                break;
            }
        }
        match token_matcher.close() {
            Ok(matches) => {
                if matches.contains("help") {
                    (false, None)
                } else {
                    (false, Some((matches, i)))
                }
            },
            Err(_) => (false, None),
        }
    }
}

} // verus!
