//! Properties of the library that span several operations.
use vstd::prelude::*;
use crate::matcher::api::ArgumentSpec;
use crate::matcher::api::OptionSpec;
use crate::matcher::api::spec_contains;
use crate::matcher::model::CloseErrorSpec;
use crate::matcher::model::TokensSpec;
use crate::matcher::model::close_buffer;
use crate::matcher::model::empty_buffer;
use crate::matcher::token_matcher::MatchErrorSpec;
use crate::matcher::token_matcher::MatcherState;
use crate::matcher::token_matcher::Step;
use crate::matcher::token_matcher::args_can_close;
use crate::matcher::token_matcher::close_args;
use crate::matcher::token_matcher::spec_can_close;
use crate::matcher::token_matcher::spec_close;
use crate::matcher::token_matcher::spec_feed;
use crate::matcher::token_matcher::spec_match_option;
use crate::matcher::token_matcher::spec_match_short;
use crate::matcher::token_matcher::state_wf;
use crate::parser::MatchOutcome;
use crate::parser::match_outcome;
use crate::parser::parser_config;
use crate::text::first_index_of;
use crate::text::seq_lt;
use crate::choice::choice_position;
use crate::choice::choices_insert;
use crate::choice::choices_of;
use crate::printer::OptionInfo;
use crate::printer::option_position;
use crate::printer::sort_options;

verus! {

proof fn lemma_close_args(args: Seq<ArgumentSpec>, k: int, m: Seq<TokensSpec>, err: Option<CloseErrorSpec>)
    requires
        0 <= k <= args.len(),
    ensures
        close_args(args, k, m, err).1 is None <==> (err is None && args_can_close(args, k)),
        m.is_prefix_of(close_args(args, k, m, err).0),
    decreases args.len() - k,
{
    if k < args.len() {
        match close_buffer(empty_buffer(args[k].name, args[k].bound)) {
            Ok(t) => {
                lemma_close_args(args, k + 1, m.push(t), err);
                let r = close_args(args, k + 1, m.push(t), err).0;
                assert forall|i: int| 0 <= i < m.len() implies m[i] == r[i] by {
                    assert(m.push(t)[i] == r[i]);
                }
            },
            Err(e) => {
                lemma_close_args(args, k + 1, m, if err is None { Some(e) } else { err });
            },
        }
        if args_can_close(args, k + 1) && close_buffer(empty_buffer(args[k].name, args[k].bound)) is Ok {
            assert forall|j: int| k <= j < args.len() implies #[trigger] close_buffer(empty_buffer(args[j].name, args[j].bound)) is Ok by {
                if j > k {
                    assert(args_can_close(args, k + 1));
                }
            }
        }
    }
}

proof fn lemma_option_index(opts: Seq<OptionSpec>, name: Seq<char>, i: int)
    requires
        0 <= i,
    ensures
        crate::matcher::token_matcher::option_index(opts, name, i) matches Some(k) ==> i <= k < opts.len() && opts[k].name == name,
    decreases opts.len() - i,
{
    if i < opts.len() && opts[i].name != name {
        lemma_option_index(opts, name, i + 1);
    }
}

proof fn lemma_short_index(opts: Seq<OptionSpec>, c: char, i: int)
    requires
        0 <= i,
    ensures
        crate::matcher::token_matcher::short_index(opts, c, i) matches Some(k) ==> i <= k < opts.len(),
    decreases opts.len() - i,
{
    if i < opts.len() && opts[i].short != Some(c) {
        lemma_short_index(opts, c, i + 1);
    }
}

proof fn lemma_matcher_options_head(opts: Seq<OptionSpec>)
    ensures
        crate::parser::matcher_options(opts).len() >= 1,
        crate::parser::matcher_options(opts)[0] == crate::parser::help_config(),
    decreases opts.len(),
{
    if opts.len() > 0 {
        lemma_matcher_options_head(opts.drop_last());
    }
}

/// Whether the matcher can close is exactly whether closing it succeeds.
pub proof fn law_can_close_iff_close(s: MatcherState)
    requires
        state_wf(s),
    ensures
        spec_can_close(s) <==> spec_close(s) is Ok,
{
    let first: (Seq<TokensSpec>, Option<CloseErrorSpec>) = match s.buffer {
        None => (s.matches, None),
        Some(b) => match close_buffer(b) {
            Ok(t) => (s.matches.push(t), None),
            Err(e) => (s.matches, Some(e)),
        },
    };
    lemma_close_args(s.arguments, s.next_argument as int, first.0, first.1);
}

/// The token `--name`.
pub open spec fn long_flag(name: Seq<char>) -> Seq<char> {
    seq!['-', '-'] + name
}

/// The token `-c`.
pub open spec fn short_flag(c: char) -> Seq<char> {
    seq!['-', c]
}

/// Whether the text holds no `=`.
pub open spec fn has_no_equals(name: Seq<char>) -> bool {
    forall|i: int| 0 <= i < name.len() ==> name[i] != '='
}

proof fn lemma_split_long(name: Seq<char>)
    requires
        has_no_equals(name),
    ensures
        long_flag(name).skip(2) == name,
        first_index_of(name, '=') is None,
{
    assert(long_flag(name).skip(2) =~= name);
    crate::text::lemma_first_index_from(name, '=', 0);
}

/// An option is taken at most once: after `--name` (whatever became of it), a second `--name`
/// is refused as an invalid option.
pub proof fn law_option_once(s: MatcherState, name: Seq<char>)
    requires
        state_wf(s),
        has_no_equals(name),
    ensures
        spec_feed(spec_feed(s, long_flag(name)).0, long_flag(name)).1 == Step::Failed(MatchErrorSpec::InvalidOption(name)),
{
    lemma_split_long(name);
    let tok = long_flag(name);
    assert(tok[0] == '-' && tok[1] == '-');
    assert(crate::matcher::token_matcher::spec_split_eq(tok.skip(2)) == (name, Option::<Seq<char>>::None));
    let r1 = spec_match_option(s, name, None);
    assert(spec_feed(s, tok).0 == (MatcherState { fed: s.fed + crate::text::byte_len(tok), ..r1.0 }));
    let s1 = spec_feed(s, tok).0;
    let idx = crate::matcher::token_matcher::option_index(s.options, name, 0);
    lemma_option_index(s.options, name, 0);
    assert(r1.0.options == s.options);
    assert(s1.options == s.options);
    if idx is Some && s.bound_live[idx->0] {
        let i = idx->0;
        assert(r1.0.bound_live == s.bound_live.update(i, false));
        assert(!s1.bound_live[i]);
    } else {
        assert(r1.0 == s);
    }
    assert(spec_match_option(s1, name, None).1 == Step::Failed(MatchErrorSpec::InvalidOption(name)));
}

/// A short option is taken at most once: after `-c` has been taken, a second `-c` is refused as
/// an invalid short option.
pub proof fn law_short_option_once(s: MatcherState, c: char)
    requires
        state_wf(s),
        c != '=',
        c != '-',
        spec_feed(s, short_flag(c)).1 is Done,
    ensures
        spec_feed(spec_feed(s, short_flag(c)).0, short_flag(c)).1 == Step::Failed(MatchErrorSpec::InvalidShortOption(c)),
{
    let tok = short_flag(c);
    assert(tok.skip(1) =~= seq![c]);
    crate::text::lemma_first_index_from(seq![c], '=', 0);
    assert(tok[0] == '-');
    assert(!(tok.len() >= 2 && tok[0] == '-' && tok[1] == '-'));
    assert(crate::matcher::token_matcher::spec_split_eq(tok.skip(1)) == (seq![c], Option::<Seq<char>>::None));
    let idx = crate::matcher::token_matcher::short_index(s.options, c, 0);
    lemma_short_index(s.options, c, 0);
    let r1 = spec_match_short(s, seq![c], None, 0);
    assert(spec_feed(s, tok).0 == (MatcherState { fed: s.fed + crate::text::byte_len(tok), ..r1.0 }));
    let s1 = spec_feed(s, tok).0;
    let k = idx->0;
    let one = crate::matcher::token_matcher::spec_short_one(s, k, seq![c], None, 0);
    assert(one.0.short_live == s.short_live);
    assert(spec_match_short(MatcherState { short_live: one.0.short_live.update(k, false), ..one.0 }, seq![c], None, 1)
        == (MatcherState { short_live: one.0.short_live.update(k, false), ..one.0 }, Step::Done));
    assert(!s1.short_live[k]);
    assert(s1.options == s.options);
    assert(spec_match_short(s1, seq![c], None, 0).1 == Step::Failed(MatchErrorSpec::InvalidShortOption(c)));
}

/// Whether option `k` has been taken in `s`: by its long name, or (when `short`) by its short
/// name.
pub open spec fn option_taken(s: MatcherState, k: int, short: bool) -> bool {
    if short {
        !s.short_live[k]
    } else {
        !s.bound_live[k]
    }
}

/// Whether `t` keeps the options of `s`, and every option taken in `s`.
pub open spec fn keeps_taken(s: MatcherState, t: MatcherState) -> bool {
    &&& t.options == s.options
    &&& t.bound_live.len() == s.bound_live.len()
    &&& t.short_live.len() == s.short_live.len()
    &&& forall|k: int| 0 <= k < s.bound_live.len() && !s.bound_live[k] ==> !#[trigger] t.bound_live[k]
    &&& forall|k: int| 0 <= k < s.short_live.len() && !s.short_live[k] ==> !#[trigger] t.short_live[k]
}

/// The state after feeding the tokens one after another, whatever each step came to.
pub open spec fn feed_all(s: MatcherState, toks: Seq<Seq<char>>) -> MatcherState
    decreases toks.len(),
{
    if toks.len() == 0 {
        s
    } else {
        feed_all(spec_feed(s, toks[0]).0, toks.drop_first())
    }
}

proof fn lemma_keeps_taken_trans(a: MatcherState, b: MatcherState, c: MatcherState)
    requires
        keeps_taken(a, b),
        keeps_taken(b, c),
    ensures
        keeps_taken(a, c),
{
}

proof fn lemma_update_buffer_keeps(s: MatcherState, next: Option<crate::matcher::model::BufferSpec>)
    ensures
        keeps_taken(s, crate::matcher::token_matcher::spec_update_buffer(s, next).0),
{
}

proof fn lemma_match_short_keeps(s: MatcherState, shorts: Seq<char>, val: Option<Seq<char>>, i: int)
    requires
        s.bound_live.len() == s.options.len(),
        s.short_live.len() == s.options.len(),
    ensures
        keeps_taken(s, spec_match_short(s, shorts, val, i).0),
    decreases shorts.len() - i,
{
    if 0 <= i < shorts.len() {
        let c = shorts[i];
        let idx = crate::matcher::token_matcher::short_index(s.options, c, 0);
        if idx is Some && s.short_live[idx->0] && s.bound_live[idx->0] {
            let k = idx->0;
            lemma_short_index(s.options, c, 0);
            let r = crate::matcher::token_matcher::spec_short_one(s, k, shorts, val, i);
            let s1 = MatcherState { bound_live: s.bound_live.update(k, false), ..s };
            assert(keeps_taken(s, s1));
            lemma_update_buffer_keeps(s1, Some(crate::matcher::model::empty_buffer(s.options[k].name, s.options[k].bound)));
            assert(keeps_taken(s, r.0));
            if r.1 is Done {
                let s2 = MatcherState { short_live: r.0.short_live.update(k, false), ..r.0 };
                assert(keeps_taken(r.0, s2));
                lemma_match_short_keeps(s2, shorts, val, i + 1);
                lemma_keeps_taken_trans(s, r.0, s2);
                lemma_keeps_taken_trans(s, s2, spec_match_short(s2, shorts, val, i + 1).0);
            }
        }
    }
}

/// Feeding a token keeps every option taken so far.
proof fn lemma_feed_keeps(s: MatcherState, tok: Seq<char>)
    requires
        s.bound_live.len() == s.options.len(),
        s.short_live.len() == s.options.len(),
    ensures
        keeps_taken(s, spec_feed(s, tok).0),
{
    if crate::matcher::token_matcher::is_long_flag(tok) {
        let p = crate::matcher::token_matcher::spec_split_eq(tok.skip(2));
        let idx = crate::matcher::token_matcher::option_index(s.options, p.0, 0);
        lemma_option_index(s.options, p.0, 0);
        if idx is Some && s.bound_live[idx->0] {
            let i = idx->0;
            let s1 = MatcherState { bound_live: s.bound_live.update(i, false), ..s };
            assert(keeps_taken(s, s1));
            let buf = crate::matcher::model::empty_buffer(p.0, s.options[i].bound);
            lemma_update_buffer_keeps(s1, Some(buf));
            match p.1 {
                Some(v) => match close_buffer(crate::matcher::token_matcher::push_value(buf, s.fed + crate::text::byte_len(p.0) + 3, v)) {
                    Ok(t) => {
                        let s2 = crate::matcher::token_matcher::with_match(s1, t);
                        lemma_update_buffer_keeps(s2, None);
                    },
                    Err(e) => {},
                },
                None => {},
            }
        }
    } else if crate::matcher::token_matcher::is_short_flag(tok) {
        let p = crate::matcher::token_matcher::spec_split_eq(tok.skip(1));
        lemma_match_short_keeps(s, p.0, p.1, 0);
    }
}

/// Feeding tokens keeps every option taken so far.
proof fn lemma_feed_all_keeps(s: MatcherState, toks: Seq<Seq<char>>)
    requires
        s.bound_live.len() == s.options.len(),
        s.short_live.len() == s.options.len(),
    ensures
        keeps_taken(s, feed_all(s, toks)),
    decreases toks.len(),
{
    if toks.len() > 0 {
        let s1 = spec_feed(s, toks[0]).0;
        lemma_feed_keeps(s, toks[0]);
        lemma_feed_all_keeps(s1, toks.drop_first());
        lemma_keeps_taken_trans(s, s1, feed_all(s1, toks.drop_first()));
    }
}

/// After `--name`, the option named `name` is taken by its long name.
proof fn lemma_long_takes(s: MatcherState, name: Seq<char>)
    requires
        state_wf(s),
        has_no_equals(name),
        crate::matcher::token_matcher::option_index(s.options, name, 0) is Some,
    ensures
        option_taken(spec_feed(s, long_flag(name)).0, crate::matcher::token_matcher::option_index(s.options, name, 0)->0, false),
        spec_feed(s, long_flag(name)).0.options == s.options,
{
    lemma_split_long(name);
    let tok = long_flag(name);
    assert(tok[0] == '-' && tok[1] == '-');
    assert(crate::matcher::token_matcher::spec_split_eq(tok.skip(2)) == (name, Option::<Seq<char>>::None));
    lemma_option_index(s.options, name, 0);
    let i = crate::matcher::token_matcher::option_index(s.options, name, 0)->0;
    let r1 = spec_match_option(s, name, None);
    if s.bound_live[i] {
        let s1 = MatcherState { bound_live: s.bound_live.update(i, false), ..s };
        lemma_update_buffer_keeps(s1, Some(crate::matcher::model::empty_buffer(name, s.options[i].bound)));
        assert(!r1.0.bound_live[i]);
    }
}

/// The long name of a taken option is refused.
proof fn lemma_long_refused(s: MatcherState, name: Seq<char>)
    requires
        has_no_equals(name),
        crate::matcher::token_matcher::option_index(s.options, name, 0) matches Some(k)
            && 0 <= k < s.bound_live.len() && !s.bound_live[k],
    ensures
        spec_feed(s, long_flag(name)).1 == Step::Failed(MatchErrorSpec::InvalidOption(name)),
{
    lemma_split_long(name);
    let tok = long_flag(name);
    assert(tok[0] == '-' && tok[1] == '-');
    assert(crate::matcher::token_matcher::spec_split_eq(tok.skip(2)) == (name, Option::<Seq<char>>::None));
}

/// The short name of a taken option is never taken again: refused, or (taken by its long name
/// first) not taken at all.
proof fn lemma_short_not_taken(s: MatcherState, c: char)
    requires
        c != '=',
        c != '-',
        crate::matcher::token_matcher::short_index(s.options, c, 0) matches Some(k)
            && 0 <= k < s.bound_live.len() && k < s.short_live.len() && (!s.bound_live[k] || !s.short_live[k]),
    ensures
        !(spec_feed(s, short_flag(c)).1 is Done),
        !s.short_live[crate::matcher::token_matcher::short_index(s.options, c, 0)->0]
            ==> spec_feed(s, short_flag(c)).1 == Step::Failed(MatchErrorSpec::InvalidShortOption(c)),
{
    let tok = short_flag(c);
    assert(tok.skip(1) =~= seq![c]);
    crate::text::lemma_first_index_from(seq![c], '=', 0);
    assert(tok[0] == '-');
    assert(!(tok.len() >= 2 && tok[0] == '-' && tok[1] == '-'));
    assert(crate::matcher::token_matcher::spec_split_eq(tok.skip(1)) == (seq![c], Option::<Seq<char>>::None));
    assert(seq![c][0] == c);
}

/// An option is taken at most once by its long name, whatever comes between: after `--name`
/// (whatever became of it) and any further tokens, `--name` is refused as an invalid option.
pub proof fn law_option_once_after_any(s: MatcherState, name: Seq<char>, between: Seq<Seq<char>>)
    requires
        state_wf(s),
        has_no_equals(name),
    ensures
        spec_feed(feed_all(spec_feed(s, long_flag(name)).0, between), long_flag(name)).1
            == Step::Failed(MatchErrorSpec::InvalidOption(name)),
{
    let s1 = spec_feed(s, long_flag(name)).0;
    let s2 = feed_all(s1, between);
    lemma_feed_keeps(s, long_flag(name));
    lemma_feed_all_keeps(s1, between);
    lemma_option_index(s.options, name, 0);
    if crate::matcher::token_matcher::option_index(s.options, name, 0) is Some {
        lemma_long_takes(s, name);
        lemma_long_refused(s2, name);
    } else {
        lemma_split_long(name);
        let tok = long_flag(name);
        assert(tok[0] == '-' && tok[1] == '-');
        assert(crate::matcher::token_matcher::spec_split_eq(tok.skip(2)) == (name, Option::<Seq<char>>::None));
    }
}

/// An option taken by its long name is not taken again by its short name, whatever comes
/// between: after `--name` is taken and any further tokens, `-c` (the option's short name) is
/// not taken.
pub proof fn law_long_then_short(s: MatcherState, name: Seq<char>, c: char, between: Seq<Seq<char>>)
    requires
        state_wf(s),
        has_no_equals(name),
        c != '=',
        c != '-',
        crate::matcher::token_matcher::option_index(s.options, name, 0) is Some,
        crate::matcher::token_matcher::short_index(s.options, c, 0) == crate::matcher::token_matcher::option_index(s.options, name, 0),
    ensures
        !(spec_feed(feed_all(spec_feed(s, long_flag(name)).0, between), short_flag(c)).1 is Done),
{
    let s1 = spec_feed(s, long_flag(name)).0;
    let s2 = feed_all(s1, between);
    lemma_feed_keeps(s, long_flag(name));
    lemma_feed_all_keeps(s1, between);
    lemma_option_index(s.options, name, 0);
    lemma_long_takes(s, name);
    lemma_short_not_taken(s2, c);
}

/// An option taken by its short name is taken at most once, by either name, whatever comes
/// between: after `-c` has been taken and any further tokens, `-c` is refused as an invalid
/// short option and the option's long name as an invalid option.
pub proof fn law_short_option_once_after_any(s: MatcherState, c: char, between: Seq<Seq<char>>)
    requires
        state_wf(s),
        c != '=',
        c != '-',
        spec_feed(s, short_flag(c)).1 is Done,
    ensures
        spec_feed(feed_all(spec_feed(s, short_flag(c)).0, between), short_flag(c)).1
            == Step::Failed(MatchErrorSpec::InvalidShortOption(c)),
        crate::matcher::token_matcher::short_index(s.options, c, 0) matches Some(k)
            && (has_no_equals(s.options[k].name) && crate::matcher::token_matcher::option_index(s.options, s.options[k].name, 0) == Some(k)
                ==> spec_feed(feed_all(spec_feed(s, short_flag(c)).0, between), long_flag(s.options[k].name)).1
                    == Step::Failed(MatchErrorSpec::InvalidOption(s.options[k].name))),
{
    let tok = short_flag(c);
    assert(tok.skip(1) =~= seq![c]);
    crate::text::lemma_first_index_from(seq![c], '=', 0);
    assert(tok[0] == '-');
    assert(!(tok.len() >= 2 && tok[0] == '-' && tok[1] == '-'));
    assert(crate::matcher::token_matcher::spec_split_eq(tok.skip(1)) == (seq![c], Option::<Seq<char>>::None));
    let idx = crate::matcher::token_matcher::short_index(s.options, c, 0);
    lemma_short_index(s.options, c, 0);
    let r1 = spec_match_short(s, seq![c], None, 0);
    let s1 = spec_feed(s, tok).0;
    let k = idx->0;
    let one = crate::matcher::token_matcher::spec_short_one(s, k, seq![c], None, 0);
    assert(one.0.short_live == s.short_live);
    assert(!one.0.bound_live[k]);
    assert(spec_match_short(MatcherState { short_live: one.0.short_live.update(k, false), ..one.0 }, seq![c], None, 1)
        == (MatcherState { short_live: one.0.short_live.update(k, false), ..one.0 }, Step::Done));
    assert(!s1.short_live[k]);
    assert(!s1.bound_live[k]);
    assert(s1.options == s.options);
    let s2 = feed_all(s1, between);
    lemma_feed_all_keeps(s1, between);
    lemma_short_not_taken(s2, c);
    if has_no_equals(s.options[k].name) && crate::matcher::token_matcher::option_index(s.options, s.options[k].name, 0) == Some(k) {
        lemma_long_refused(s2, s.options[k].name);
    }
}

/// The first `=` of a text is past every position before which none stands.
proof fn lemma_first_index_is(s: Seq<char>, c: char, i: int, k: int)
    requires
        0 <= i <= k < s.len(),
        s[k] == c,
        forall|j: int| i <= j < k ==> s[j] != c,
    ensures
        crate::text::first_index_from(s, c, i) == Some(k),
    decreases k - i,
{
    if i < k {
        lemma_first_index_is(s, c, i + 1, k);
    }
}

/// A positional value is recorded at the byte offset of its token: the number of bytes of the
/// tokens fed before it.
pub proof fn law_argument_value_offset(s: MatcherState, tok: Seq<char>)
    requires
        state_wf(s),
        !crate::matcher::token_matcher::is_short_flag(tok),
        spec_feed(s, tok).1 is Done,
    ensures
        spec_feed(s, tok).0.buffer matches Some(b) && b.values.len() > 0 && b.values.last() == (s.fed, tok),
{
    assert(!crate::matcher::token_matcher::is_long_flag(tok));
}

/// The number of bytes of all the tokens.
pub open spec fn total_bytes(toks: Seq<Seq<char>>) -> nat
    decreases toks.len(),
{
    if toks.len() == 0 {
        0
    } else {
        crate::text::byte_len(toks[0]) + total_bytes(toks.drop_first())
    }
}

/// The matcher counts every byte fed, whatever became of each token.
pub proof fn law_fed_counts_bytes(s: MatcherState, toks: Seq<Seq<char>>)
    ensures
        feed_all(s, toks).fed == s.fed + total_bytes(toks),
    decreases toks.len(),
{
    if toks.len() > 0 {
        law_fed_counts_bytes(spec_feed(s, toks[0]).0, toks.drop_first());
    }
}

/// A positional value is recorded at the byte offset of its token among all the tokens fed: the
/// number of bytes of every token before it, whatever became of each.
pub proof fn law_argument_value_offset_after_any(s: MatcherState, before: Seq<Seq<char>>, tok: Seq<char>)
    requires
        !crate::matcher::token_matcher::is_short_flag(tok),
        spec_feed(feed_all(s, before), tok).1 is Done,
    ensures
        spec_feed(feed_all(s, before), tok).0.buffer matches Some(b) && b.values.len() > 0
            && b.values.last() == ((s.fed + total_bytes(before)) as nat, tok),
{
    law_fed_counts_bytes(s, before);
    assert(!crate::matcher::token_matcher::is_long_flag(tok));
}

/// The value of `--name=value` is recorded at its byte offset: the bytes fed before the token,
/// then those of `--`, of the name and of `=`.
pub proof fn law_option_value_offset(s: MatcherState, name: Seq<char>, value: Seq<char>)
    requires
        state_wf(s),
        has_no_equals(name),
        spec_feed(s, long_flag(name) + seq!['='] + value).1 is Done,
    ensures
        spec_feed(s, long_flag(name) + seq!['='] + value).0.matches[s.matches.len() as int]
            == (TokensSpec { name, values: seq![((s.fed + crate::text::byte_len(name) + 3) as nat, value)] }),
{
    let tok = long_flag(name) + seq!['='] + value;
    assert(tok[0] == '-' && tok[1] == '-');
    let rest = tok.skip(2);
    assert(rest =~= name + seq!['='] + value);
    assert forall|j: int| 0 <= j < name.len() implies rest[j] != '=' by {
        assert(rest[j] == name[j]);
    }
    assert(rest[name.len() as int] == '=');
    lemma_first_index_is(rest, '=', 0, name.len() as int);
    assert(rest.take(name.len() as int) =~= name);
    assert(rest.skip(name.len() as int + 1) =~= value);
    let p = crate::matcher::token_matcher::spec_split_eq(rest);
    assert(p == (name, Some(value)));
    let idx = crate::matcher::token_matcher::option_index(s.options, name, 0);
    lemma_option_index(s.options, name, 0);
    let i = idx->0;
    let s1 = MatcherState { bound_live: s.bound_live.update(i, false), ..s };
    let buf = crate::matcher::model::empty_buffer(name, s.options[i].bound);
    let pushed = crate::matcher::token_matcher::push_value(buf, s.fed + crate::text::byte_len(name) + 3, value);
    assert(pushed.values =~= seq![((s.fed + crate::text::byte_len(name) + 3) as nat, value)]);
    let t = close_buffer(pushed)->Ok_0;
    let s2 = crate::matcher::token_matcher::with_match(s1, t);
    let r = crate::matcher::token_matcher::spec_update_buffer(s2, None);
    assert(s2.matches[s.matches.len() as int] == t);
    assert(r.0.matches[s.matches.len() as int] == t);
}

proof fn lemma_short_cluster_last(s: MatcherState, shorts: Seq<char>, value: Seq<char>, i: int)
    requires
        0 <= i < shorts.len(),
        crate::text::byte_len(shorts) == shorts.len(),
        spec_match_short(s, shorts, Some(value), i).1 is Done,
    ensures
        spec_match_short(s, shorts, Some(value), i).0.matches.len() > 0,
        spec_match_short(s, shorts, Some(value), i).0.matches.last() == (TokensSpec {
            name: s.options[crate::matcher::token_matcher::short_index(s.options, shorts.last(), 0)->0].name,
            values: seq![((s.fed + crate::text::byte_len(shorts) + 2) as nat, value)],
        }),
    decreases shorts.len() - i,
{
    let c = shorts[i];
    let k = crate::matcher::token_matcher::short_index(s.options, c, 0)->0;
    let r = crate::matcher::token_matcher::spec_short_one(s, k, shorts, Some(value), i);
    let next = MatcherState { short_live: r.0.short_live.update(k, false), ..r.0 };
    assert(r.1 is Done);
    assert(spec_match_short(s, shorts, Some(value), i) == spec_match_short(next, shorts, Some(value), i + 1));
    if i + 1 < shorts.len() {
        assert(r.0.options == s.options && r.0.fed == s.fed);
        lemma_short_cluster_last(MatcherState { short_live: r.0.short_live.update(k, false), ..r.0 }, shorts, value, i + 1);
    } else {
        let buf = crate::matcher::model::empty_buffer(s.options[k].name, s.options[k].bound);
        let pushed = crate::matcher::token_matcher::push_value(buf, s.fed + crate::text::byte_len(shorts) + 2, value);
        assert(pushed.values =~= seq![((s.fed + crate::text::byte_len(shorts) + 2) as nat, value)]);
        assert(shorts.last() == c);
        assert(i + 1 == crate::text::byte_len(shorts));
        let cl = crate::matcher::model::close_buffer(pushed);
        assert(cl is Ok);
        assert(cl->Ok_0 == (TokensSpec { name: s.options[k].name, values: pushed.values }));
        assert(r.0.matches == s.matches.push(cl->Ok_0));
        assert(spec_match_short(next, shorts, Some(value), i + 1) == (next, Step::Done));
    }
}

/// The value of a cluster of short options `-xy=value` (each option one byte) is recorded for
/// the cluster's last option at its byte offset: the bytes fed before the token, then those of
/// `-`, of the cluster and of `=`.
pub proof fn law_short_cluster_value_offset(s: MatcherState, shorts: Seq<char>, value: Seq<char>)
    requires
        shorts.len() >= 1,
        shorts[0] != '-',
        crate::text::byte_len(shorts) == shorts.len(),
        forall|j: int| 0 <= j < shorts.len() ==> shorts[j] != '=',
        spec_feed(s, seq!['-'] + shorts + seq!['='] + value).1 is Done,
    ensures
        spec_feed(s, seq!['-'] + shorts + seq!['='] + value).0.matches.len() > 0,
        spec_feed(s, seq!['-'] + shorts + seq!['='] + value).0.matches.last() == (TokensSpec {
            name: s.options[crate::matcher::token_matcher::short_index(s.options, shorts.last(), 0)->0].name,
            values: seq![((s.fed + crate::text::byte_len(shorts) + 2) as nat, value)],
        }),
{
    let tok = seq!['-'] + shorts + seq!['='] + value;
    assert(tok[0] == '-');
    assert(tok[1] == shorts[0]);
    assert(!crate::matcher::token_matcher::is_long_flag(tok));
    let rest = tok.skip(1);
    assert(rest =~= shorts + seq!['='] + value);
    assert forall|j: int| 0 <= j < shorts.len() implies rest[j] != '=' by {
        assert(rest[j] == shorts[j]);
    }
    assert(rest[shorts.len() as int] == '=');
    lemma_first_index_is(rest, '=', 0, shorts.len() as int);
    assert(rest.take(shorts.len() as int) =~= shorts);
    assert(rest.skip(shorts.len() as int + 1) =~= value);
    assert(crate::matcher::token_matcher::spec_split_eq(rest) == (shorts, Some(value)));
    lemma_short_cluster_last(s, shorts, value, 0);
}

/// The help option is always answered: for every parser configured without error, matching the
/// single token `--help` asks for the help message, with or without a discriminator.
pub proof fn law_help_answered(opts: Seq<OptionSpec>, args: Seq<ArgumentSpec>, minimal: bool)
    requires
        parser_config(opts, args) is Ok,
    ensures
        match_outcome(parser_config(opts, args)->Ok_0, seq!["--help"@], minimal) == MatchOutcome::Help,
{
    reveal_strlit("--help");
    reveal_strlit("help");
    let m = parser_config(opts, args)->Ok_0;
    let tok = "--help"@;
    lemma_split_long("help"@);
    assert(tok =~= long_flag("help"@));
    lemma_matcher_options_head(opts);
    let mo = crate::parser::matcher_options(opts);
    assert(m == crate::matcher::token_matcher::initial_state(mo, args));
    assert(tok[0] == '-' && tok[1] == '-');
    assert(crate::matcher::token_matcher::spec_split_eq(tok.skip(2)) == ("help"@, Option::<Seq<char>>::None));
    assert(crate::matcher::token_matcher::option_index(mo, "help"@, 0) == Some(0int));
    assert(m.bound_live[0]);
    let s1 = spec_feed(m, tok).0;
    assert(spec_feed(m, tok).1 is Done);
    let toks = seq![tok];
    assert(toks[0] == tok);
    assert(crate::parser::feed_from(s1, toks, minimal, 1) == crate::parser::FeedOutcome::Stopped(s1, 1));
    assert(crate::parser::feed_from(m, toks, minimal, 0) == crate::parser::FeedOutcome::Stopped(s1, 1));
    let hb = empty_buffer("help"@, crate::matcher::api::Bound::Range(0, 0));
    assert(s1.buffer == Some(hb));
    assert(s1.matches == Seq::<TokensSpec>::empty());
    assert(close_buffer(hb) == Ok::<TokensSpec, CloseErrorSpec>(TokensSpec { name: "help"@, values: Seq::empty() }));
    let first: (Seq<TokensSpec>, Option<CloseErrorSpec>) = (s1.matches.push(TokensSpec { name: "help"@, values: Seq::empty() }), None);
    lemma_close_args(s1.arguments, s1.next_argument as int, first.0, first.1);
    let all = close_args(s1.arguments, s1.next_argument as int, first.0, first.1);
    assert(all.0[0] == first.0[0]);
    assert(spec_contains(all.0, "help"@));
    assert(seq!["--help"@] == toks);
}

/// The choices' names are in strictly increasing order.
pub open spec fn choices_sorted(cs: Seq<(Seq<char>, Seq<char>)>) -> bool {
    forall|i: int, j: int| 0 <= i < j < cs.len() ==> seq_lt(#[trigger] cs[i].0, #[trigger] cs[j].0)
}

proof fn lemma_choice_position(cs: Seq<(Seq<char>, Seq<char>)>, key: Seq<char>, i: int)
    requires
        0 <= i <= cs.len(),
    ensures
        i <= choice_position(cs, key, i) <= cs.len(),
        forall|k: int| i <= k < choice_position(cs, key, i) ==> seq_lt(#[trigger] cs[k].0, key),
        choice_position(cs, key, i) < cs.len() ==> !seq_lt(cs[choice_position(cs, key, i)].0, key),
    decreases cs.len() - i,
{
    if i < cs.len() && seq_lt(cs[i].0, key) {
        lemma_choice_position(cs, key, i + 1);
    }
}

/// Documenting a choice keeps the choices in strictly increasing order of their names.
pub proof fn law_choices_insert_sorted(cs: Seq<(Seq<char>, Seq<char>)>, key: Seq<char>, description: Seq<char>)
    requires
        choices_sorted(cs),
    ensures
        choices_sorted(choices_insert(cs, key, description)),
{
    lemma_choice_position(cs, key, 0);
    let j = choice_position(cs, key, 0);
    let n = choices_insert(cs, key, description);
    if j < cs.len() && cs[j].0 == key {
        assert forall|a: int, b: int| 0 <= a < b < n.len() implies seq_lt(#[trigger] n[a].0, #[trigger] n[b].0) by {
            assert(n[a].0 == cs[a].0);
            assert(n[b].0 == cs[b].0);
        }
    } else {
        if j < cs.len() {
            crate::text::lemma_seq_lt_total(cs[j].0, key);
        }
        assert forall|a: int, b: int| 0 <= a < b < n.len() implies seq_lt(#[trigger] n[a].0, #[trigger] n[b].0) by {
            if b < j {
                assert(n[a] == cs[a] && n[b] == cs[b]);
            } else if b == j {
                assert(n[a] == cs[a]);
                assert(n[b].0 == key);
            } else if a < j {
                assert(n[a] == cs[a] && n[b] == cs[b - 1]);
                if b - 1 > j {
                    crate::text::lemma_seq_lt_transitive(key, cs[j].0, cs[b - 1].0);
                }
                crate::text::lemma_seq_lt_transitive(cs[a].0, key, cs[b - 1].0);
            } else if a == j {
                assert(n[a].0 == key && n[b] == cs[b - 1]);
                if b - 1 > j {
                    crate::text::lemma_seq_lt_transitive(key, cs[j].0, cs[b - 1].0);
                }
            } else {
                assert(n[a] == cs[a - 1] && n[b] == cs[b - 1]);
            }
        }
    }
}

/// Documented choices are kept in strictly increasing order of their names, whatever order they
/// were documented in: one entry per choice, in the order the help message lists them.
pub proof fn law_choices_sorted(pairs: Seq<(Seq<char>, Seq<char>)>)
    ensures
        choices_sorted(choices_of(pairs)),
    decreases pairs.len(),
{
    if pairs.len() > 0 {
        law_choices_sorted(pairs.drop_last());
        law_choices_insert_sorted(choices_of(pairs.drop_last()), pairs.last().0, pairs.last().1);
    }
}

/// The options are in order of their names (no name comes before an earlier one).
pub open spec fn options_sorted(s: Seq<OptionInfo>) -> bool {
    forall|i: int, j: int| 0 <= i < j < s.len() ==> !seq_lt(#[trigger] s[j].name, #[trigger] s[i].name)
}

proof fn lemma_option_position(s: Seq<OptionInfo>, name: Seq<char>, i: int)
    requires
        0 <= i <= s.len(),
    ensures
        i <= option_position(s, name, i) <= s.len(),
        forall|k: int| i <= k < option_position(s, name, i) ==> !seq_lt(name, #[trigger] s[k].name),
        option_position(s, name, i) < s.len() ==> seq_lt(name, s[option_position(s, name, i)].name),
    decreases s.len() - i,
{
    if i < s.len() && !seq_lt(name, s[i].name) {
        lemma_option_position(s, name, i + 1);
    }
}

/// The help message lists the options in order of their names, each option once.
pub proof fn law_options_sorted(s: Seq<OptionInfo>)
    ensures
        options_sorted(sort_options(s)),
        sort_options(s).len() == s.len(),
        forall|i: int| 0 <= i < s.len() ==> sort_options(s).contains(#[trigger] s[i]),
    decreases s.len(),
{
    if s.len() > 0 {
        let prev = sort_options(s.drop_last());
        law_options_sorted(s.drop_last());
        let x = s.last();
        lemma_option_position(prev, x.name, 0);
        let p = option_position(prev, x.name, 0);
        let n = prev.insert(p, x);
        assert(n == sort_options(s));
        assert forall|a: int, b: int| 0 <= a < b < n.len() implies !seq_lt(#[trigger] n[b].name, #[trigger] n[a].name) by {
            if b < p {
                assert(n[a] == prev[a] && n[b] == prev[b]);
            } else if b == p {
                assert(n[a] == prev[a]);
                assert(n[b] == x);
            } else if a < p {
                assert(n[a] == prev[a] && n[b] == prev[b - 1]);
                if seq_lt(prev[b - 1].name, prev[a].name) {
                } else {
                }
            } else if a == p {
                assert(n[a] == x && n[b] == prev[b - 1]);
                if seq_lt(prev[b - 1].name, x.name) {
                    crate::text::lemma_seq_lt_transitive(prev[b - 1].name, x.name, prev[p].name);
                    if b - 1 == p {
                        crate::text::lemma_seq_lt_irreflexive(prev[p].name);
                    }
                }
            } else {
                assert(n[a] == prev[a - 1] && n[b] == prev[b - 1]);
            }
        }
        assert forall|i: int| 0 <= i < s.len() implies n.contains(#[trigger] s[i]) by {
            if i < s.len() - 1 {
                assert(s.drop_last()[i] == s[i]);
                assert(prev.contains(s[i]));
                let k = choose|k: int| 0 <= k < prev.len() && prev[k] == s[i];
                if k < p {
                    assert(n[k] == s[i]);
                } else {
                    assert(n[k + 1] == s[i]);
                }
            } else {
                assert(n[p] == x);
            }
        }
    }
}

/// Whether an option has the name `name`.
pub open spec fn named(name: Seq<char>) -> spec_fn(OptionInfo) -> bool {
    |o: OptionInfo| o.name == name
}

proof fn lemma_filter_none_named(b: Seq<OptionInfo>, name: Seq<char>)
    requires
        forall|k: int| 0 <= k < b.len() ==> #[trigger] b[k].name != name,
    ensures
        b.filter(named(name)) =~= Seq::<OptionInfo>::empty(),
    decreases b.len(),
{
    reveal(Seq::filter);
    if b.len() > 0 {
        lemma_filter_none_named(b.drop_last(), name);
    }
}

/// Sorting keeps the order of options of equal names: those named `name` come out in the order
/// they were given.
pub proof fn law_sort_options_stable(s: Seq<OptionInfo>, name: Seq<char>)
    ensures
        sort_options(s).filter(named(name)) == s.filter(named(name)),
    decreases s.len(),
{
    reveal(Seq::filter);
    if s.len() > 0 {
        let f = named(name);
        let prev = sort_options(s.drop_last());
        law_sort_options_stable(s.drop_last(), name);
        law_options_sorted(s.drop_last());
        let x = s.last();
        lemma_option_position(prev, x.name, 0);
        let p = option_position(prev, x.name, 0);
        let a = prev.subrange(0, p);
        let b = prev.subrange(p, prev.len() as int);
        let one = seq![x];
        let n = prev.insert(p, x);
        assert(n == sort_options(s));
        assert(n =~= (a + one) + b);
        assert(prev =~= a + b);
        Seq::filter_distributes_over_add(a + one, b, f);
        Seq::filter_distributes_over_add(a, one, f);
        Seq::filter_distributes_over_add(a, b, f);
        assert(one.drop_last() =~= Seq::<OptionInfo>::empty());
        assert(one.last() == x);
        if x.name == name {
            assert forall|k: int| 0 <= k < b.len() implies #[trigger] b[k].name != name by {
                assert(b[k] == prev[p + k]);
                assert(seq_lt(x.name, prev[p].name));
                if b[k].name == name {
                    if k == 0 {
                        crate::text::lemma_seq_lt_irreflexive(x.name);
                    } else {
                        assert(!seq_lt(prev[p + k].name, prev[p].name));
                    }
                }
            }
            lemma_filter_none_named(b, name);
            assert(n.filter(f) =~= prev.filter(f).push(x));
        } else {
            assert(!f(x));
            assert(one.drop_last().filter(f) =~= Seq::<OptionInfo>::empty());
            assert(one.filter(f) =~= Seq::<OptionInfo>::empty());
            assert(n.filter(f) =~= prev.filter(f));
        }
    }
}

/// The token parser takes an option at most once: after `--name` (whatever became of it), a
/// second `--name` is refused.
pub proof fn law_token_parser_option_once(s: crate::tokens::ParserState, name: Seq<char>)
    requires
        crate::tokens::parser_wf(s),
        has_no_equals(name),
    ensures
        crate::tokens::spec_feed(crate::tokens::spec_feed(s, long_flag(name)).0, long_flag(name)).1 is Refused,
{
    lemma_split_long(name);
    let tok = long_flag(name);
    assert(tok[0] == '-' && tok[1] == '-');
    assert(crate::matcher::token_matcher::spec_split_eq(tok.skip(2)) == (name, Option::<Seq<char>>::None));
    let s1 = crate::tokens::spec_feed(s, tok).0;
    crate::tokens::lemma_name_index(s.names, name, 0);
    assert(s1.names == s.names);
    match crate::tokens::live_index(s, name) {
        Some(i) => {
            assert(!s1.live[i]);
        },
        None => {
            assert(s1 == s);
        },
    }
}

/// The token parser takes a short option at most once: after `-c` (whatever became of it), a
/// second `-c` is refused.
pub proof fn law_token_parser_short_once(s: crate::tokens::ParserState, c: char)
    requires
        crate::tokens::parser_wf(s),
        c != '-',
        !(crate::tokens::spec_feed(s, short_flag(c)).1 is Aborts),
    ensures
        crate::tokens::spec_feed(crate::tokens::spec_feed(s, short_flag(c)).0, short_flag(c)).1 is Refused,
{
    let tok = short_flag(c);
    assert(tok.skip(1) =~= seq![c]);
    assert(tok[0] == '-');
    assert(!(tok.len() >= 2 && tok[0] == '-' && tok[1] == '-'));
    let t = seq![c];
    let r1 = crate::tokens::spec_match_short(s, t, 0);
    assert(crate::tokens::spec_feed(s, tok) == r1);
    let s1 = r1.0;
    match crate::tokens::short_live_index(s, c) {
        None => {
            assert(s1 == s);
        },
        Some(j) => match crate::tokens::live_index(s, s.short_names[j]) {
            None => {
                assert(s1 == s);
            },
            Some(i) => {
                let step = crate::tokens::spec_short_step(s, t, 0, i);
                assert(step.0.shorts == s.shorts);
                assert(step.0.short_live == s.short_live);
                if step.1 is Done {
                    let s2 = crate::tokens::ParserState { short_live: step.0.short_live.update(j, false), ..step.0 };
                    crate::tokens::lemma_char_index(s.shorts, c, 0);
                    assert(crate::tokens::spec_match_short(s2, t, 1) == (s2, crate::tokens::Flow::Done));
                    assert(s1 == s2);
                    assert(!s1.short_live[j]);
                    assert(s1.shorts == s.shorts);
                } else {
                    assert(step.1 is Refused);
                    assert(s1 == step.0);
                    assert(s1.short_live == s.short_live);
                    assert(s1.names == s.names);
                    crate::tokens::lemma_name_index(s.names, s.short_names[j], 0);
                    assert(!s1.live[i]);
                    assert(s1.short_names == s.short_names);
                }
            },
        },
    }
}

proof fn lemma_command_index(cs: Seq<(Seq<char>, crate::builder::CommandSpec)>, name: Seq<char>, i: int)
    requires
        0 <= i,
    ensures
        crate::builder::command_index(cs, name, i) matches Some(k) ==> i <= k < cs.len() && cs[k].0 == name
            && forall|j: int| i <= j < k ==> cs[j].0 != name,
        crate::builder::command_index(cs, name, i) is None ==> forall|j: int| i <= j < cs.len() ==> cs[j].0 != name,
    decreases cs.len() - i,
{
    if i < cs.len() && cs[i].0 != name {
        lemma_command_index(cs, name, i + 1);
    }
}

proof fn lemma_command_index_first(cs: Seq<(Seq<char>, crate::builder::CommandSpec)>, name: Seq<char>, k: int)
    requires
        0 <= k < cs.len(),
        cs[k].0 == name,
        forall|j: int| 0 <= j < k ==> cs[j].0 != name,
    ensures
        crate::builder::command_index(cs, name, 0) == Some(k),
{
    lemma_command_index(cs, name, 0);
    match crate::builder::command_index(cs, name, 0) {
        Some(x) => {
            if x < k {
                assert(cs[x].0 != name);
            }
            if x > k {
                assert(cs[k].0 != name);
            }
        },
        None => {
            assert(cs[k].0 != name);
        },
    }
}

/// Setting up the same sub-command twice keeps only the later setup, in the place of the first.
pub proof fn law_command_replaces(
    cs: Seq<(Seq<char>, crate::builder::CommandSpec)>,
    name: Seq<char>,
    first: crate::builder::CommandSpec,
    second: crate::builder::CommandSpec,
)
    ensures
        crate::builder::commands_set(crate::builder::commands_set(cs, name, first), name, second)
            == crate::builder::commands_set(cs, name, second),
{
    lemma_command_index(cs, name, 0);
    let once = crate::builder::commands_set(cs, name, first);
    match crate::builder::command_index(cs, name, 0) {
        Some(k) => {
            assert forall|j: int| 0 <= j < k implies once[j].0 != name by {
                assert(once[j] == cs[j]);
            }
            lemma_command_index_first(once, name, k);
            assert(once.update(k, (name, second)) =~= cs.update(k, (name, second)));
        },
        None => {
            let k = cs.len() as int;
            assert forall|j: int| 0 <= j < k implies once[j].0 != name by {
                assert(once[j] == cs[j]);
            }
            lemma_command_index_first(once, name, k);
            assert(once.update(k, (name, second)) =~= cs.push((name, second)));
        },
    }
}

/// Adding a parameter to a sub-command adds it to the one set up with that variant, or sets
/// up a new sub-command holding it: adding parameters one by one equals setting the
/// sub-command up with all of them, in order.
pub proof fn law_add_is_setup(
    cs: Seq<(Seq<char>, crate::builder::CommandSpec)>,
    name: Seq<char>,
    p: crate::parameter::ParameterSpec,
    p2: crate::parameter::ParameterSpec,
)
    ensures
        crate::builder::commands_added(cs, name, p) == match crate::builder::command_index(cs, name, 0) {
            Some(k) => crate::builder::commands_set(cs, name, cs[k].1.added(p)),
            None => crate::builder::commands_set(cs, name, crate::builder::empty_command(name).added(p)),
        },
        crate::builder::commands_added(crate::builder::commands_added(cs, name, p), name, p2)
            == match crate::builder::command_index(cs, name, 0) {
            Some(k) => crate::builder::commands_set(cs, name, cs[k].1.added(p).added(p2)),
            None => crate::builder::commands_set(cs, name, crate::builder::empty_command(name).added(p).added(p2)),
        },
{
    lemma_command_index(cs, name, 0);
    let once = crate::builder::commands_added(cs, name, p);
    match crate::builder::command_index(cs, name, 0) {
        Some(k) => {
            assert forall|j: int| 0 <= j < k implies once[j].0 != name by {
                assert(once[j] == cs[j]);
            }
            lemma_command_index_first(once, name, k);
            assert(once.update(k, (name, once[k].1.added(p2))) =~= cs.update(k, (name, cs[k].1.added(p).added(p2))));
        },
        None => {
            let k = cs.len() as int;
            assert forall|j: int| 0 <= j < k implies once[j].0 != name by {
                assert(once[j] == cs[j]);
            }
            lemma_command_index_first(once, name, k);
            assert(once.update(k, (name, once[k].1.added(p2))) =~= cs.push((name, crate::builder::empty_command(name).added(p).added(p2))));
        },
    }
}

proof fn lemma_digit_value(d: nat)
    requires
        d < 10,
    ensures
        crate::capture::is_decimal_digit(crate::numbers::spec_digit(d)),
        crate::numbers::spec_digit(d) as int - '0' as int == d,
{
}

proof fn lemma_decimal_read_back(n: nat)
    ensures
        crate::capture::digits_value(crate::numbers::spec_decimal(n)) == Some(n as int),
        crate::numbers::spec_decimal(n).len() >= 1,
        crate::capture::is_decimal_digit(crate::numbers::spec_decimal(n)[0]),
    decreases n,
{
    let s = crate::numbers::spec_decimal(n);
    if n < 10 {
        lemma_digit_value(n);
    } else {
        lemma_decimal_read_back(n / 10);
        lemma_digit_value(n % 10);
        let prefix = crate::numbers::spec_decimal(n / 10);
        assert(s.drop_last() =~= prefix);
        assert(s[0] == prefix[0]);
        assert((n / 10) * 10 + n % 10 == n);
    }
}

proof fn lemma_unsigned_read_back(n: nat)
    ensures
        crate::capture::unsigned_value(crate::numbers::spec_decimal(n)) == Some(n as int),
        crate::capture::signed_value(crate::numbers::spec_decimal(n)) == Some(n as int),
{
    lemma_decimal_read_back(n);
}

proof fn lemma_signed_read_back(n: int)
    ensures
        crate::capture::signed_value(crate::capture::signed_decimal(n)) == Some(n),
{
    if n < 0 {
        lemma_decimal_read_back((-n) as nat);
        let t = crate::capture::signed_decimal(n);
        assert(t.skip(1) =~= crate::numbers::spec_decimal((-n) as nat));
    } else {
        lemma_unsigned_read_back(n as nat);
    }
}

/// A number written as a token reads back as the same number: unsigned integers.
pub proof fn law_unsigned_token_read_back(a: u8, b: u16, c: u32, d: u64, e: usize)
    ensures
        <u8 as crate::capture::FromToken>::token_means(crate::capture::ToToken::token_text(&a), a),
        <u16 as crate::capture::FromToken>::token_means(crate::capture::ToToken::token_text(&b), b),
        <u32 as crate::capture::FromToken>::token_means(crate::capture::ToToken::token_text(&c), c),
        <u64 as crate::capture::FromToken>::token_means(crate::capture::ToToken::token_text(&d), d),
        <usize as crate::capture::FromToken>::token_means(crate::capture::ToToken::token_text(&e), e),
{
    lemma_unsigned_read_back(a as nat);
    lemma_unsigned_read_back(b as nat);
    lemma_unsigned_read_back(c as nat);
    lemma_unsigned_read_back(d as nat);
    lemma_unsigned_read_back(e as nat);
}

/// A number written as a token reads back as the same number: signed integers.
pub proof fn law_signed_token_read_back(a: i32, b: i64)
    ensures
        <i32 as crate::capture::FromToken>::token_means(crate::capture::ToToken::token_text(&a), a),
        <i64 as crate::capture::FromToken>::token_means(crate::capture::ToToken::token_text(&b), b),
{
    lemma_signed_read_back(a as int);
    lemma_signed_read_back(b as int);
}

/// A flag, a character or a text written as a token reads back as itself.
pub proof fn law_text_token_read_back(a: bool, b: char, c: String)
    ensures
        <bool as crate::capture::FromToken>::token_means(crate::capture::ToToken::token_text(&a), a),
        <char as crate::capture::FromToken>::token_means(crate::capture::ToToken::token_text(&b), b),
        <String as crate::capture::FromToken>::token_means(crate::capture::ToToken::token_text(&c), c),
{
}


proof fn lemma_field_converts_all(f: crate::field::FieldSpec, vals: Seq<(nat, Seq<char>)>, v: int)
    requires
        0 <= v,
        forall|x: int| 0 <= x < vals.len() ==> (f.converts)(#[trigger] vals[x].1),
    ensures
        crate::parser::field_unconverted(f, vals, v) is None,
    decreases vals.len() - v,
{
    if v < vals.len() {
        assert((f.converts)(vals[v].1));
        lemma_field_converts_all(f, vals, v + 1);
    }
}

proof fn lemma_fields_convert_from(names: Seq<Seq<char>>, fs: Seq<crate::field::FieldSpec>, m: Seq<TokensSpec>, q: int, used: Seq<bool>)
    requires
        0 <= q,
        fs.len() == names.len(),
        forall|p: int, v: int, k: int| 0 <= p < m.len() && 0 <= v < m[p].values.len() && 0 <= k < fs.len() && names[k] == m[p].name
            ==> #[trigger] (fs[k].converts)(m[p].values[v].1),
    ensures
        crate::parser::fields_unconverted_from(names, fs, m, q, used) is None,
    decreases m.len() - q,
{
    if q < m.len() {
        crate::parser::lemma_free_index_range(names, used, m[q].name, 0);
        match crate::parser::free_index(names, used, m[q].name, 0) {
            Some(k) => {
                assert forall|x: int| 0 <= x < m[q].values.len() implies (fs[k].converts)(#[trigger] m[q].values[x].1) by {
                    assert(names[k] == m[q].name);
                }
                lemma_field_converts_all(fs[k], m[q].values, 0);
                lemma_fields_convert_from(names, fs, m, q + 1, used.update(k, true));
            },
            None => {
                lemma_fields_convert_from(names, fs, m, q + 1, used);
            },
        }
    }
}

/// Values that convert are captured: when every value matched converts under each field of its
/// parameter's name, no value is left unconverted.
pub proof fn law_converting_values_capture(names: Seq<Seq<char>>, fs: Seq<crate::field::FieldSpec>, m: Seq<TokensSpec>)
    requires
        fs.len() == names.len(),
        forall|p: int, v: int, k: int| 0 <= p < m.len() && 0 <= v < m[p].values.len() && 0 <= k < fs.len() && names[k] == m[p].name
            ==> #[trigger] (fs[k].converts)(m[p].values[v].1),
    ensures
        crate::parser::fields_unconverted(names, fs, m) is None,
{
    lemma_fields_convert_from(names, fs, m, 0, crate::parser::none_used(names.len()));
}

/// A command whose fields take every value that converts parses tokens whose matched values
/// all convert with success: the exit status is `Ok`.
pub proof fn law_converting_parse_succeeds(
    g: crate::middleware::GeneralSpec,
    tokens: Seq<Seq<char>>,
    r: Result<(), i32>,
    fs: Seq<crate::field::FieldSpec>,
    m: Seq<TokensSpec>,
    consumed: nat,
)
    requires
        crate::middleware::status_agrees(g, tokens, r),
        g.command.parser.discriminator is None,
        crate::parser::captures_into(g.command.parser, fs),
        crate::parser::fields_accept_all(fs),
        match_outcome(g.command.parser.matcher, tokens, false) == MatchOutcome::Matched(m, consumed),
        forall|p: int, v: int, k: int| 0 <= p < m.len() && 0 <= v < m[p].values.len() && 0 <= k < fs.len() && g.command.parser.names[k] == m[p].name
            ==> #[trigger] (fs[k].converts)(m[p].values[v].1),
    ensures
        r == Ok::<(), i32>(()),
{
    law_converting_values_capture(g.command.parser.names, fs, m);
    let p = g.command.parser;
    assert((p.unconverted)(m) == crate::parser::fields_unconverted(p.names, fs, m));
}

/// The values shown for `Nargs::Precisely(n)` are exactly `n` copies of the example, separated by
/// single spaces: the text is `n` times the example's length plus `n - 1` spaces long, copy `i`
/// starts at `i` times (the example's length plus one), and a single space follows each copy but
/// the last. No copies are shown for no values.
pub proof fn law_repeated_copies(e: Seq<char>, n: nat)
    ensures
        n == 0 ==> crate::printer::repeated(e, n).len() == 0,
        n >= 1 ==> crate::printer::repeated(e, n).len() == n * (e.len() + 1) - 1,
        forall|i: int, j: int| 0 <= i < n && 0 <= j < e.len() ==>
            #[trigger] crate::printer::repeated(e, n)[i * (e.len() + 1) + j] == e[j],
        forall|i: int| 0 <= i < n - 1 ==>
            #[trigger] crate::printer::repeated(e, n)[i * (e.len() + 1) + e.len()] == ' ',
    decreases n,
{
    let w = e.len() + 1;
    let r = crate::printer::repeated(e, n);
    if n == 1 {
        assert(r == e);
        assert forall|i: int, j: int| 0 <= i < n && 0 <= j < e.len() implies #[trigger] r[i * w + j] == e[j] by {
            assert(i == 0);
            assert(i * w == 0) by (nonlinear_arith) requires i == 0;
        }
    } else if n >= 2 {
        let m = (n - 1) as nat;
        law_repeated_copies(e, m);
        let prev = crate::printer::repeated(e, m);
        assert(r == prev + seq![' '] + e);
        assert(prev.len() == m * w - 1);
        assert(n * w - 1 == m * w - 1 + 1 + e.len()) by (nonlinear_arith)
            requires n == m + 1, w == e.len() + 1;
        assert forall|i: int, j: int| 0 <= i < n && 0 <= j < e.len() implies #[trigger] r[i * w + j] == e[j] by {
            if i < m {
                assert(i * w + j < m * w - 1) by (nonlinear_arith)
                    requires 0 <= i < m, 0 <= j < e.len(), w == e.len() + 1;
                assert(r[i * w + j] == prev[i * w + j]);
            } else {
                assert(i * w == m * w) by (nonlinear_arith) requires i == m;
                assert(r[i * w + j] == e[j]);
            }
        }
        assert forall|i: int| 0 <= i < n - 1 implies #[trigger] r[i * w + e.len()] == ' ' by {
            if i < m - 1 {
                assert(i * w + e.len() < m * w - 1) by (nonlinear_arith)
                    requires 0 <= i < m - 1, w == e.len() + 1;
                assert(r[i * w + e.len()] == prev[i * w + e.len()]);
            } else {
                assert(i * w + e.len() == m * w - 1) by (nonlinear_arith)
                    requires i == m - 1, w == e.len() + 1;
            }
        }
    }
}

/// A `Vec` or `HashSet` field without commands (and not marked both `argument` and `option`)
/// collects values: as an option exactly when it is marked `option`, whether or not it has a
/// `collection` attribute, and otherwise as a positional argument. The `collection` attribute only
/// sets the number of values (at least one when it is absent), and an option keeps its short name.
pub proof fn law_collection_field_kind(f: crate::derive::FieldModel)
    requires
        f.type_head@ == "Vec"@ || f.type_head@ == "HashSet"@,
        f.commands is None,
        !(f.argument && f.option),
    ensures
        f.option ==> crate::derive::load_spec(f) == Ok::<crate::derive::KindSpec, Seq<char>>(crate::derive::KindSpec::CollectionOption(
            match f.collection { Some(c) => c@, None => "Nargs::AtLeastOne"@ },
            crate::printer::opt_text(f.short),
        )),
        !f.option ==> crate::derive::load_spec(f) == Ok::<crate::derive::KindSpec, Seq<char>>(crate::derive::KindSpec::CollectionArgument(
            match f.collection { Some(c) => c@, None => "Nargs::AtLeastOne"@ },
        )),
{
    reveal_strlit("Vec");
    reveal_strlit("HashSet");
    reveal_strlit("Option");
    assert("Vec"@.len() != "Option"@.len());
    assert("HashSet"@.len() != "Option"@.len());
    assert(f.type_head@ != "Option"@);
}

/// The kind of a field that is neither an `Option`, a `Vec`, a `HashSet` nor a `bool`, without
/// commands (and not marked both `argument` and `option`): a collection argument with its
/// `collection` attribute, otherwise an option (with its short name) exactly when marked `option`,
/// and otherwise a positional argument taking one value.
pub proof fn law_scalar_field_kind(f: crate::derive::FieldModel)
    requires
        f.type_head@ != "Option"@,
        f.type_head@ != "Vec"@,
        f.type_head@ != "HashSet"@,
        f.type_head@ != "bool"@,
        f.commands is None,
        !(f.argument && f.option),
    ensures
        f.collection matches Some(c) ==> crate::derive::load_spec(f) == Ok::<crate::derive::KindSpec, Seq<char>>(crate::derive::KindSpec::CollectionArgument(c@)),
        f.collection is None && f.option ==> crate::derive::load_spec(f) == Ok::<crate::derive::KindSpec, Seq<char>>(crate::derive::KindSpec::ScalarOption(crate::printer::opt_text(f.short))),
        f.collection is None && !f.option ==> crate::derive::load_spec(f) == Ok::<crate::derive::KindSpec, Seq<char>>(crate::derive::KindSpec::ScalarArgument),
{
}

/// An `Option` field without `argument`, `collection` or commands is an option whose value is
/// optional, and a `bool` field without commands is a switch; both keep their short name.
pub proof fn law_optional_and_switch_kind(f: crate::derive::FieldModel)
    requires
        f.commands is None,
        !(f.argument && f.option),
    ensures
        f.type_head@ == "Option"@ && !f.argument && f.collection is None
            ==> crate::derive::load_spec(f) == Ok::<crate::derive::KindSpec, Seq<char>>(crate::derive::KindSpec::OptionalOption(crate::printer::opt_text(f.short))),
        f.type_head@ == "bool"@
            ==> crate::derive::load_spec(f) == Ok::<crate::derive::KindSpec, Seq<char>>(crate::derive::KindSpec::Switch(crate::printer::opt_text(f.short))),
{
    reveal_strlit("Vec");
    reveal_strlit("HashSet");
    reveal_strlit("Option");
    reveal_strlit("bool");
    assert("bool"@.len() != "Option"@.len());
    assert("bool"@ != "Vec"@) by {
        assert("bool"@[0] != "Vec"@[0]);
    }
    assert("bool"@.len() != "HashSet"@.len());
    assert("Option"@.len() != "Vec"@.len());
    assert("Option"@.len() != "HashSet"@.len());
}

} // verus!
