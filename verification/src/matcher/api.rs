//! The configuration given to the token matcher, and the matches it produces.
use vstd::prelude::*;
use crate::model::Nargs;
use crate::matcher::model::MatchTokens;
use crate::matcher::model::TokensSpec;

verus! {

/// The number of values a parameter accepts: `Range(lower, upper)` or at least `Lower(lower)`.
#[derive(Debug, Clone, Copy, PartialEq, Eq, Structural, Hash)]
pub enum Bound {
    /// Between the two numbers of values, both included.
    Range(u8, u8),
    /// At least this number of values.
    Lower(u8),
}

/// The bound that a cardinality stands for.
pub open spec fn spec_bound_of(nargs: Nargs) -> Bound {
    match nargs {
        Nargs::Precisely(n) => Bound::Range(n, n),
        Nargs::Any => Bound::Lower(0),
        Nargs::AtLeastOne => Bound::Lower(1),
    }
}

impl From<Nargs> for Bound {
    fn from(value: Nargs) -> (r: Bound) {
        match value {
            Nargs::Precisely(n) => Bound::Range(n, n),
            Nargs::Any => Bound::Lower(0),
            Nargs::AtLeastOne => Bound::Lower(1),
        }
    }
}

impl vstd::std_specs::convert::FromSpecImpl<Nargs> for Bound {
    open spec fn obeys_from_spec() -> bool {
        true
    }

    open spec fn from_spec(v: Nargs) -> Bound {
        spec_bound_of(v)
    }
}

/// The bound that a cardinality stands for.
pub fn bound_of(nargs: Nargs) -> (r: Bound)
    ensures
        r == spec_bound_of(nargs),
{
    Bound::from(nargs)
}

/// The abstract value of an argument configuration.
pub struct ArgumentSpec {
    pub name: Seq<char>,
    pub bound: Bound,
}

/// A positional argument: its name and how many values it takes.
#[derive(Debug, Clone)]
pub struct ArgumentConfig {
    pub name: String,
    pub bound: Bound,
}

impl View for ArgumentConfig {
    type V = ArgumentSpec;

    open spec fn view(&self) -> ArgumentSpec {
        ArgumentSpec { name: self.name@, bound: self.bound }
    }
}

impl ArgumentConfig {
    /// Create an argument configuration.
    pub fn new(name: String, bound: Bound) -> (r: Self)
        ensures
            r@ == (ArgumentSpec { name: name@, bound }),
    {
        ArgumentConfig { name, bound }
    }

    /// The argument's name.
    pub fn name(&self) -> (r: &String)
        ensures
            r@ == self@.name,
    {
        &self.name
    }

    /// The argument's bound.
    pub fn bound(&self) -> (r: Bound)
        ensures
            r == self@.bound,
    {
        self.bound
    }
}

/// The abstract value of an option configuration.
pub struct OptionSpec {
    pub name: Seq<char>,
    pub short: Option<char>,
    pub bound: Bound,
}

/// An option: its long name, optional short name and how many values it takes.
#[derive(Debug, Clone, PartialEq, Eq, Hash)]
pub struct OptionConfig {
    pub name: String,
    pub short: Option<char>,
    pub bound: Bound,
}

impl View for OptionConfig {
    type V = OptionSpec;

    open spec fn view(&self) -> OptionSpec {
        OptionSpec { name: self.name@, short: self.short, bound: self.bound }
    }
}

impl OptionConfig {
    /// Create an option configuration.
    pub fn new(name: String, short: Option<char>, bound: Bound) -> (r: Self)
        ensures
            r@ == (OptionSpec { name: name@, short, bound }),
    {
        OptionConfig { name, short, bound }
    }

    /// The option's long name.
    pub fn name(&self) -> (r: &String)
        ensures
            r@ == self@.name,
    {
        &self.name
    }

    /// The option's short name.
    pub fn short(&self) -> (r: Option<char>)
        ensures
            r == self@.short,
    {
        self.short
    }

    /// The option's bound.
    pub fn bound(&self) -> (r: Bound)
        ensures
            r == self@.bound,
    {
        self.bound
    }
}

/// A value together with the offset (in bytes of the fed tokens) at which it appeared.
pub type OffsetValue = (usize, String);

/// The parameters matched by a token matcher, in the order they were completed.
#[derive(Debug, PartialEq, Eq)]
pub struct Matches {
    pub values: Vec<MatchTokens>,
}

/// The abstract value of a sequence of matches.
pub open spec fn tokens_view(v: Seq<MatchTokens>) -> Seq<TokensSpec> {
    v.map_values(|t: MatchTokens| t@)
}

impl View for Matches {
    type V = Seq<TokensSpec>;

    open spec fn view(&self) -> Seq<TokensSpec> {
        tokens_view(self.values@)
    }
}

/// Whether some match carries the given name.
pub open spec fn spec_contains(m: Seq<TokensSpec>, name: Seq<char>) -> bool {
    exists|i: int| 0 <= i < m.len() && m[i].name == name
}

impl Matches {
    /// Whether a parameter of this name was matched.
    pub fn contains(&self, name: &str) -> (r: bool)
        ensures
            r == spec_contains(self@, name@),
    {
        let n = name.to_owned();
        let mut i: usize = 0;
        while i < self.values.len()
            invariant
                i <= self.values.len(),
                n@ == name@,
                forall|j: int| 0 <= j < i ==> self@[j].name != name@,
            decreases self.values.len() - i,
        {
            if self.values[i].name == n {
                assert(self@[i as int].name == name@);
                return true;
            }
            i = i + 1;
        }
        false
    }
}

} // verus!
