//! The buffer that collects the values of one parameter, and what it yields when closed.
use vstd::prelude::*;
use crate::matcher::api::Bound;
use crate::matcher::api::OffsetValue;

verus! {

/// The abstract value of offset/value pairs.
pub open spec fn values_view(v: Seq<OffsetValue>) -> Seq<(nat, Seq<char>)> {
    v.map_values(|p: OffsetValue| (p.0 as nat, p.1@))
}

/// The abstract value of a completed match.
pub struct TokensSpec {
    pub name: Seq<char>,
    pub values: Seq<(nat, Seq<char>)>,
}

/// The values matched to the parameter `name`.
#[derive(Debug, PartialEq, Eq, Hash)]
pub struct MatchTokens {
    pub name: String,
    pub values: Vec<OffsetValue>,
}

impl View for MatchTokens {
    type V = TokensSpec;

    open spec fn view(&self) -> TokensSpec {
        TokensSpec { name: self.name@, values: values_view(self.values@) }
    }
}

/// The abstract value of a close error.
pub enum CloseErrorSpec {
    TooFewValues { name: Seq<char>, provided: nat, expected: u8 },
    TooManyValues { name: Seq<char>, provided: nat, expected: u8 },
}

/// Why a buffer could not close.
#[derive(Debug, PartialEq, Eq)]
pub enum CloseError {
    TooFewValues { name: String, provided: usize, expected: u8 },
    TooManyValues { name: String, provided: usize, expected: u8 },
}

impl View for CloseError {
    type V = CloseErrorSpec;

    open spec fn view(&self) -> CloseErrorSpec {
        match self {
            CloseError::TooFewValues { name, provided, expected } => CloseErrorSpec::TooFewValues {
                name: name@,
                provided: *provided as nat,
                expected: *expected,
            },
            CloseError::TooManyValues { name, provided, expected } => CloseErrorSpec::TooManyValues {
                name: name@,
                provided: *provided as nat,
                expected: *expected,
            },
        }
    }
}

/// The abstract value of a buffer.
pub struct BufferSpec {
    pub name: Seq<char>,
    pub bound: Bound,
    pub values: Seq<(nat, Seq<char>)>,
}

/// An empty buffer for the parameter `name`.
pub open spec fn empty_buffer(name: Seq<char>, bound: Bound) -> BufferSpec {
    BufferSpec { name, bound, values: Seq::empty() }
}

/// Whether the buffer may take another value.
pub open spec fn buffer_open(b: BufferSpec) -> bool {
    match b.bound {
        Bound::Range(_, n) => b.values.len() < n,
        Bound::Lower(_) => true,
    }
}

/// What closing the buffer yields.
pub open spec fn close_buffer(b: BufferSpec) -> Result<TokensSpec, CloseErrorSpec> {
    match b.bound {
        Bound::Lower(n) => if b.values.len() < n {
            Err(CloseErrorSpec::TooFewValues { name: b.name, provided: b.values.len(), expected: n })
        } else {
            Ok(TokensSpec { name: b.name, values: b.values })
        },
        Bound::Range(i, j) => if b.values.len() < i {
            Err(CloseErrorSpec::TooFewValues { name: b.name, provided: b.values.len(), expected: i })
        } else if b.values.len() > j {
            Err(CloseErrorSpec::TooManyValues { name: b.name, provided: b.values.len(), expected: j })
        } else {
            Ok(TokensSpec { name: b.name, values: b.values })
        },
    }
}

/// Collects the values of one parameter.
#[derive(Debug)]
pub struct MatchBuffer {
    pub name: String,
    pub bound: Bound,
    pub values: Vec<OffsetValue>,
}

impl View for MatchBuffer {
    type V = BufferSpec;

    open spec fn view(&self) -> BufferSpec {
        BufferSpec { name: self.name@, bound: self.bound, values: values_view(self.values@) }
    }
}

impl MatchBuffer {
    /// An empty buffer for `name`.
    pub fn new(name: String, bound: Bound) -> (r: Self)
        ensures
            r@ == empty_buffer(name@, bound),
    {
        let r = MatchBuffer { name, bound, values: Vec::new() };
        assert(r@.values =~= Seq::<(nat, Seq<char>)>::empty());
        r
    }

    /// Add a value seen at `offset`.
    pub fn push(&mut self, offset: usize, value: String)
        ensures
            final(self)@ == (BufferSpec {
                values: old(self)@.values.push((offset as nat, value@)),
                ..old(self)@
            }),
    {
        let ghost pair = (offset, value);
        self.values.push((offset, value));
        assert(values_view(self.values@) =~= values_view(old(self).values@).push((pair.0 as nat, pair.1@)));
    }

    /// Whether the buffer may take another value.
    pub fn is_open(&self) -> (r: bool)
        ensures
            r == buffer_open(self@),
    {
        match self.bound {
            Bound::Range(_, n) => self.values.len() < n as usize,
            Bound::Lower(_) => true,
        }
    }

    /// Whether closing the buffer would succeed.
    pub fn can_close(&self) -> (r: bool)
        ensures
            r == close_buffer(self@) is Ok,
    {
        match self.bound {
            Bound::Lower(n) => self.values.len() >= n as usize,
            Bound::Range(i, j) => self.values.len() >= i as usize && self.values.len() <= j as usize,
        }
    }

    /// Close the buffer, checking the number of values against the bound.
    pub fn close(self) -> (r: Result<MatchTokens, CloseError>)
        ensures
            r matches Ok(t) ==> close_buffer(self@) == Ok::<TokensSpec, CloseErrorSpec>(t@),
            r matches Err(e) ==> close_buffer(self@) == Err::<TokensSpec, CloseErrorSpec>(e@),
    {
        let provided = self.values.len();
        match self.bound {
            Bound::Lower(n) => {
                if provided < n as usize {
                    return Err(CloseError::TooFewValues { name: self.name, provided, expected: n });
                }
            },
            Bound::Range(i, j) => {
                if provided < i as usize {
                    return Err(CloseError::TooFewValues { name: self.name, provided, expected: i });
                } else if provided > j as usize {
                    return Err(CloseError::TooManyValues { name: self.name, provided, expected: j });
                }
            },
        }
        Ok(MatchTokens { name: self.name, values: self.values })
    }
}

} // verus!
