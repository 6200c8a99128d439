//! The cardinality model shared by fields, parameters and the matcher.
use vstd::prelude::*;

verus! {

/// The cardinality of inputs to match for an argument/option.
///
/// Inspired by argparse: <https://docs.python.org/3/library/argparse.html#nargs>
#[derive(Debug, Clone, Copy, PartialEq, Eq, Structural)]
pub enum Nargs {
    /// `N`: Precisely `N` values.
    Precisely(u8),
    /// `*`: May be any number of values, including `0`.
    Any,
    /// `+`: At least one value must be specified.
    AtLeastOne,
}

impl Nargs {
    /// The display text of the cardinality (its variant, as `Debug` shows it).
    pub fn to_string(&self) -> (r: String)
        ensures
            r@ == spec_nargs_text(*self),
    {
        match self {
            Nargs::Precisely(n) => {
                let mut v = crate::text::chars_of("Precisely(");
                let digits = crate::numbers::decimal_digits(*n as u64);
                crate::text::append_chars(&mut v, &digits);
                v.push(')');
                proof {
                    reveal_strlit(")");
                    assert(v@ =~= "Precisely("@ + crate::numbers::spec_decimal(*n as nat) + ")"@);
                }
                crate::text::string_of(&v)
            },
            Nargs::Any => "Any".to_owned(),
            Nargs::AtLeastOne => "AtLeastOne".to_owned(),
        }
    }
}

/// The display text of a cardinality.
pub open spec fn spec_nargs_text(n: Nargs) -> Seq<char> {
    match n {
        Nargs::Precisely(k) => "Precisely("@ + crate::numbers::spec_decimal(k as nat) + ")"@,
        Nargs::Any => "Any"@,
        Nargs::AtLeastOne => "AtLeastOne"@,
    }
}

} // verus!
