//! The fields that bind parameters to program variables.
use vstd::prelude::*;
use std::collections::HashSet;
use std::hash::Hash;
use std::marker::PhantomData;
use crate::capture::CliArgument;
use crate::capture::CliOption;
use crate::capture::FromToken;
use crate::capture::InvalidCapture;
use crate::model::Nargs;

verus! {

/// Behaviour to capture an explicit generic type `T` from an input token.
pub trait GenericCapturable<'a, T> {
    /// Whether the parameter has been declared matched.
    spec fn spec_matched(&self) -> bool;

    /// Whether the token converts to a value that this field takes.
    spec fn spec_converts(&self, token: Seq<char>) -> bool;

    /// Whether the field takes every value that converts (no collection that may refuse one).
    spec fn spec_accepts_all(&self) -> bool;

    /// The tokens handed to the field to capture, in order.
    spec fn spec_given(&self) -> Seq<Seq<char>>;

    /// Declare that the parameter has been matched.
    fn matched(&mut self)
        ensures
            final(self).spec_matched(),
            final(self).spec_given() == old(self).spec_given(),
            final(self).spec_nargs() == old(self).spec_nargs(),
            final(self).spec_accepts_all() == old(self).spec_accepts_all(),
            forall|t: Seq<char>| #[trigger] final(self).spec_converts(t) == old(self).spec_converts(t);

    /// Capture a value into the generic type `T` for this parameter: the conversion fails exactly
    /// on the tokens that do not convert, and an error names the token.
    fn capture(&mut self, token: &str) -> (r: Result<(), InvalidCapture>)
        ensures
            final(self).spec_matched() == old(self).spec_matched(),
            final(self).spec_given() == old(self).spec_given().push(token@),
            final(self).spec_nargs() == old(self).spec_nargs(),
            final(self).spec_accepts_all() == old(self).spec_accepts_all(),
            forall|t: Seq<char>| #[trigger] final(self).spec_converts(t) == old(self).spec_converts(t),
            conversion_failed(r) <==> !old(self).spec_converts(token@),
            old(self).spec_accepts_all() && r is Err ==> conversion_failed(r),
            r matches Err(e) ==> capture_token(e) == token@;

    /// The number of values this field takes.
    spec fn spec_nargs(&self) -> Nargs;

    /// The number of values this field takes.
    fn nargs(&self) -> (r: Nargs)
        ensures
            r == self.spec_nargs();
}

/// Behaviour for multiple (0 to many) items `T` to be collected together.
pub trait Collectable<T>: Sized {
    /// Whether the collection takes every value.
    spec fn spec_accepts_all() -> bool;

    /// Whether `after` is the collection `before` with `item` added.
    spec fn spec_added(before: Self, item: T, after: Self) -> bool;

    /// Add a value to this collection; `Err(message)` when the collection refuses it.
    fn add(&mut self, item: T) -> (r: Result<(), String>)
        ensures
            Self::spec_accepts_all() ==> r is Ok,
            r is Ok ==> Self::spec_added(*old(self), item, *final(self));
}

impl<T> Collectable<T> for Vec<T> {
    open spec fn spec_accepts_all() -> bool {
        true
    }

    open spec fn spec_added(before: Self, item: T, after: Self) -> bool {
        after@ == before@.push(item)
    }

    fn add(&mut self, item: T) -> (r: Result<(), String>)
        ensures
            r is Ok,
            final(self)@ == old(self)@.push(item),
    {
        self.push(item);
        Ok(())
    }
}

impl<T: Eq + Hash> Collectable<T> for HashSet<T> {
    open spec fn spec_accepts_all() -> bool {
        true
    }

    open spec fn spec_added(before: Self, item: T, after: Self) -> bool {
        vstd::std_specs::hash::obeys_key_model::<T>() ==> after@ == before@.insert(item)
    }

    fn add(&mut self, item: T) -> (r: Result<(), String>)
        ensures
            r is Ok,
            vstd::std_specs::hash::obeys_key_model::<T>() ==> final(self)@ == old(self)@.insert(item),
    {
        self.insert(item);
        Ok(())
    }
}

/// Whether the capture failed because the token does not convert.
pub open spec fn conversion_failed(r: Result<(), InvalidCapture>) -> bool {
    r matches Err(InvalidCapture::InvalidConversion { .. })
}

/// The token that a capture error names.
pub open spec fn capture_token(e: InvalidCapture) -> Seq<char> {
    match e {
        InvalidCapture::InvalidConversion { token, .. } => token@,
        InvalidCapture::InvalidAdd { token, .. } => token@,
    }
}

/// The error for a token that does not convert to `T`.
fn conversion_error<T: FromToken>(token: &str) -> (r: InvalidCapture)
    ensures
        (r matches InvalidCapture::InvalidConversion { token: t, type_label: l } && t@ == token@ && l@ == T::label_text()),
{
    InvalidCapture::InvalidConversion { token: token.to_owned(), type_label: T::type_label() }
}

/// A parameter that takes a single value (`Nargs::Precisely(1)`).
pub struct Scalar<'a, T> {
    variable: &'a mut T,
    declared: Ghost<bool>,
    given: Ghost<Seq<Seq<char>>>,
}

impl<'a, T> CliOption for Scalar<'a, T> {}

impl<'a, T> CliArgument for Scalar<'a, T> {}

impl<'a, T> Scalar<'a, T> {
    /// Create a scalar parameter.
    pub fn new(variable: &'a mut T) -> (r: Self)
        ensures
            r.value() == *old(variable),
            !r.was_matched(),
            r.given_tokens() == Seq::<Seq<char>>::empty(),
    {
        Scalar { variable, declared: Ghost(false), given: Ghost(Seq::empty()) }
    }

    /// The tokens handed to the field to capture, in order.
    pub closed spec fn given_tokens(&self) -> Seq<Seq<char>> {
        self.given@
    }

    /// The variable's current value.
    pub closed spec fn value(&self) -> T {
        *self.variable
    }

    /// Whether the parameter has been declared matched.
    pub closed spec fn was_matched(&self) -> bool {
        self.declared@
    }
}

impl<'a, T: FromToken> GenericCapturable<'a, T> for Scalar<'a, T> {
    open spec fn spec_matched(&self) -> bool {
        self.was_matched()
    }

    open spec fn spec_converts(&self, token: Seq<char>) -> bool {
        T::token_valid(token)
    }

    open spec fn spec_accepts_all(&self) -> bool {
        true
    }

    open spec fn spec_given(&self) -> Seq<Seq<char>> {
        self.given_tokens()
    }

    fn matched(&mut self)
        ensures
            final(self).value() == old(self).value(),
    {
        self.declared = Ghost(true);
    }

    fn capture(&mut self, token: &str) -> (r: Result<(), InvalidCapture>)
        ensures
            r is Ok <==> T::token_valid(token@),
            r is Ok ==> T::token_means(token@, final(self).value()),
            r is Err ==> final(self).value() == old(self).value(),
            r matches Err(InvalidCapture::InvalidConversion { type_label: l, .. }) ==> l@ == T::label_text(),
    {
        self.given = Ghost(self.given@.push(token@));
        match T::from_token(token) {
            Some(value) => {
                *self.variable = value;
                Ok(())
            },
            None => Err(conversion_error::<T>(token)),
        }
    }

    open spec fn spec_nargs(&self) -> Nargs {
        Nargs::Precisely(1)
    }

    fn nargs(&self) -> (r: Nargs) {
        Nargs::Precisely(1)
    }
}

/// A parameter that takes a single value: the same field as [`Scalar`].
pub type Value<'a, T> = Scalar<'a, T>;

/// An option parameter that takes no values (`Nargs::Precisely(0)`): being matched sets the
/// variable to the target.
pub struct Switch<'a, T> {
    variable: &'a mut T,
    target: Option<T>,
    given: Ghost<Seq<Seq<char>>>,
}

impl<'a, T> CliOption for Switch<'a, T> {}

impl<'a, T> Switch<'a, T> {
    /// Create a switch parameter (option).
    pub fn new(variable: &'a mut T, target: T) -> (r: Self)
        ensures
            r.value() == *old(variable),
            r.pending() == Some(target),
            r.given_tokens() == Seq::<Seq<char>>::empty(),
    {
        Switch { variable, target: Some(target), given: Ghost(Seq::empty()) }
    }

    /// The tokens handed to the field to capture, in order.
    pub closed spec fn given_tokens(&self) -> Seq<Seq<char>> {
        self.given@
    }

    /// The variable's current value.
    pub closed spec fn value(&self) -> T {
        *self.variable
    }

    /// The value the variable takes when the switch is matched (none once it has been).
    pub closed spec fn pending(&self) -> Option<T> {
        self.target
    }
}

impl<'a, T> GenericCapturable<'a, T> for Switch<'a, T> {
    open spec fn spec_matched(&self) -> bool {
        self.pending() is None
    }

    open spec fn spec_converts(&self, token: Seq<char>) -> bool {
        true
    }

    open spec fn spec_accepts_all(&self) -> bool {
        true
    }

    open spec fn spec_given(&self) -> Seq<Seq<char>> {
        self.given_tokens()
    }

    /// Set the variable to the target (the first time the switch is matched).
    fn matched(&mut self)
        ensures
            old(self).pending() matches Some(t) ==> final(self).value() == t && final(self).pending() is None,
            old(self).pending() is None ==> final(self).value() == old(self).value() && final(self).pending() is None,
    {
        let mut target: Option<T> = None;
        std::mem::swap(&mut target, &mut self.target);
        if let Some(t) = target {
            *self.variable = t;
        }
    }

    /// A switch takes no values: the token is ignored.
    fn capture(&mut self, token: &str) -> (r: Result<(), InvalidCapture>)
        ensures
            r is Ok,
            final(self).value() == old(self).value(),
            final(self).pending() == old(self).pending(),
    {
        self.given = Ghost(self.given@.push(token@));
        Ok(())
    }

    open spec fn spec_nargs(&self) -> Nargs {
        Nargs::Precisely(0)
    }

    fn nargs(&self) -> (r: Nargs) {
        Nargs::Precisely(0)
    }
}

/// An option parameter that maps down to `Option`, taking a single value (`Nargs::Precisely(1)`).
pub struct Optional<'a, T> {
    variable: &'a mut Option<T>,
    declared: Ghost<bool>,
    given: Ghost<Seq<Seq<char>>>,
}

impl<'a, T> CliOption for Optional<'a, T> {}

impl<'a, T> Optional<'a, T> {
    /// Create an optional parameter (option).
    pub fn new(variable: &'a mut Option<T>) -> (r: Self)
        ensures
            r.value() == *old(variable),
            !r.was_matched(),
            r.given_tokens() == Seq::<Seq<char>>::empty(),
    {
        Optional { variable, declared: Ghost(false), given: Ghost(Seq::empty()) }
    }

    /// The tokens handed to the field to capture, in order.
    pub closed spec fn given_tokens(&self) -> Seq<Seq<char>> {
        self.given@
    }

    /// The variable's current value.
    pub closed spec fn value(&self) -> Option<T> {
        *self.variable
    }

    /// Whether the parameter has been declared matched.
    pub closed spec fn was_matched(&self) -> bool {
        self.declared@
    }
}

impl<'a, T: FromToken> GenericCapturable<'a, T> for Optional<'a, T> {
    open spec fn spec_matched(&self) -> bool {
        self.was_matched()
    }

    open spec fn spec_converts(&self, token: Seq<char>) -> bool {
        T::token_valid(token)
    }

    open spec fn spec_accepts_all(&self) -> bool {
        true
    }

    open spec fn spec_given(&self) -> Seq<Seq<char>> {
        self.given_tokens()
    }

    fn matched(&mut self)
        ensures
            final(self).value() == old(self).value(),
    {
        self.declared = Ghost(true);
    }

    fn capture(&mut self, token: &str) -> (r: Result<(), InvalidCapture>)
        ensures
            r is Ok <==> T::token_valid(token@),
            r is Ok ==> (final(self).value() matches Some(v) && T::token_means(token@, v)),
            r is Err ==> final(self).value() == old(self).value(),
            r matches Err(InvalidCapture::InvalidConversion { type_label: l, .. }) ==> l@ == T::label_text(),
    {
        self.given = Ghost(self.given@.push(token@));
        match T::from_token(token) {
            Some(value) => {
                *self.variable = Some(value);
                Ok(())
            },
            None => Err(conversion_error::<T>(token)),
        }
    }

    open spec fn spec_nargs(&self) -> Nargs {
        Nargs::Precisely(1)
    }

    fn nargs(&self) -> (r: Nargs) {
        Nargs::Precisely(1)
    }
}

/// A parameter that takes multiple values (with the given `Nargs`), each added to a collection.
pub struct Collection<'a, C: Collectable<T>, T> {
    variable: &'a mut C,
    nargs: Nargs,
    declared: Ghost<bool>,
    given: Ghost<Seq<Seq<char>>>,
    _phantom: PhantomData<T>,
}

impl<'a, C: Collectable<T>, T> CliOption for Collection<'a, C, T> {}

impl<'a, C: Collectable<T>, T> CliArgument for Collection<'a, C, T> {}

impl<'a, C: Collectable<T>, T> Collection<'a, C, T> {
    /// Create a collection parameter.
    pub fn new(variable: &'a mut C, nargs: Nargs) -> (r: Self)
        ensures
            r.value() == *old(variable),
            r.collection_nargs() == nargs,
            !r.was_matched(),
            r.given_tokens() == Seq::<Seq<char>>::empty(),
    {
        Collection { variable, nargs, declared: Ghost(false), given: Ghost(Seq::empty()), _phantom: PhantomData }
    }

    /// The tokens handed to the field to capture, in order.
    pub closed spec fn given_tokens(&self) -> Seq<Seq<char>> {
        self.given@
    }

    /// Whether the parameter has been declared matched.
    pub closed spec fn was_matched(&self) -> bool {
        self.declared@
    }

    /// The collection's current value.
    pub closed spec fn value(&self) -> C {
        *self.variable
    }

    /// The collection's number of values.
    pub closed spec fn collection_nargs(&self) -> Nargs {
        self.nargs
    }
}

impl<'a, C: Collectable<T>, T: FromToken> GenericCapturable<'a, T> for Collection<'a, C, T> {
    open spec fn spec_matched(&self) -> bool {
        self.was_matched()
    }

    open spec fn spec_converts(&self, token: Seq<char>) -> bool {
        T::token_valid(token)
    }

    open spec fn spec_accepts_all(&self) -> bool {
        C::spec_accepts_all()
    }

    open spec fn spec_given(&self) -> Seq<Seq<char>> {
        self.given_tokens()
    }

    fn matched(&mut self)
        ensures
            final(self).value() == old(self).value(),
            final(self).collection_nargs() == old(self).collection_nargs(),
    {
        self.declared = Ghost(true);
    }

    /// Convert the token and add the value to the collection; the collection decides whether it
    /// takes the value.
    fn capture(&mut self, token: &str) -> (r: Result<(), InvalidCapture>)
        ensures
            !T::token_valid(token@) ==> (r matches Err(InvalidCapture::InvalidConversion { token: t, .. }) && t@ == token@),
            !T::token_valid(token@) ==> final(self).value() == old(self).value(),
            T::token_valid(token@) ==> (r is Ok || (r matches Err(InvalidCapture::InvalidAdd { token: t, .. }) && t@ == token@)),
            T::token_valid(token@) && r is Ok ==> exists|v: T| T::token_means(token@, v) && #[trigger] C::spec_added(old(self).value(), v, final(self).value()),
            r matches Err(InvalidCapture::InvalidConversion { type_label: l, .. }) ==> l@ == T::label_text(),
            final(self).collection_nargs() == old(self).collection_nargs(),
    {
        self.given = Ghost(self.given@.push(token@));
        match T::from_token(token) {
            Some(value) => {
                let ghost before = *self.variable;
                let ghost v = value;
                match self.variable.add(value) {
                    Ok(()) => {
                        assert(C::spec_added(before, v, *self.variable));
                        assert(T::token_means(token@, v));
                        assert(before == old(self).value());
                        assert(*self.variable == self.value());
                        Ok(())
                    },
                    Err(message) => Err(InvalidCapture::InvalidAdd { token: token.to_owned(), message }),
                }
            },
            None => Err(conversion_error::<T>(token)),
        }
    }

    open spec fn spec_nargs(&self) -> Nargs {
        self.collection_nargs()
    }

    fn nargs(&self) -> (r: Nargs) {
        self.nargs
    }
}

/// Behaviour to capture a value of some type, the type left out of the signature so that fields of
/// different types can be held together.
pub trait AnonymousCapturable {
    /// Whether the parameter has been declared matched.
    spec fn spec_matched(&self) -> bool;

    /// Whether the value converts to one that this parameter takes.
    spec fn spec_converts(&self, value: Seq<char>) -> bool;

    /// Whether the parameter takes every value that converts.
    spec fn spec_accepts_all(&self) -> bool;

    /// The values handed to the parameter to capture, in order.
    spec fn spec_given(&self) -> Seq<Seq<char>>;

    /// Declare that the parameter has been matched.
    fn matched(&mut self)
        ensures
            final(self).spec_matched(),
            final(self).spec_given() == old(self).spec_given(),
            final(self).spec_accepts_all() == old(self).spec_accepts_all(),
            forall|t: Seq<char>| #[trigger] final(self).spec_converts(t) == old(self).spec_converts(t);

    /// Capture a value anonymously for this parameter: the conversion fails exactly on the values
    /// that do not convert, and an error names the value.
    fn capture(&mut self, value: &str) -> (r: Result<(), InvalidCapture>)
        ensures
            final(self).spec_matched() == old(self).spec_matched(),
            final(self).spec_given() == old(self).spec_given().push(value@),
            final(self).spec_accepts_all() == old(self).spec_accepts_all(),
            forall|t: Seq<char>| #[trigger] final(self).spec_converts(t) == old(self).spec_converts(t),
            conversion_failed(r) <==> !old(self).spec_converts(value@),
            old(self).spec_accepts_all() && r is Err ==> conversion_failed(r),
            r matches Err(e) ==> capture_token(e) == value@;
}

/// The abstract state of a field as the parser that captures into it sees it: which tokens
/// convert, whether every converting value is taken, whether it has been declared matched, and
/// the tokens handed to it so far.
pub struct FieldSpec {
    pub converts: spec_fn(Seq<char>) -> bool,
    pub accepts_all: bool,
    pub matched: bool,
    pub given: Seq<Seq<char>>,
}

/// The state of a field of a known value type.
pub open spec fn generic_state<'a, T, F: GenericCapturable<'a, T>>(f: F) -> FieldSpec {
    FieldSpec {
        converts: |t: Seq<char>| f.spec_converts(t),
        accepts_all: f.spec_accepts_all(),
        matched: f.spec_matched(),
        given: f.spec_given(),
    }
}

/// The state of the boxed field of a capture (a key, such as the parameter's name or
/// configuration, and the field).
pub open spec fn capture_state<'a, K>(c: (K, Box<dyn AnonymousCapturable + 'a>)) -> FieldSpec {
    FieldSpec {
        converts: |t: Seq<char>| c.1.spec_converts(t),
        accepts_all: c.1.spec_accepts_all(),
        matched: c.1.spec_matched(),
        given: c.1.spec_given(),
    }
}

/// `Box::new`, turning a field into a trait object: a capture of the field under `name`. Calls
/// through a trait object run the field's own methods, so the box has the field's state: the
/// same answers to every spec function of `AnonymousCapturable`.
#[verifier::external_body]
pub(crate) fn named_capture<'a, C: AnonymousCapturable + 'a>(name: String, field: C) -> (r: (String, Box<dyn AnonymousCapturable + 'a>))
    ensures
        r.0@ == name@,
        r.1.spec_matched() == field.spec_matched(),
        r.1.spec_accepts_all() == field.spec_accepts_all(),
        r.1.spec_given() == field.spec_given(),
        forall|t: Seq<char>| #[trigger] r.1.spec_converts(t) == field.spec_converts(t),
{
    (name, Box::new(field))
}

/// A field whose value type is hidden behind `AnonymousCapturable`.
#[verifier::reject_recursive_types(T)]
pub struct AnonymousCapture<T, F> {
    field: F,
    value_type: PhantomData<T>,
}

/// A field of some value type, bound for capturing: the same as [`AnonymousCapture`].
pub type Field<T, F> = AnonymousCapture<T, F>;

impl<'a, T, F: GenericCapturable<'a, T>> AnonymousCapture<T, F> {
    /// Whether the field has been declared matched.
    pub closed spec fn field_matched(&self) -> bool {
        self.field.spec_matched()
    }

    /// The number of values the field takes.
    pub closed spec fn field_nargs(&self) -> Nargs {
        self.field.spec_nargs()
    }

    /// Whether the token converts to a value that the field takes.
    pub closed spec fn field_converts(&self, token: Seq<char>) -> bool {
        self.field.spec_converts(token)
    }

    /// Whether the field takes every value that converts.
    pub closed spec fn field_accepts_all(&self) -> bool {
        self.field.spec_accepts_all()
    }

    /// The tokens handed to the field to capture, in order.
    pub closed spec fn field_given(&self) -> Seq<Seq<char>> {
        self.field.spec_given()
    }

    /// Hide the value type of a field: the result has the field's state.
    pub fn bind(field: F) -> (r: Self)
        ensures
            r.field_matched() == field.spec_matched(),
            r.field_nargs() == field.spec_nargs(),
            r.field_accepts_all() == field.spec_accepts_all(),
            r.field_given() == field.spec_given(),
            forall|t: Seq<char>| #[trigger] r.field_converts(t) == field.spec_converts(t),
    {
        AnonymousCapture { field, value_type: PhantomData }
    }
}

impl<'a, T, F: GenericCapturable<'a, T>> AnonymousCapturable for AnonymousCapture<T, F> {
    open spec fn spec_matched(&self) -> bool {
        self.field_matched()
    }

    open spec fn spec_converts(&self, value: Seq<char>) -> bool {
        self.field_converts(value)
    }

    open spec fn spec_accepts_all(&self) -> bool {
        self.field_accepts_all()
    }

    open spec fn spec_given(&self) -> Seq<Seq<char>> {
        self.field_given()
    }

    /// Declare the field matched.
    fn matched(&mut self)
        ensures
            final(self).field_matched(),
            final(self).field_nargs() == old(self).field_nargs(),
    {
        self.field.matched();
    }

    /// Capture the token into the field.
    fn capture(&mut self, value: &str) -> (r: Result<(), InvalidCapture>)
        ensures
            final(self).field_matched() == old(self).field_matched(),
            final(self).field_nargs() == old(self).field_nargs(),
            conversion_failed(r) <==> !old(self).field_converts(value@),
            r matches Err(e) ==> capture_token(e) == value@,
    {
        self.field.capture(value)
    }
}

} // verus!
