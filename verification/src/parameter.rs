//! Parameters: an option or a positional argument, its field, and its documentation.
use vstd::prelude::*;
use std::marker::PhantomData;
use crate::capture::CliArgument;
use crate::capture::CliOption;
use crate::capture::ToToken;
use crate::choice::choices_insert;
use crate::choice::choices_of;
use crate::choice::choices_view;
use crate::choice::insert_choice;
use crate::field::AnonymousCapturable;
use crate::field::AnonymousCapture;
use crate::field::FieldSpec;
use crate::field::GenericCapturable;
use crate::field::capture_state;
use crate::field::generic_state;
use crate::field::named_capture;
use crate::field::Scalar;
use crate::matcher::api::ArgumentConfig;
use crate::matcher::api::OptionConfig;
use crate::matcher::api::bound_of;
use crate::matcher::api::spec_bound_of;
use crate::model::Nargs;
use crate::printer::ArgumentInfo;
use crate::printer::ArgumentParameter;
use crate::printer::OptionInfo;
use crate::printer::OptionParameter;
use crate::printer::opt_meta;
use crate::printer::opt_text;
use crate::render::strings_view;

verus! {

/// Whether a parameter is an option or a positional argument.
#[derive(Debug, Clone, Copy, PartialEq, Eq, Structural)]
pub enum ParameterClass {
    /// An option (`--name`, `-s`).
    Opt,
    /// A positional argument.
    Arg,
}

/// The abstract value of a parameter.
pub struct ParameterSpec {
    pub class: ParameterClass,
    pub nargs: Nargs,
    pub name: Seq<char>,
    pub short: Option<char>,
    pub help: Option<Seq<char>>,
    pub meta: Option<Seq<Seq<char>>>,
    pub choices: Seq<(Seq<char>, Seq<char>)>,
    /// The state of the field it captures into.
    pub field: FieldSpec,
}

/// How the help message documents a parameter as an option.
pub open spec fn option_doc(p: ParameterSpec) -> OptionInfo {
    OptionInfo { name: p.name, short: p.short, nargs: p.nargs, help: p.help, meta: p.meta, choices: choices_of(p.choices) }
}

/// How the help message documents a parameter as an argument.
pub open spec fn argument_doc(p: ParameterSpec) -> ArgumentInfo {
    ArgumentInfo { name: p.name, nargs: p.nargs, help: p.help, meta: p.meta, choices: choices_of(p.choices) }
}

/// A configured option or argument together with the field it captures into.
pub struct ParameterInner<'a> {
    class: ParameterClass,
    /// The parameter's name and the field it captures into.
    capture: (String, Box<dyn AnonymousCapturable + 'a>),
    nargs: Nargs,
    short: Option<char>,
    help: Option<String>,
    meta: Option<Vec<String>>,
    choices: Vec<(String, String)>,
}

impl<'a> View for ParameterInner<'a> {
    type V = ParameterSpec;

    closed spec fn view(&self) -> ParameterSpec {
        ParameterSpec {
            class: self.class,
            nargs: self.nargs,
            name: self.capture.0@,
            short: self.short,
            help: opt_text(self.help),
            meta: opt_meta(self.meta),
            choices: choices_view(self.choices@),
            field: capture_state(self.capture),
        }
    }
}

/// A capture for an option: its matcher configuration and its field.
pub type OptionCapture<'a> = (OptionConfig, Box<dyn AnonymousCapturable + 'a>);

/// A capture for an argument: its matcher configuration and its field.
pub type ArgumentCapture<'a> = (ArgumentConfig, Box<dyn AnonymousCapturable + 'a>);

impl<'a> ParameterInner<'a> {
    /// Whether this is an option or an argument.
    pub fn class(&self) -> (r: ParameterClass)
        ensures
            r == self@.class,
    {
        self.class
    }

    /// The parameter's name.
    pub fn name(&self) -> (r: String)
        ensures
            r@ == self@.name,
    {
        self.capture.0.clone()
    }

    /// The parameter's short name.
    pub fn short(&self) -> (r: Option<char>)
        ensures
            r == self@.short,
    {
        self.short
    }

    /// The parameter's number of values.
    pub fn nargs(&self) -> (r: Nargs)
        ensures
            r == self@.nargs,
    {
        self.nargs
    }

    /// The parameter's help message.
    pub fn help(&self) -> (r: &Option<String>)
        ensures
            opt_text(*r) == self@.help,
    {
        &self.help
    }

    /// The parameter's meta messages.
    pub fn meta(&self) -> (r: &Option<Vec<String>>)
        ensures
            opt_meta(*r) == self@.meta,
    {
        &self.meta
    }

    /// The parameter's documented choices, in order of the choice.
    pub fn choices(&self) -> (r: &Vec<(String, String)>)
        ensures
            choices_view(r@) == self@.choices,
    {
        &self.choices
    }

    /// The matcher configuration of this parameter as an option.
    pub fn option_config(&self) -> (r: OptionConfig)
        ensures
            r@.name == self@.name,
            r@.short == self@.short,
            r@.bound == spec_bound_of(self@.nargs),
    {
        OptionConfig::new(self.capture.0.clone(), self.short, bound_of(self.nargs))
    }

    /// The matcher configuration of this parameter as an argument.
    pub fn argument_config(&self) -> (r: ArgumentConfig)
        ensures
            r@.name == self@.name,
            r@.bound == spec_bound_of(self@.nargs),
    {
        ArgumentConfig::new(self.capture.0.clone(), bound_of(self.nargs))
    }

    /// The documentation of this parameter as an option.
    pub fn option_parameter(&self) -> (r: OptionParameter)
        ensures
            r@ == option_doc(self@),
    {
        OptionParameter::new(self.capture.0.clone(), self.short, self.nargs, clone_text(&self.help), clone_meta(&self.meta), clone_choices(&self.choices))
    }

    /// The documentation of this parameter as an argument.
    pub fn argument_parameter(&self) -> (r: ArgumentParameter)
        ensures
            r@ == argument_doc(self@),
    {
        ArgumentParameter::new(self.capture.0.clone(), self.nargs, clone_text(&self.help), clone_meta(&self.meta), clone_choices(&self.choices))
    }

    /// Split into the matcher configuration (as an option) and the field.
    pub fn into_option_capture(self) -> (r: OptionCapture<'a>)
        ensures
            r.0@.name == self@.name,
            r.0@.short == self@.short,
            r.0@.bound == spec_bound_of(self@.nargs),
            capture_state(r) == self@.field,
    {
        let config = self.option_config();
        let ParameterInner { capture, .. } = self;
        let (_name, field) = capture;
        let r = (config, field);
        r
    }

    /// Split into the matcher configuration (as an argument) and the field.
    pub fn into_argument_capture(self) -> (r: ArgumentCapture<'a>)
        ensures
            r.0@.name == self@.name,
            r.0@.bound == spec_bound_of(self@.nargs),
            capture_state(r) == self@.field,
    {
        let config = self.argument_config();
        let ParameterInner { capture, .. } = self;
        let (_name, field) = capture;
        let r = (config, field);
        r
    }
}

/// A copy of optional text.
fn clone_text(s: &Option<String>) -> (r: Option<String>)
    ensures
        opt_text(r) == opt_text(*s),
{
    match s {
        Some(x) => Some(x.clone()),
        None => None,
    }
}

/// A copy of a list of strings.
fn clone_strings(v: &Vec<String>) -> (r: Vec<String>)
    ensures
        strings_view(r@) == strings_view(v@),
{
    let mut r: Vec<String> = Vec::new();
    let mut i: usize = 0;
    while i < v.len()
        invariant
            i <= v@.len(),
            strings_view(r@) == strings_view(v@).take(i as int),
        decreases v.len() - i,
    {
        let ghost before = strings_view(r@);
        r.push(v[i].clone());
        assert(strings_view(r@) =~= before.push(v@[i as int]@));
        assert(strings_view(v@).take(i + 1) =~= strings_view(v@).take(i as int).push(v@[i as int]@));
        i = i + 1;
    }
    assert(strings_view(v@).take(i as int) =~= strings_view(v@));
    r
}

/// A copy of optional meta values.
fn clone_meta(m: &Option<Vec<String>>) -> (r: Option<Vec<String>>)
    ensures
        opt_meta(r) == opt_meta(*m),
{
    match m {
        Some(v) => Some(clone_strings(v)),
        None => None,
    }
}

/// A copy of a list of choices.
fn clone_choices(v: &Vec<(String, String)>) -> (r: Vec<(String, String)>)
    ensures
        choices_view(r@) == choices_view(v@),
{
    let mut r: Vec<(String, String)> = Vec::new();
    let mut i: usize = 0;
    while i < v.len()
        invariant
            i <= v@.len(),
            choices_view(r@) == choices_view(v@).take(i as int),
        decreases v.len() - i,
    {
        let k = v[i].0.clone();
        let d = v[i].1.clone();
        let ghost before = choices_view(r@);
        let ghost kv = (k@, d@);
        r.push((k, d));
        assert(choices_view(r@) =~= before.push(kv));
        assert(choices_view(v@).take(i + 1) =~= choices_view(v@).take(i as int).push(kv));
        i = i + 1;
    }
    assert(choices_view(v@).take(i as int) =~= choices_view(v@));
    r
}

/// The strings of a list of string slices.
fn owned_strings(v: Vec<&str>) -> (r: Vec<String>)
    ensures
        strings_view(r@) == v@.map_values(|s: &str| s@),
{
    let mut r: Vec<String> = Vec::new();
    let mut i: usize = 0;
    while i < v.len()
        invariant
            i <= v@.len(),
            strings_view(r@) == v@.map_values(|s: &str| s@).take(i as int),
        decreases v.len() - i,
    {
        let ghost before = strings_view(r@);
        r.push(v[i].to_owned());
        assert(strings_view(r@) =~= before.push(v@[i as int]@));
        assert(v@.map_values(|s: &str| s@).take(i + 1) =~= v@.map_values(|s: &str| s@).take(i as int).push(v@[i as int]@));
        i = i + 1;
    }
    assert(v@.map_values(|s: &str| s@).take(i as int) =~= v@.map_values(|s: &str| s@));
    r
}

/// Behaviour for documenting choices on a [`Parameter`] or [`Condition`].
pub trait Choices<T> {
    /// Document the choice `variant` with `description`.
    fn choice(self, variant: T, description: &str) -> Self;
}

/// An argument/option for the command parser.
pub struct Parameter<'a, T> {
    inner: ParameterInner<'a>,
    _phantom: PhantomData<T>,
}

impl<'a, T> View for Parameter<'a, T> {
    type V = ParameterSpec;

    closed spec fn view(&self) -> ParameterSpec {
        self.inner@
    }
}

impl<'a, T: 'a> Parameter<'a, T> {
    /// Create an option parameter.
    pub fn option<F: GenericCapturable<'a, T> + CliOption + 'a>(field: F, name: &str, short: Option<char>) -> (r: Self)
        ensures
            r@.class == ParameterClass::Opt,
            r@.nargs == field.spec_nargs(),
            r@.name == name@,
            r@.short == short,
            r@.help is None,
            r@.meta is None,
            r@.choices.len() == 0,
            r@.field == generic_state(field),
    {
        let nargs = field.nargs();
        let ghost state = generic_state(field);
        let capture = named_capture(name.to_owned(), AnonymousCapture::bind(field));
        let inner = ParameterInner {
            class: ParameterClass::Opt,
            capture,
            nargs,
            short,
            help: None,
            meta: None,
            choices: Vec::new(),
        };
        assert(choices_view(inner.choices@) =~= Seq::empty());
        assert(inner@.field.converts =~= state.converts);
        Parameter { inner, _phantom: PhantomData }
    }

    /// Create an argument parameter.
    pub fn argument<F: GenericCapturable<'a, T> + CliArgument + 'a>(field: F, name: &str) -> (r: Self)
        ensures
            r@.class == ParameterClass::Arg,
            r@.nargs == field.spec_nargs(),
            r@.name == name@,
            r@.short is None,
            r@.help is None,
            r@.meta is None,
            r@.choices.len() == 0,
            r@.field == generic_state(field),
    {
        let nargs = field.nargs();
        let ghost state = generic_state(field);
        let capture = named_capture(name.to_owned(), AnonymousCapture::bind(field));
        let inner = ParameterInner {
            class: ParameterClass::Arg,
            capture,
            nargs,
            short: None,
            help: None,
            meta: None,
            choices: Vec::new(),
        };
        assert(choices_view(inner.choices@) =~= Seq::empty());
        assert(inner@.field.converts =~= state.converts);
        Parameter { inner, _phantom: PhantomData }
    }

    /// Document the help message for this parameter (a later message replaces an earlier one).
    pub fn help(self, description: &str) -> (r: Self)
        ensures
            r@ == (ParameterSpec { help: Some(description@), ..self@ }),
    {
        let Parameter { mut inner, _phantom } = self;
        inner.help = Some(description.to_owned());
        Parameter { inner, _phantom }
    }

    /// Document the meta message(s) for this parameter (later messages replace earlier ones).
    pub fn meta(self, descriptions: Vec<&str>) -> (r: Self)
        ensures
            r@ == (ParameterSpec { meta: Some(descriptions@.map_values(|s: &str| s@)), ..self@ }),
    {
        let Parameter { mut inner, _phantom } = self;
        inner.meta = Some(owned_strings(descriptions));
        Parameter { inner, _phantom }
    }

    /// The parameter's name.
    pub fn name(&self) -> (r: String)
        ensures
            r@ == self@.name,
    {
        self.inner.name()
    }

    /// The configured parameter.
    pub fn consume(self) -> (r: ParameterInner<'a>)
        ensures
            r@ == self@,
    {
        self.inner
    }
}

impl<'a, T: ToToken + 'a> Choices<T> for Parameter<'a, T> {
    /// Document a choice's help message (a later message for the same choice replaces an earlier one).
    fn choice(self, variant: T, description: &str) -> (r: Self)
        ensures
            r@ == (ParameterSpec { choices: choices_insert(self@.choices, variant.token_text(), description@), ..self@ }),
    {
        let Parameter { mut inner, _phantom } = self;
        insert_choice(&mut inner.choices, variant.to_token(), description.to_owned());
        Parameter { inner, _phantom }
    }
}

/// The condition argument with which to branch the parser: a scalar argument whose value selects
/// the sub-command.
pub struct Condition<'a, T>(Parameter<'a, T>);

impl<'a, T> View for Condition<'a, T> {
    type V = ParameterSpec;

    closed spec fn view(&self) -> ParameterSpec {
        self.0@
    }
}

impl<'a, T> Condition<'a, T> {
    #[verifier::type_invariant]
    spec fn inv(self) -> bool {
        self.0@.class == ParameterClass::Arg
    }
}

impl<'a, T: crate::capture::FromToken + 'a> Condition<'a, T> {
    /// Create a condition parameter.
    pub fn new(value: Scalar<'a, T>, name: &str) -> (r: Self)
        ensures
            r@.class == ParameterClass::Arg,
            r@.nargs == Nargs::Precisely(1),
            r@.name == name@,
            r@.short is None,
            r@.help is None,
            r@.meta is None,
            r@.choices.len() == 0,
            r@.field == generic_state(value),
    {
        Condition(Parameter::argument(value, name))
    }
}

impl<'a, T: 'a> Condition<'a, T> {
    /// Document the help message for this condition.
    pub fn help(self, description: &str) -> (r: Self)
        ensures
            r@ == (ParameterSpec { help: Some(description@), ..self@ }),
    {
        proof {
            use_type_invariant(&self);
        }
        Condition(self.0.help(description))
    }

    /// Document the meta message(s) for this condition.
    pub fn meta(self, descriptions: Vec<&str>) -> (r: Self)
        ensures
            r@ == (ParameterSpec { meta: Some(descriptions@.map_values(|s: &str| s@)), ..self@ }),
    {
        proof {
            use_type_invariant(&self);
        }
        Condition(self.0.meta(descriptions))
    }

    /// The condition as a parameter (always a positional argument).
    pub fn consume(self) -> (r: Parameter<'a, T>)
        ensures
            r@ == self@,
            r@.class == ParameterClass::Arg,
    {
        proof {
            use_type_invariant(&self);
        }
        self.0
    }
}

impl<'a, T: ToToken + 'a> Choices<T> for Condition<'a, T> {
    /// Document a choice's help message (a later message for the same choice replaces an earlier one).
    fn choice(self, variant: T, description: &str) -> (r: Self)
        ensures
            r@ == (ParameterSpec { choices: choices_insert(self@.choices, variant.token_text(), description@), ..self@ }),
    {
        proof {
            use_type_invariant(&self);
        }
        Condition(self.0.choice(variant, description))
    }
}

} // verus!
