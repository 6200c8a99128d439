//! Deriving a parser from a struct: which parameter each field stands for, given its type and
//! its `#[blarg(..)]` attributes, and which attribute combinations are refused.
use vstd::prelude::*;
use crate::printer::opt_text;
use crate::text::append_str;
use crate::text::chars_equal;
use crate::text::chars_of;
use crate::text::string_of;

verus! {

/// A command assignment `#[blarg(command = (variant, Struct))]`, as written.
pub enum CommandExpr {
    /// A pair of a variant (a literal or a path) and the sub-command's struct (a path).
    Pair { variant: String, command_struct: String },
    /// Any other expression, as written.
    Malformed(String),
}

/// A struct field and its `#[blarg(..)]` attributes, as written.
pub struct FieldModel {
    /// The field's name.
    pub name: String,
    /// The first segment of the field's type path (`Option`, `Vec`, `HashSet`, `bool`, `u32`, ..).
    pub type_head: String,
    /// `#[blarg(argument)]`.
    pub argument: bool,
    /// `#[blarg(option)]`.
    pub option: bool,
    /// `#[blarg(short = ..)]`.
    pub short: Option<String>,
    /// `#[blarg(collection = ..)]`: the number of values.
    pub collection: Option<String>,
    /// `#[blarg(help = ..)]`.
    pub help: Option<String>,
    /// `#[blarg(choices = ..)]`: the function that documents the parameter's choices.
    pub choices: Option<String>,
    /// `#[blarg(command = ..)]`, once per sub-command.
    pub commands: Option<Vec<CommandExpr>>,
}

/// The kind of parameter a field stands for.
pub enum ParameterKind {
    /// An argument collecting values, with their number.
    CollectionArgument { nargs: String },
    /// An argument taking one value.
    ScalarArgument,
    /// An option collecting values, with their number and its short name.
    CollectionOption { nargs: String, short: Option<String> },
    /// An option whose value is optional.
    OptionalOption { short: Option<String> },
    /// An option taking one value.
    ScalarOption { short: Option<String> },
    /// An option taking no value.
    Switch { short: Option<String> },
    /// The argument that selects a sub-command: each variant and its sub-command's struct.
    Condition { commands: Vec<(String, String)> },
}

/// The parameter a field stands for.
pub struct ParameterModel {
    pub field_name: String,
    pub kind: ParameterKind,
    /// The function that documents the parameter's choices, applied to the parameter.
    pub choices: Option<String>,
    pub help: Option<String>,
}

/// The abstract kind of parameter.
pub enum KindSpec {
    CollectionArgument(Seq<char>),
    ScalarArgument,
    CollectionOption(Seq<char>, Option<Seq<char>>),
    OptionalOption(Option<Seq<char>>),
    ScalarOption(Option<Seq<char>>),
    Switch(Option<Seq<char>>),
    Condition(Seq<(Seq<char>, Seq<char>)>),
}

/// The abstract value of a parameter kind.
pub open spec fn kind_view(k: ParameterKind) -> KindSpec {
    match k {
        ParameterKind::CollectionArgument { nargs } => KindSpec::CollectionArgument(nargs@),
        ParameterKind::ScalarArgument => KindSpec::ScalarArgument,
        ParameterKind::CollectionOption { nargs, short } => KindSpec::CollectionOption(nargs@, opt_text(short)),
        ParameterKind::OptionalOption { short } => KindSpec::OptionalOption(opt_text(short)),
        ParameterKind::ScalarOption { short } => KindSpec::ScalarOption(opt_text(short)),
        ParameterKind::Switch { short } => KindSpec::Switch(opt_text(short)),
        ParameterKind::Condition { commands } => KindSpec::Condition(pairs_view(commands@)),
    }
}

/// The abstract value of variant and struct pairs.
pub open spec fn pairs_view(v: Seq<(String, String)>) -> Seq<(Seq<char>, Seq<char>)> {
    v.map_values(|p: (String, String)| (p.0@, p.1@))
}

/// The message for two attributes (or a type and an attribute) that a field cannot have together.
pub open spec fn incompatible(left: Seq<char>, right: Seq<char>) -> Seq<char> {
    "Invalid - field cannot be both `"@ + left + "` and `"@ + right + "`."@
}

/// The attribute text `#[blarg(name)]`.
pub open spec fn blarg_attribute(name: Seq<char>) -> Seq<char> {
    "#[blarg("@ + name + ")]"@
}

/// The message for a command assignment that is not a pair of a variant and a struct.
pub open spec fn malformed_command(text: Seq<char>) -> Seq<char> {
    "Invalid - command assignment expecting `(BranchVariant, SubCommandStruct)`, found `"@ + text + "`."@
}

/// The first malformed command assignment, from position `i` on.
pub open spec fn first_malformed(cs: Seq<CommandExpr>, i: int) -> Option<Seq<char>>
    decreases cs.len() - i,
{
    if i < 0 || i >= cs.len() {
        None
    } else {
        match cs[i] {
            CommandExpr::Malformed(text) => Some(text@),
            CommandExpr::Pair { .. } => first_malformed(cs, i + 1),
        }
    }
}

/// The variant and struct of each command assignment.
pub open spec fn command_pairs(cs: Seq<CommandExpr>) -> Seq<(Seq<char>, Seq<char>)> {
    cs.map_values(|c: CommandExpr| match c {
        CommandExpr::Pair { variant, command_struct } => (variant@, command_struct@),
        CommandExpr::Malformed(_) => (Seq::<char>::empty(), Seq::<char>::empty()),
    })
}

/// The parameter kind a field stands for, or why its attributes are refused.
///
/// `argument` with `option`, and `command` with `option` or `collection`, are refused. An
/// `Option<..>` field is an optional option (refused with `argument`, `collection` or `command`);
/// a `Vec<..>` or `HashSet<..>` field collects values, as an option when so marked and otherwise
/// as an argument (refused with `command`); a `bool` field is a switch (refused with `command`).
/// Any other field selects a sub-command when it has commands, and is otherwise a collection
/// argument when it has `collection`, a scalar option when marked `option`, and a scalar argument
/// by default. A collection takes at least one value unless `collection` says otherwise.
pub open spec fn load_spec(f: FieldModel) -> Result<KindSpec, Seq<char>> {
    let explicit_collection = f.collection is Some;
    let explicit_command = f.commands is Some;
    let nargs = match f.collection {
        Some(c) => c@,
        None => "Nargs::AtLeastOne"@,
    };
    let short = opt_text(f.short);
    if f.argument && f.option {
        Err(incompatible("#[blarg(argument)]"@, "#[blarg(option)]"@))
    } else if explicit_command && f.option {
        Err(incompatible("#[blarg(command = ..)]"@, "#[blarg(option)]"@))
    } else if explicit_command && explicit_collection {
        Err(incompatible("#[blarg(command = ..)]"@, "#[blarg(collection = ..)]"@))
    } else if f.type_head@ == "Option"@ {
        if f.argument {
            Err(incompatible("Option<..>"@, blarg_attribute("argument"@)))
        } else if explicit_collection {
            Err(incompatible("Option<..>"@, blarg_attribute("#[blarg(collection = ..)]"@)))
        } else if explicit_command {
            Err(incompatible("Option<..>"@, blarg_attribute("#[blarg(command = ..)]"@)))
        } else {
            Ok(KindSpec::OptionalOption(short))
        }
    } else if f.type_head@ == "Vec"@ || f.type_head@ == "HashSet"@ {
        if explicit_command {
            Err(incompatible(f.type_head@ + "<..>"@, blarg_attribute("#[blarg(command = ..)]"@)))
        } else if f.option {
            Ok(KindSpec::CollectionOption(nargs, short))
        } else {
            Ok(KindSpec::CollectionArgument(nargs))
        }
    } else if f.type_head@ == "bool"@ {
        if explicit_command {
            Err(incompatible("bool"@, blarg_attribute("#[blarg(command = ..)]"@)))
        } else {
            Ok(KindSpec::Switch(short))
        }
    } else {
        match f.commands {
            Some(cs) => match first_malformed(cs@, 0) {
                Some(text) => Err(malformed_command(text)),
                None => Ok(KindSpec::Condition(command_pairs(cs@))),
            },
            None => if explicit_collection {
                Ok(KindSpec::CollectionArgument(nargs))
            } else if f.option {
                Ok(KindSpec::ScalarOption(short))
            } else {
                Ok(KindSpec::ScalarArgument)
            },
        }
    }
}

/// The message `incompatible(left, right)`.
fn incompatible_message(left: &str, right: &str) -> (r: String)
    ensures
        r@ == incompatible(left@, right@),
{
    let mut v = chars_of("Invalid - field cannot be both `");
    append_str(&mut v, left);
    append_str(&mut v, "` and `");
    append_str(&mut v, right);
    append_str(&mut v, "`.");
    string_of(&v)
}

/// The attribute text `#[blarg(name)]`.
fn blarg_attribute_text(name: &str) -> (r: String)
    ensures
        r@ == blarg_attribute(name@),
{
    let mut v = chars_of("#[blarg(");
    append_str(&mut v, name);
    append_str(&mut v, ")]");
    string_of(&v)
}

/// A copy of an optional text.
fn copy_text(s: &Option<String>) -> (r: Option<String>)
    ensures
        opt_text(r) == opt_text(*s),
{
    match s {
        Some(x) => Some(x.clone()),
        None => None,
    }
}

/// Whether the text is `word`.
fn is_text(s: &String, word: &str) -> (r: bool)
    ensures
        r == (s@ == word@),
{
    chars_equal(&chars_of(s.as_str()), &chars_of(word))
}

/// The sub-commands of a field's command assignments, or the message for the first malformed one.
fn load_commands(cs: &Vec<CommandExpr>) -> (r: Result<Vec<(String, String)>, String>)
    ensures
        match first_malformed(cs@, 0) {
            Some(text) => r matches Err(e) && e@ == malformed_command(text),
            None => r matches Ok(v) && pairs_view(v@) == command_pairs(cs@),
        },
{
    let mut out: Vec<(String, String)> = Vec::new();
    let mut i: usize = 0;
    while i < cs.len()
        invariant
            i <= cs@.len(),
            first_malformed(cs@, 0) == first_malformed(cs@, i as int),
            pairs_view(out@) == command_pairs(cs@).take(i as int),
        decreases cs.len() - i,
    {
        match &cs[i] {
            CommandExpr::Pair { variant, command_struct } => {
                let ghost before = pairs_view(out@);
                out.push((variant.clone(), command_struct.clone()));
                assert(pairs_view(out@) =~= before.push((variant@, command_struct@)));
                assert(command_pairs(cs@).take(i + 1) =~= command_pairs(cs@).take(i as int).push(command_pairs(cs@)[i as int]));
            },
            CommandExpr::Malformed(text) => {
                let mut v = chars_of("Invalid - command assignment expecting `(BranchVariant, SubCommandStruct)`, found `");
                append_str(&mut v, text.as_str());
                append_str(&mut v, "`.");
                return Err(string_of(&v));
            },
        }
        i = i + 1;
    }
    assert(command_pairs(cs@).take(i as int) =~= command_pairs(cs@));
    Ok(out)
}

/// The parameter a struct field stands for, given its type and attributes (see `load_spec`), or
/// why its attributes are refused.
pub fn load_parameter(field: &FieldModel) -> (r: Result<ParameterModel, String>)
    ensures
        match load_spec(*field) {
            Ok(k) => r matches Ok(p) && p.field_name@ == field.name@ && kind_view(p.kind) == k
                && opt_text(p.help) == opt_text(field.help) && opt_text(p.choices) == opt_text(field.choices),
            Err(msg) => r matches Err(e) && e@ == msg,
        },
{
    let explicit_collection = field.collection.is_some();
    let explicit_command = field.commands.is_some();
    let short = copy_text(&field.short);
    if field.argument && field.option {
        return Err(incompatible_message("#[blarg(argument)]", "#[blarg(option)]"));
    }
    if explicit_command && field.option {
        return Err(incompatible_message("#[blarg(command = ..)]", "#[blarg(option)]"));
    }
    if explicit_command && explicit_collection {
        return Err(incompatible_message("#[blarg(command = ..)]", "#[blarg(collection = ..)]"));
    }
    let nargs = match &field.collection {
        Some(c) => c.clone(),
        None => "Nargs::AtLeastOne".to_owned(),
    };
    let kind = if is_text(&field.type_head, "Option") {
        if field.argument {
            let right = blarg_attribute_text("argument");
            return Err(incompatible_message("Option<..>", right.as_str()));
        } else if explicit_collection {
            let right = blarg_attribute_text("#[blarg(collection = ..)]");
            return Err(incompatible_message("Option<..>", right.as_str()));
        } else if explicit_command {
            let right = blarg_attribute_text("#[blarg(command = ..)]");
            return Err(incompatible_message("Option<..>", right.as_str()));
        }
        ParameterKind::OptionalOption { short }
    } else if is_text(&field.type_head, "Vec") || is_text(&field.type_head, "HashSet") {
        if explicit_command {
            let mut left = chars_of(field.type_head.as_str());
            append_str(&mut left, "<..>");
            let left_text = string_of(&left);
            let right = blarg_attribute_text("#[blarg(command = ..)]");
            return Err(incompatible_message(left_text.as_str(), right.as_str()));
        }
        if field.option {
            ParameterKind::CollectionOption { nargs, short }
        } else {
            ParameterKind::CollectionArgument { nargs }
        }
    } else if is_text(&field.type_head, "bool") {
        if explicit_command {
            let right = blarg_attribute_text("#[blarg(command = ..)]");
            return Err(incompatible_message("bool", right.as_str()));
        }
        ParameterKind::Switch { short }
    } else {
        match &field.commands {
            Some(cs) => match load_commands(cs) {
                Ok(commands) => ParameterKind::Condition { commands },
                Err(message) => {
                    return Err(message);
                },
            },
            None => if explicit_collection {
                ParameterKind::CollectionArgument { nargs }
            } else if field.option {
                ParameterKind::ScalarOption { short }
            } else {
                ParameterKind::ScalarArgument
            },
        }
    };
    Ok(ParameterModel { field_name: field.name.clone(), kind, choices: copy_text(&field.choices), help: copy_text(&field.help) })
}

/// The field wrapper a generated parameter binds its field with.
pub enum FieldWrapper {
    /// `Collection::new(&mut target, nargs)`.
    Collection(String),
    /// `Scalar::new(&mut target)`.
    Scalar,
    /// `Optional::new(&mut target)`.
    Optional,
    /// `Switch::new(&mut target, !initial)`: the switch sets the opposite of the initial value.
    Switch,
}

/// Whether the generated help mentions the field's initial value as the default.
#[derive(PartialEq, Eq, Structural)]
pub enum DefaultNote {
    /// No mention.
    Never,
    /// `(default ..)` always.
    Always,
    /// `(default ..)` when the optional field holds a value.
    WhenSet,
}

/// The builder call generated for one parameter.
pub struct BuilderCall {
    /// `clp.branch(Condition::new(..))` for the sub-command condition; otherwise `clp.add(..)`.
    pub branch: bool,
    /// How the field is bound.
    pub wrapper: FieldWrapper,
    /// The field borrowed for capturing: `parent.field`.
    pub target: String,
    /// The parameter's name: the field's.
    pub name: String,
    /// `Parameter::option(.., short)` with the short name; otherwise `Parameter::argument(..)`
    /// (or, for a branch, `Condition::new(..)`).
    pub option_short: Option<Option<String>>,
    /// The function the parameter is handed to, to document its choices.
    pub choices: Option<String>,
    /// The help message given.
    pub help: Option<String>,
    /// Whether the help mentions the initial value as the default.
    pub default_note: DefaultNote,
    /// The sub-commands set up after a branch: each variant and its struct.
    pub commands: Vec<(String, String)>,
}

/// The builder call for the parameter `p` of the struct value `parent`: an argument is added
/// with `Parameter::argument`, an option with `Parameter::option` and its short name, a condition
/// is branched on and followed by its sub-commands; scalar and collection options mention their
/// initial value as the default, optional options when they hold one.
pub open spec fn generates(p: ParameterModel, parent: Seq<char>, r: BuilderCall) -> bool {
    &&& r.target@ == parent + seq!['.'] + p.field_name@
    &&& r.name@ == p.field_name@
    &&& opt_text(r.help) == opt_text(p.help)
    &&& opt_text(r.choices) == opt_text(p.choices)
    &&& match kind_view(p.kind) {
        KindSpec::CollectionArgument(n) => !r.branch && (r.wrapper matches FieldWrapper::Collection(x) && x@ == n)
            && r.option_short is None && r.default_note == DefaultNote::Never && r.commands@.len() == 0,
        KindSpec::ScalarArgument => !r.branch && r.wrapper is Scalar
            && r.option_short is None && r.default_note == DefaultNote::Never && r.commands@.len() == 0,
        KindSpec::CollectionOption(n, short) => !r.branch && (r.wrapper matches FieldWrapper::Collection(x) && x@ == n)
            && (r.option_short matches Some(s) && opt_text(s) == short) && r.default_note == DefaultNote::Always && r.commands@.len() == 0,
        KindSpec::OptionalOption(short) => !r.branch && r.wrapper is Optional
            && (r.option_short matches Some(s) && opt_text(s) == short) && r.default_note == DefaultNote::WhenSet && r.commands@.len() == 0,
        KindSpec::ScalarOption(short) => !r.branch && r.wrapper is Scalar
            && (r.option_short matches Some(s) && opt_text(s) == short) && r.default_note == DefaultNote::Always && r.commands@.len() == 0,
        KindSpec::Switch(short) => !r.branch && r.wrapper is Switch
            && (r.option_short matches Some(s) && opt_text(s) == short) && r.default_note == DefaultNote::Never && r.commands@.len() == 0,
        KindSpec::Condition(cs) => r.branch && r.wrapper is Scalar
            && r.option_short is None && r.default_note == DefaultNote::Never && pairs_view(r.commands@) == cs,
    }
}

/// A copy of variant and struct pairs.
fn copy_pairs(v: &Vec<(String, String)>) -> (r: Vec<(String, String)>)
    ensures
        pairs_view(r@) == pairs_view(v@),
{
    let mut out: Vec<(String, String)> = Vec::new();
    let mut i: usize = 0;
    while i < v.len()
        invariant
            i <= v@.len(),
            pairs_view(out@) == pairs_view(v@).take(i as int),
        decreases v.len() - i,
    {
        let ghost before = pairs_view(out@);
        out.push((v[i].0.clone(), v[i].1.clone()));
        assert(pairs_view(out@) =~= before.push(pairs_view(v@)[i as int]));
        assert(pairs_view(v@).take(i + 1) =~= pairs_view(v@).take(i as int).push(pairs_view(v@)[i as int]));
        i = i + 1;
    }
    assert(pairs_view(v@).take(i as int) =~= pairs_view(v@));
    out
}

/// The builder call that sets up the parameter `p` of the struct value `parent` (see
/// `generates`).
pub fn generate_parameter(p: &ParameterModel, parent: &str) -> (r: BuilderCall)
    ensures
        generates(*p, parent@, r),
{
    let mut t = chars_of(parent);
    t.push('.');
    append_str(&mut t, p.field_name.as_str());
    assert(t@ =~= parent@ + seq!['.'] + p.field_name@);
    let target = string_of(&t);
    let name = p.field_name.clone();
    let help = copy_text(&p.help);
    let choices = copy_text(&p.choices);
    match &p.kind {
        ParameterKind::CollectionArgument { nargs } => BuilderCall {
            branch: false, wrapper: FieldWrapper::Collection(nargs.clone()), target, name, choices,
            option_short: None, help, default_note: DefaultNote::Never, commands: Vec::new(),
        },
        ParameterKind::ScalarArgument => BuilderCall {
            branch: false, wrapper: FieldWrapper::Scalar, target, name, choices,
            option_short: None, help, default_note: DefaultNote::Never, commands: Vec::new(),
        },
        ParameterKind::CollectionOption { nargs, short } => BuilderCall {
            branch: false, wrapper: FieldWrapper::Collection(nargs.clone()), target, name, choices,
            option_short: Some(copy_text(short)), help, default_note: DefaultNote::Always, commands: Vec::new(),
        },
        ParameterKind::OptionalOption { short } => BuilderCall {
            branch: false, wrapper: FieldWrapper::Optional, target, name, choices,
            option_short: Some(copy_text(short)), help, default_note: DefaultNote::WhenSet, commands: Vec::new(),
        },
        ParameterKind::ScalarOption { short } => BuilderCall {
            branch: false, wrapper: FieldWrapper::Scalar, target, name, choices,
            option_short: Some(copy_text(short)), help, default_note: DefaultNote::Always, commands: Vec::new(),
        },
        ParameterKind::Switch { short } => BuilderCall {
            branch: false, wrapper: FieldWrapper::Switch, target, name, choices,
            option_short: Some(copy_text(short)), help, default_note: DefaultNote::Never, commands: Vec::new(),
        },
        ParameterKind::Condition { commands } => BuilderCall {
            branch: true, wrapper: FieldWrapper::Scalar, target, name, choices,
            option_short: None, help, default_note: DefaultNote::Never, commands: copy_pairs(commands),
        },
    }
}

/// A struct that a parser is derived from, and its `#[blarg(..)]` attributes, as written.
pub struct StructModel {
    /// The struct's name.
    pub name: String,
    /// Whether it is a struct at all (not an enum or a union).
    pub is_struct: bool,
    /// `#[blarg(program = ..)]`.
    pub program: Option<String>,
    /// `#[blarg(about = ..)]`.
    pub about: Option<String>,
    /// `#[blarg(initializer = ..)]`.
    pub initializer: Option<String>,
    /// `#[blarg(hints_on)]`.
    pub hints_on: bool,
    /// `#[blarg(hints_off)]`.
    pub hints_off: bool,
    /// The named fields, in order (none for a tuple or unit struct).
    pub fields: Vec<FieldModel>,
}

/// A parser derived from a struct.
pub struct ParserModel {
    pub struct_name: String,
    /// The program name: the one given, or the crate's name.
    pub program: String,
    pub about: Option<String>,
    /// How the struct's initial value is made: the one given, or `default`.
    pub initializer: String,
    /// The parameter of each field, in order.
    pub parameters: Vec<ParameterModel>,
    /// Whether help hints are shown (unless `hints_off`).
    pub hints: Hints,
}

/// A sub-command parser derived from a struct.
pub struct SubParserModel {
    pub struct_name: String,
    pub about: Option<String>,
    /// The parameter of each field, in order.
    pub parameters: Vec<ParameterModel>,
    /// Whether help hints are shown (unless `hints_off`).
    pub hints: Hints,
}

/// Whether a derived parser shows help hints.
#[derive(Debug, Clone, Copy, PartialEq, Eq, Structural)]
pub enum Hints {
    On,
    Off,
}

/// The hints setting a struct asks for: off with `hints_off`, otherwise on.
pub open spec fn hints_asked(hints_off: bool) -> Hints {
    if hints_off { Hints::Off } else { Hints::On }
}

/// The message for a struct with both `hints_on` and `hints_off`.
pub open spec fn hints_conflict() -> Seq<char> {
    "Invalid - struct cannot be both `#[blarg(hints_on)]` and `#[blarg(hints_off)]`."@
}

/// The message for deriving `derive_name` on something other than a struct.
pub open spec fn not_a_struct(derive_name: Seq<char>) -> Seq<char> {
    "Invalid - "@ + derive_name + " only applies to 'struct' data structures."@
}

/// The first field error, from position `i` on.
pub open spec fn first_load_error(fs: Seq<FieldModel>, i: int) -> Option<Seq<char>>
    decreases fs.len() - i,
{
    if i < 0 || i >= fs.len() {
        None
    } else {
        match load_spec(fs[i]) {
            Err(m) => Some(m),
            Ok(_) => first_load_error(fs, i + 1),
        }
    }
}

/// The names of the conditions among the first `n` fields.
pub open spec fn condition_names(fs: Seq<FieldModel>, n: nat) -> Seq<Seq<char>>
    decreases n,
{
    if n == 0 || n > fs.len() {
        Seq::empty()
    } else {
        let before = condition_names(fs, (n - 1) as nat);
        match load_spec(fs[n - 1]) {
            Ok(KindSpec::Condition(_)) => before.push(fs[n - 1].name@),
            _ => before,
        }
    }
}

/// The quoted names, separated by commas, of the first `n` names.
pub open spec fn quoted_names(ns: Seq<Seq<char>>, n: nat) -> Seq<char>
    decreases n,
{
    if n == 0 || n > ns.len() {
        Seq::empty()
    } else {
        let before = quoted_names(ns, (n - 1) as nat);
        let sep: Seq<char> = if n > 1 { ", "@ } else { Seq::empty() };
        before + sep + seq!['"'] + ns[n - 1] + seq!['"']
    }
}

/// The list of names as `[\"a\", \"b\"]`.
pub open spec fn name_list(ns: Seq<Seq<char>>) -> Seq<char> {
    seq!['['] + quoted_names(ns, ns.len()) + seq![']']
}

/// Whether `ps` are the parameters loaded from the fields `fs`, in order.
pub open spec fn loaded_from(ps: Seq<ParameterModel>, fs: Seq<FieldModel>) -> bool {
    &&& ps.len() == fs.len()
    &&& forall|i: int| 0 <= i < fs.len() ==> {
        &&& load_spec(fs[i]) == Ok::<KindSpec, Seq<char>>(kind_view(#[trigger] ps[i].kind))
        &&& ps[i].field_name@ == fs[i].name@
        &&& opt_text(ps[i].help) == opt_text(fs[i].help)
    }
}

/// The parameters of the fields, and the names of the conditions among them; or the first field
/// error.
fn load_fields(fs: &Vec<FieldModel>) -> (r: Result<(Vec<ParameterModel>, Vec<String>), String>)
    ensures
        match first_load_error(fs@, 0) {
            Some(m) => r matches Err(e) && e@ == m,
            None => r matches Ok(x) && loaded_from(x.0@, fs@)
                && crate::render::strings_view(x.1@) == condition_names(fs@, fs@.len()),
        },
{
    let mut ps: Vec<ParameterModel> = Vec::new();
    let mut cs: Vec<String> = Vec::new();
    let mut i: usize = 0;
    while i < fs.len()
        invariant
            i <= fs@.len(),
            first_load_error(fs@, 0) == first_load_error(fs@, i as int),
            loaded_from(ps@, fs@.take(i as int)),
            crate::render::strings_view(cs@) == condition_names(fs@, i as nat),
        decreases fs.len() - i,
    {
        match load_parameter(&fs[i]) {
            Err(e) => {
                return Err(e);
            },
            Ok(p) => {
                let ghost before = ps@;
                let ghost cbefore = crate::render::strings_view(cs@);
                let is_condition = match &p.kind {
                    ParameterKind::Condition { .. } => true,
                    _ => false,
                };
                if is_condition {
                    cs.push(fs[i].name.clone());
                    assert(crate::render::strings_view(cs@) =~= cbefore.push(fs@[i as int].name@));
                }
                ps.push(p);
                assert(fs@.take(i + 1).drop_last() =~= fs@.take(i as int));
                assert forall|j: int| 0 <= j < i + 1 implies {
                    &&& load_spec(fs@.take(i + 1)[j]) == Ok::<KindSpec, Seq<char>>(kind_view(#[trigger] ps@[j].kind))
                    &&& ps@[j].field_name@ == fs@.take(i + 1)[j].name@
                    &&& opt_text(ps@[j].help) == opt_text(fs@.take(i + 1)[j].help)
                } by {
                    if j < i {
                        assert(ps@[j] == before[j]);
                        assert(fs@.take(i + 1)[j] == fs@.take(i as int)[j]);
                    }
                }
            },
        }
        i = i + 1;
    }
    assert(fs@.take(i as int) =~= fs@);
    Ok((ps, cs))
}

/// The text `[\"a\", \"b\"]` of the names.
fn name_list_text(ns: &Vec<String>) -> (r: Vec<char>)
    ensures
        r@ == name_list(crate::render::strings_view(ns@)),
{
    let ghost sv = crate::render::strings_view(ns@);
    let mut v: Vec<char> = Vec::new();
    v.push('[');
    let mut i: usize = 0;
    while i < ns.len()
        invariant
            i <= ns@.len(),
            sv == crate::render::strings_view(ns@),
            v@ == seq!['['] + quoted_names(sv, i as nat),
        decreases ns.len() - i,
    {
        if i > 0 {
            append_str(&mut v, ", ");
        }
        v.push('"');
        append_str(&mut v, ns[i].as_str());
        v.push('"');
        i = i + 1;
        assert(v@ =~= seq!['['] + quoted_names(sv, i as nat));
    }
    v.push(']');
    v
}

/// The hints setting of a struct, or the message for asking for both.
fn hints_of(input: &StructModel) -> (r: Result<Hints, String>)
    ensures
        input.hints_off && input.hints_on ==> (r matches Err(e) && e@ == hints_conflict()),
        !(input.hints_off && input.hints_on) ==> r == Ok::<Hints, String>(hints_asked(input.hints_off)),
{
    if input.hints_off && input.hints_on {
        Err("Invalid - struct cannot be both `#[blarg(hints_on)]` and `#[blarg(hints_off)]`.".to_owned())
    } else {
        if input.hints_off {
            Ok(Hints::Off)
        } else {
            Ok(Hints::On)
        }
    }
}

/// The message for deriving `derive_name` on something other than a struct.
fn not_a_struct_message(derive_name: &str) -> (r: String)
    ensures
        r@ == not_a_struct(derive_name@),
{
    let mut v = chars_of("Invalid - ");
    append_str(&mut v, derive_name);
    append_str(&mut v, " only applies to 'struct' data structures.");
    string_of(&v)
}

/// Derive the parser of a struct: refused when the struct asks for both `hints_on` and
/// `hints_off`, when it is not a struct, when a field is refused (the first such), and when more
/// than one field is a condition; otherwise the parameter of each field.
pub fn load_parser(input: &StructModel) -> (r: Result<ParserModel, String>)
    ensures
        input.hints_on && input.hints_off ==> (r matches Err(e) && e@ == hints_conflict()),
        !(input.hints_on && input.hints_off) && !input.is_struct ==> (r matches Err(e) && e@ == not_a_struct("BlargParser"@)),
        !(input.hints_on && input.hints_off) && input.is_struct ==> match first_load_error(input.fields@, 0) {
            Some(m) => r matches Err(e) && e@ == m,
            None => {
                let conditions = condition_names(input.fields@, input.fields@.len());
                if conditions.len() > 1 {
                    r matches Err(e) && e@ == "Invalid - BlargParser cannot have multiple conditions: "@ + name_list(conditions) + "."@
                } else {
                    r matches Ok(p) && {
                        &&& p.struct_name@ == input.name@
                        &&& p.program@ == match input.program { Some(x) => x@, None => "env!(\"CARGO_CRATE_NAME\")"@ }
                        &&& opt_text(p.about) == opt_text(input.about)
                        &&& p.initializer@ == match input.initializer { Some(x) => x@, None => "default"@ }
                        &&& loaded_from(p.parameters@, input.fields@)
                        &&& p.hints == hints_asked(input.hints_off)
                    }
                }
            },
        },
{
    let hints = match hints_of(input) {
        Ok(h) => h,
        Err(e) => {
            return Err(e);
        },
    };
    if !input.is_struct {
        return Err(not_a_struct_message("BlargParser"));
    }
    let (parameters, conditions) = match load_fields(&input.fields) {
        Ok(x) => x,
        Err(e) => {
            return Err(e);
        },
    };
    if conditions.len() > 1 {
        let mut v = chars_of("Invalid - BlargParser cannot have multiple conditions: ");
        let list = name_list_text(&conditions);
        crate::text::append_chars(&mut v, &list);
        append_str(&mut v, ".");
        return Err(string_of(&v));
    }
    let program = match &input.program {
        Some(x) => x.clone(),
        None => "env!(\"CARGO_CRATE_NAME\")".to_owned(),
    };
    let initializer = match &input.initializer {
        Some(x) => x.clone(),
        None => "default".to_owned(),
    };
    Ok(ParserModel {
        struct_name: input.name.clone(),
        program,
        about: copy_text(&input.about),
        initializer,
        parameters,
        hints,
    })
}

/// Derive the parser of a sub-command's struct: refused when the struct asks for both `hints_on`
/// and `hints_off`, when it is not a struct, when a field is refused (the first such), and when
/// any field is a condition; otherwise the parameter of each field.
pub fn load_sub_parser(input: &StructModel) -> (r: Result<SubParserModel, String>)
    ensures
        input.hints_on && input.hints_off ==> (r matches Err(e) && e@ == hints_conflict()),
        !(input.hints_on && input.hints_off) && !input.is_struct ==> (r matches Err(e) && e@ == not_a_struct("BlargSubParser"@)),
        !(input.hints_on && input.hints_off) && input.is_struct ==> match first_load_error(input.fields@, 0) {
            Some(m) => r matches Err(e) && e@ == m,
            None => {
                let conditions = condition_names(input.fields@, input.fields@.len());
                if conditions.len() > 0 {
                    r matches Err(e) && e@ == "Invalid - BlargSubParser cannot have any conditions: "@ + name_list(conditions) + "."@
                } else {
                    r matches Ok(p) && {
                        &&& p.struct_name@ == input.name@
                        &&& opt_text(p.about) == opt_text(input.about)
                        &&& loaded_from(p.parameters@, input.fields@)
                        &&& p.hints == hints_asked(input.hints_off)
                    }
                }
            },
        },
{
    let hints = match hints_of(input) {
        Ok(h) => h,
        Err(e) => {
            return Err(e);
        },
    };
    if !input.is_struct {
        return Err(not_a_struct_message("BlargSubParser"));
    }
    let (parameters, conditions) = match load_fields(&input.fields) {
        Ok(x) => x,
        Err(e) => {
            return Err(e);
        },
    };
    if conditions.len() > 0 {
        let mut v = chars_of("Invalid - BlargSubParser cannot have any conditions: ");
        let list = name_list_text(&conditions);
        crate::text::append_chars(&mut v, &list);
        append_str(&mut v, ".");
        return Err(string_of(&v));
    }
    Ok(SubParserModel { struct_name: input.name.clone(), about: copy_text(&input.about), parameters, hints })
}

/// What a derived parser sets up: the struct value it fills (`<Struct>_target`), the program
/// name and initializer, the sub-command structs it also fills (those of its condition), and
/// the builder call of each parameter, in order.
pub struct ParserSetup {
    pub target: String,
    pub program: String,
    pub initializer: String,
    pub sub_structs: Vec<String>,
    pub calls: Vec<BuilderCall>,
}

/// What a derived sub-command parser sets up: the struct value it fills and the builder call of
/// each parameter, in order.
pub struct SubParserSetup {
    pub target: String,
    pub calls: Vec<BuilderCall>,
}

/// The name of the value filled for the struct `name`.
pub open spec fn target_of(name: Seq<char>) -> Seq<char> {
    name + "_target"@
}

/// The position of the first condition among the parameters, from `i` on.
pub open spec fn first_condition(ps: Seq<ParameterModel>, i: int) -> Option<int>
    decreases ps.len() - i,
{
    if i < 0 || i >= ps.len() {
        None
    } else if ps[i].kind is Condition {
        Some(i)
    } else {
        first_condition(ps, i + 1)
    }
}

/// The sub-command structs of the first condition among the parameters.
pub open spec fn condition_structs(ps: Seq<ParameterModel>) -> Seq<Seq<char>> {
    match first_condition(ps, 0) {
        Some(i) => match kind_view(ps[i].kind) {
            KindSpec::Condition(cs) => cs.map_values(|c: (Seq<char>, Seq<char>)| c.1),
            _ => Seq::empty(),
        },
        None => Seq::empty(),
    }
}

/// Whether `calls` are the builder calls of the parameters, each filling `target`.
pub open spec fn generates_all(ps: Seq<ParameterModel>, target: Seq<char>, calls: Seq<BuilderCall>) -> bool {
    &&& calls.len() == ps.len()
    &&& forall|i: int| 0 <= i < ps.len() ==> generates(ps[i], target, #[trigger] calls[i])
}

/// The value name for the struct `name`.
fn target_text(name: &String) -> (r: String)
    ensures
        r@ == target_of(name@),
{
    let mut v = chars_of(name.as_str());
    append_str(&mut v, "_target");
    string_of(&v)
}

/// The builder calls of the parameters, each filling `target`.
fn generate_all(ps: &Vec<ParameterModel>, target: &String) -> (r: Vec<BuilderCall>)
    ensures
        generates_all(ps@, target@, r@),
{
    let mut calls: Vec<BuilderCall> = Vec::new();
    let mut i: usize = 0;
    while i < ps.len()
        invariant
            i <= ps@.len(),
            calls@.len() == i,
            forall|j: int| 0 <= j < i ==> generates(ps@[j], target@, #[trigger] calls@[j]),
        decreases ps.len() - i,
    {
        let call = generate_parameter(&ps[i], target.as_str());
        calls.push(call);
        i = i + 1;
    }
    calls
}

/// The sub-command structs of the first condition among the parameters.
fn condition_structs_of(ps: &Vec<ParameterModel>) -> (r: Vec<String>)
    ensures
        crate::render::strings_view(r@) == condition_structs(ps@),
{
    let mut i: usize = 0;
    while i < ps.len()
        invariant
            i <= ps@.len(),
            first_condition(ps@, 0) == first_condition(ps@, i as int),
        decreases ps.len() - i,
    {
        match &ps[i].kind {
            ParameterKind::Condition { commands } => {
                let mut out: Vec<String> = Vec::new();
                let mut k: usize = 0;
                let ghost cs = pairs_view(commands@);
                while k < commands.len()
                    invariant
                        k <= commands@.len(),
                        cs == pairs_view(commands@),
                        crate::render::strings_view(out@) == cs.map_values(|c: (Seq<char>, Seq<char>)| c.1).take(k as int),
                    decreases commands.len() - k,
                {
                    let ghost before = crate::render::strings_view(out@);
                    out.push(commands[k].1.clone());
                    assert(crate::render::strings_view(out@) =~= before.push(cs[k as int].1));
                    assert(cs.map_values(|c: (Seq<char>, Seq<char>)| c.1).take(k + 1)
                        =~= cs.map_values(|c: (Seq<char>, Seq<char>)| c.1).take(k as int).push(cs[k as int].1));
                    k = k + 1;
                }
                assert(cs.map_values(|c: (Seq<char>, Seq<char>)| c.1).take(k as int) =~= cs.map_values(|c: (Seq<char>, Seq<char>)| c.1));
                return out;
            },
            _ => {},
        }
        i = i + 1;
    }
    let none: Vec<String> = Vec::new();
    assert(crate::render::strings_view(none@) =~= Seq::<Seq<char>>::empty());
    none
}

/// What the derived parser sets up: it fills `<Struct>_target` (made by the initializer), and
/// the structs of its condition's sub-commands, adding each parameter in order.
pub fn generate_parser(p: &ParserModel) -> (r: ParserSetup)
    ensures
        r.target@ == target_of(p.struct_name@),
        r.program@ == p.program@,
        r.initializer@ == p.initializer@,
        crate::render::strings_view(r.sub_structs@) == condition_structs(p.parameters@),
        generates_all(p.parameters@, target_of(p.struct_name@), r.calls@),
{
    let target = target_text(&p.struct_name);
    let calls = generate_all(&p.parameters, &target);
    ParserSetup {
        target,
        program: p.program.clone(),
        initializer: p.initializer.clone(),
        sub_structs: condition_structs_of(&p.parameters),
        calls,
    }
}

/// What the derived sub-command parser sets up: it fills `<Struct>_target`, adding each
/// parameter in order.
pub fn generate_sub_parser(p: &SubParserModel) -> (r: SubParserSetup)
    ensures
        r.target@ == target_of(p.struct_name@),
        generates_all(p.parameters@, target_of(p.struct_name@), r.calls@),
{
    let target = target_text(&p.struct_name);
    let calls = generate_all(&p.parameters, &target);
    SubParserSetup { target, calls }
}

} // verus!
