//! Command-line arguments for registered environment variables.
//!
//! Every registered variable becomes a long option (`MY_PORT` becomes
//! `--my-port`) with an environment fallback, its default value, its help
//! text and, when they are known, its possible values. The plan of those
//! arguments ([`arg_specs`]) is computed and verified here; [`args`] then
//! hands it to `clap`'s builder.
use vstd::prelude::*;
use crate::registry::{
    opt_string_view, possible_values_view, validation_result, Item, ItemView, PossibleValue,
    PossibleValueView, SetError,
};
use crate::text::{
    ascii_lower, key_less, lemma_key_less_irreflexive, lemma_key_less_total, lemma_key_less_transitive,
    long_flag, normalize_doc, normalized_doc, owned, spec_long_flag, str_less,
};
use crate::validation::{is_first, items_view, validated_as};

verus! {

/// The ids that `ArgMatches::try_get_one::<String>` accepts. With clap's
/// debug assertions these are the ids of arguments (or groups) known to the
/// matches whose values, if any, are strings; without them, every id whose
/// value, if any, is a string. Either way it is a function of the matches.
pub uninterp spec fn string_arg_ids(m: clap::ArgMatches) -> Set<Seq<char>>;

/// Where the values of the matched arguments came from, by id, as the
/// codes of [`origin_code`]; an id without a value source is absent.
pub uninterp spec fn arg_origins(m: clap::ArgMatches) -> Map<Seq<char>, u8>;

/// The first string value of each matched argument that has one, by id.
pub uninterp spec fn arg_values(m: clap::ArgMatches) -> Map<Seq<char>, Seq<char>>;

/// The code of a value origin.
pub open spec fn origin_code(o: ValueOrigin) -> u8 {
    match o {
        ValueOrigin::DefaultValue => 0,
        ValueOrigin::EnvVariable => 1,
        ValueOrigin::CommandLine => 2,
        ValueOrigin::Other => 3,
    }
}

/// The id of an argument, as `Arg::get_id` reports it (as text).
pub uninterp spec fn arg_id_of(a: clap::Arg) -> Seq<char>;

/// The long flag of an argument, as `Arg::get_long` reports it.
pub uninterp spec fn arg_long_of(a: clap::Arg) -> Option<Seq<char>>;

/// The name of the environment variable of an argument, as `Arg::get_env`
/// reports it (as text).
pub uninterp spec fn arg_env_of(a: clap::Arg) -> Option<Seq<char>>;

/// The default values of an argument, as `Arg::get_default_values` reports
/// them (as text).
pub uninterp spec fn arg_defaults_of(a: clap::Arg) -> Seq<Seq<char>>;

/// The help text of an argument: what `Arg::get_help` holds, as its
/// `ansi()` rendering prints it.
pub uninterp spec fn arg_help_of(a: clap::Arg) -> Option<Seq<char>>;

/// The possible values that the value parser of an argument lists
/// (`Arg::get_value_parser().possible_values()`), each as its name and the
/// `ansi()` text of its help.
pub uninterp spec fn arg_parser_values_of(a: clap::Arg) -> Option<Seq<(Seq<char>, Option<Seq<char>>)>>;

/// What the value parser of an argument may return for the text `s`:
/// `Ok` with the parsed value as text, or `Err` with the text of the error
/// it reports (for a parser of this library, the message of the function
/// that clap calls with the value).
pub uninterp spec fn arg_parse_outcome(a: clap::Arg, s: Seq<char>, out: Result<Seq<char>, Seq<char>>) -> bool;

/// Equal up to the case of ASCII letters, as `str::eq_ignore_ascii_case`.
pub open spec fn eq_ignore_ascii_case(a: Seq<char>, b: Seq<char>) -> bool {
    a.len() == b.len() && forall|i: int| 0 <= i < a.len() ==> ascii_lower(#[trigger] a[i]) == ascii_lower(b[i])
}

/// What checking the text `s` with the validator (if any) gives: `s`
/// itself when its UTF-8 bytes are accepted, else the validator's message.
pub open spec fn validator_outcome<V: Fn(&[u8]) -> Result<(), SetError>>(
    validator: Option<V>,
    s: Seq<char>,
    out: Result<Seq<char>, Seq<char>>,
) -> bool {
    exists|bytes: &[u8], res: Result<(), SetError>|
        bytes@ == vstd::utf8::encode_utf8(s) && #[trigger] validation_result(validator, bytes, res)
            && match res {
            Ok(()) => out == Ok::<Seq<char>, Seq<char>>(s),
            Err(e) => out == Err::<Seq<char>, Seq<char>>(e.spec_message()),
        }
}

/// The value parser of `a` runs `validator` on every value; with listed
/// `names`, a listed value goes to the validator and a value that matches
/// no name, even ignoring ASCII case, is refused.
pub open spec fn parser_checks<V: Fn(&[u8]) -> Result<(), SetError>>(
    a: clap::Arg,
    names: Option<Seq<Seq<char>>>,
    validator: Option<V>,
) -> bool {
    forall|s: Seq<char>, out: Result<Seq<char>, Seq<char>>|
        #[trigger] arg_parse_outcome(a, s, out) ==> match names {
            None => validator_outcome(validator, s, out),
            Some(ns) => {
                &&& ns.contains(s) ==> validator_outcome(validator, s, out)
                &&& (forall|i: int| 0 <= i < ns.len() ==> !eq_ignore_ascii_case(ns[i], s)) ==> out is Err
            },
        }
}

/// The settings of a `clap` argument that this library sets.
pub struct ArgSettings {
    pub id: Seq<char>,
    pub long: Option<Seq<char>>,
    pub env: Option<Seq<char>>,
    pub defaults: Seq<Seq<char>>,
    pub help: Option<Seq<char>>,
    pub parser_values: Option<Seq<(Seq<char>, Option<Seq<char>>)>>,
}

/// The settings of a `clap` argument, read through its getters.
pub open spec fn arg_settings(a: clap::Arg) -> ArgSettings {
    ArgSettings {
        id: arg_id_of(a),
        long: arg_long_of(a),
        env: arg_env_of(a),
        defaults: arg_defaults_of(a),
        help: arg_help_of(a),
        parser_values: arg_parser_values_of(a),
    }
}

/// `clap::Arg::new`: an argument with the given id and nothing else set;
/// its value parser (the default string parser) lists no possible values.
#[verifier::external_body]
fn arg_new(id: &'static str) -> (r: clap::Arg)
    ensures
        arg_id_of(r) == id@,
        arg_long_of(r) is None,
        arg_env_of(r) is None,
        arg_defaults_of(r) == Seq::<Seq<char>>::empty(),
        arg_help_of(r) is None,
        arg_parser_values_of(r) is None,
{
    clap::Arg::new(id)
}

/// `clap::Arg::long`: sets the long flag and nothing else.
#[verifier::external_body]
fn arg_long(arg: clap::Arg, long: String) -> (r: clap::Arg)
    ensures
        arg_settings(r) == (ArgSettings { long: Some(long@), ..arg_settings(arg) }),
{
    arg.long(long)
}

/// `clap::Arg::env`: reads the value from the environment variable `name`
/// when the flag is absent; sets that name and nothing else that
/// [`arg_settings`] reads.
#[verifier::external_body]
fn arg_env(arg: clap::Arg, name: &'static str) -> (r: clap::Arg)
    ensures
        arg_settings(r) == (ArgSettings { env: Some(name@), ..arg_settings(arg) }),
{
    arg.env(name)
}

/// `clap::Arg::default_value`: makes `value` the only default value and
/// sets nothing else.
#[verifier::external_body]
fn arg_default_value(arg: clap::Arg, value: String) -> (r: clap::Arg)
    ensures
        arg_settings(r) == (ArgSettings { defaults: seq![value@], ..arg_settings(arg) }),
{
    arg.default_value(value)
}

/// `clap::Arg::help`: sets the help text and nothing else.
#[verifier::external_body]
fn arg_help(arg: clap::Arg, help: String) -> (r: clap::Arg)
    ensures
        arg_settings(r) == (ArgSettings { help: Some(help@), ..arg_settings(arg) }),
{
    arg.help(help)
}

/// `clap::Arg::value_parser` with a parser that runs [`check_value`] on
/// every value (so the validator must accept every input, as
/// [`check_value`] asks): clap hands the value's text to that function and
/// reports its `Err` text. Such a parser lists no possible values; the
/// other settings stay as they were.
#[verifier::external_body]
fn arg_value_check<V: Fn(&[u8]) -> Result<(), SetError> + Clone + Send + Sync + 'static>(
    arg: clap::Arg,
    validator: Option<V>,
) -> (r: clap::Arg)
    requires
        validator matches Some(f) ==> forall|v: &[u8]| #[trigger] f.requires((v,)),
    ensures
        arg_settings(r) == (ArgSettings { parser_values: None, ..arg_settings(arg) }),
        forall|s: Seq<char>, out: Result<Seq<char>, Seq<char>>|
            #[trigger] arg_parse_outcome(r, s, out) ==> validator_outcome(validator, s, out),
{
    arg.value_parser(move |s: &str| check_value(&validator, s))
}

/// The possible values listed for names with optional help texts.
pub open spec fn listed_values(values: Seq<(&'static str, Option<&'static str>)>) -> Seq<(Seq<char>, Option<Seq<char>>)> {
    values.map_values(|v: (&'static str, Option<&'static str>)| (v.0@, crate::registry::opt_str_view(v.1)))
}

/// The names of listed values.
pub open spec fn listed_names(values: Seq<(&'static str, Option<&'static str>)>) -> Seq<Seq<char>> {
    values.map_values(|v: (&'static str, Option<&'static str>)| v.0@)
}

/// `clap::Arg::value_parser` with a `PossibleValuesParser` over `values`
/// (names with optional descriptions), whose accepted values then go
/// through [`check_value`] (so the validator must accept every input, as
/// [`check_value`] asks). A value equal to a listed name reaches that
/// function; one that matches no name, not even ignoring ASCII case (clap's
/// `ignore_case` comparison, built here without its `unicode` feature), is
/// refused. The parser lists exactly those values, in order; the other
/// settings stay as they were.
#[verifier::external_body]
fn arg_possible_values_check<V: Fn(&[u8]) -> Result<(), SetError> + Clone + Send + Sync + 'static>(
    arg: clap::Arg,
    values: Vec<(&'static str, Option<&'static str>)>,
    validator: Option<V>,
) -> (r: clap::Arg)
    requires
        validator matches Some(f) ==> forall|v: &[u8]| #[trigger] f.requires((v,)),
    ensures
        arg_settings(r) == (ArgSettings { parser_values: Some(listed_values(values@)), ..arg_settings(arg) }),
        forall|s: Seq<char>, out: Result<Seq<char>, Seq<char>>|
            #[trigger] arg_parse_outcome(r, s, out) ==> {
                &&& listed_names(values@).contains(s) ==> validator_outcome(validator, s, out)
                &&& (forall|i: int| 0 <= i < values@.len() ==> !eq_ignore_ascii_case(#[trigger] listed_names(values@)[i], s))
                    ==> out is Err
            },
{
    let values = values.into_iter().map(|(name, help)| clap::builder::PossibleValue::new(name).help(help));
    let parser = clap::builder::PossibleValuesParser::new(values);
    arg.value_parser(clap::builder::TypedValueParser::try_map(parser, move |s: String| check_value(&validator, s.as_str())))
}

/// `ArgMatches::try_get_one::<String>(id).is_ok()`: whether `id` is one of
/// the string arguments of the matches.
#[verifier::external_body]
pub(crate) fn arg_defined(m: &clap::ArgMatches, id: &str) -> (r: bool)
    ensures
        r == string_arg_ids(*m).contains(id@),
{
    m.try_get_one::<String>(id).is_ok()
}

/// `ArgMatches::value_source`: where the value of `id` came from, as the
/// named origins record it. The id must be known to the matches (in debug
/// builds an unknown id panics).
#[verifier::external_body]
pub(crate) fn arg_origin(m: &clap::ArgMatches, id: &str) -> (r: Option<ValueOrigin>)
    requires
        string_arg_ids(*m).contains(id@),
    ensures
        match r {
            None => !arg_origins(*m).contains_key(id@),
            Some(o) => arg_origins(*m).contains_key(id@) && arg_origins(*m)[id@] == origin_code(o),
        },
{
    match m.value_source(id) {
        Some(clap::parser::ValueSource::DefaultValue) => Some(ValueOrigin::DefaultValue),
        Some(clap::parser::ValueSource::EnvVariable) => Some(ValueOrigin::EnvVariable),
        Some(clap::parser::ValueSource::CommandLine) => Some(ValueOrigin::CommandLine),
        Some(_) => Some(ValueOrigin::Other),
        None => None,
    }
}

/// `ArgMatches::try_get_one::<String>`: the first string value of `id`, if
/// any, as the named values record it. The id must be a string argument of
/// the matches.
#[verifier::external_body]
pub(crate) fn arg_string(m: &clap::ArgMatches, id: &str) -> (r: Option<String>)
    requires
        string_arg_ids(*m).contains(id@),
    ensures
        match r {
            None => !arg_values(*m).contains_key(id@),
            Some(s) => arg_values(*m).contains_key(id@) && arg_values(*m)[id@] == s@,
        },
{
    match m.try_get_one::<String>(id) {
        Ok(v) => v.cloned(),
        Err(_) => None,
    }
}

/// Where the value of a matched argument came from.
#[derive(Clone, Copy, PartialEq, Eq, Structural)]
pub enum ValueOrigin {
    /// The argument's default value.
    DefaultValue,
    /// The environment variable.
    EnvVariable,
    /// The command line.
    CommandLine,
    /// A source this library does not know of.
    Other,
}

/// What the value parser of an argument returns for `s`: the value itself
/// when the validator (if any) accepts it, or the validator's message.
pub open spec fn checked_value<V: Fn(&[u8]) -> Result<(), SetError>>(
    validator: Option<V>,
    s: Seq<char>,
    r: Result<String, String>,
) -> bool {
    exists|bytes: &[u8], res: Result<(), SetError>|
        bytes@ == vstd::utf8::encode_utf8(s) && #[trigger] validation_result(validator, bytes, res)
            && match res {
            Ok(()) => r matches Ok(v) && v@ == s,
            Err(e) => r matches Err(m) && m@ == e.spec_message(),
        }
}

/// Runs the validator (if any) on a command-line value: an accepted value
/// is returned as it is, a rejected one is reported with the validator's
/// message.
pub fn check_value<V: Fn(&[u8]) -> Result<(), SetError>>(validator: &Option<V>, s: &str) -> (r:
    Result<String, String>)
    requires
        validator matches Some(f) ==> forall|v: &[u8]| #[trigger] f.requires((v,)),
    ensures
        checked_value(*validator, s@, r),
{
    let bytes = s.as_bytes();
    let res = match validator {
        Some(f) => f(bytes),
        None => Ok(()),
    };
    assert(validation_result(*validator, bytes, res));
    match res {
        Ok(()) => Ok(owned(s)),
        Err(e) => Err(owned(e.message())),
    }
}

/// The plan of one command-line argument.
pub struct ArgSpec {
    id: &'static str,
    long: String,
    default_value: Option<String>,
    help: Option<String>,
    possible_values: Option<Vec<PossibleValue>>,
    source: usize,
}

/// The abstract content of an [`ArgSpec`].
pub struct ArgSpecView {
    pub id: Seq<char>,
    pub long: Seq<char>,
    pub default_value: Option<Seq<char>>,
    pub help: Option<Seq<char>>,
    pub possible_values: Option<Seq<PossibleValueView>>,
    pub source: int,
}

impl View for ArgSpec {
    type V = ArgSpecView;

    closed spec fn view(&self) -> ArgSpecView {
        ArgSpecView {
            id: self.id@,
            long: self.long@,
            default_value: opt_string_view(self.default_value),
            help: opt_string_view(self.help),
            possible_values: match self.possible_values {
                Some(v) => Some(possible_values_view(v@)),
                None => None,
            },
            source: self.source as int,
        }
    }
}

impl ArgSpec {
    /// A planned argument without possible values.
    pub(crate) fn planned(
        id: &'static str,
        long: String,
        default_value: Option<String>,
        help: Option<String>,
        source: usize,
    ) -> (r: ArgSpec)
        ensures
            r@ == (ArgSpecView {
                id: id@,
                long: long@,
                default_value: opt_string_view(default_value),
                help: opt_string_view(help),
                possible_values: None,
                source: source as int,
            }),
    {
        ArgSpec { id, long, default_value, help, possible_values: None, source }
    }

    /// The id of the argument: the name of the variable.
    pub fn id(&self) -> (r: &'static str)
        ensures
            r@ == self@.id,
    {
        self.id
    }

    /// The long flag.
    pub fn long(&self) -> (r: &str)
        ensures
            r@ == self@.long,
    {
        self.long.as_str()
    }

    /// The default value, if any.
    pub fn default_value(&self) -> (r: Option<&str>)
        ensures
            crate::registry::opt_str_view(r) == self@.default_value,
    {
        match &self.default_value {
            Some(d) => Some(d.as_str()),
            None => None,
        }
    }

    /// The help text, if any.
    pub fn help(&self) -> (r: Option<&str>)
        ensures
            crate::registry::opt_str_view(r) == self@.help,
    {
        match &self.help {
            Some(h) => Some(h.as_str()),
            None => None,
        }
    }

    /// The index of the registration this argument was planned from.
    pub fn source(&self) -> (r: usize)
        ensures
            r == self@.source,
    {
        self.source
    }
}

/// The help text shown for a registered help text: the normalized doc
/// text, or nothing when that is empty.
pub open spec fn help_text(help: Option<Seq<char>>) -> Option<Seq<char>> {
    match help {
        Some(h) => if normalized_doc(h).len() > 0 {
            Some(normalized_doc(h))
        } else {
            None
        },
        None => None,
    }
}

/// The argument planned for registration `source`.
pub open spec fn spec_arg(item: ItemView, source: int) -> ArgSpecView {
    ArgSpecView {
        id: item.key,
        long: spec_long_flag(item.key),
        default_value: item.default_value,
        help: help_text(item.help),
        possible_values: item.possible_values,
        source,
    }
}

/// The planned arguments are sorted by id, without repetition.
pub open spec fn sorted_by_id(specs: Seq<ArgSpecView>) -> bool {
    forall|i: int, j: int| 0 <= i < j < specs.len() ==> key_less(#[trigger] specs[i].id, #[trigger] specs[j].id)
}

/// `specs` is the plan for `views`: one argument per registered variable,
/// planned from its first registration, sorted by id.
pub open spec fn plans(views: Seq<ItemView>, specs: Seq<ArgSpecView>) -> bool {
    &&& sorted_by_id(specs)
    &&& forall|k: int|
        0 <= k < specs.len() ==> {
            &&& 0 <= #[trigger] specs[k].source < views.len()
            &&& is_first(views, specs[k].source)
            &&& specs[k] == spec_arg(views[specs[k].source], specs[k].source)
        }
    &&& forall|j: int|
        0 <= j < views.len() && is_first(views, j) ==> exists|k: int|
            0 <= k < specs.len() && #[trigger] specs[k].source == j
}

/// The plan of one argument for registration `source`.
fn plan_one<V>(item: &Item<V>, source: usize) -> (r: ArgSpec)
    ensures
        r@ == spec_arg(item@, source as int),
{
    let id = item.key();
    let long = long_flag(id);
    let help = match item.help() {
        Some(h) => {
            let text = normalize_doc(h);
            if text.as_str().is_empty() {
                None
            } else {
                Some(text)
            }
        },
        None => None,
    };
    let possible_values = match item.possible_values() {
        Some(pvs) => {
            let mut copy: Vec<PossibleValue> = Vec::new();
            let n = pvs.len();
            let mut i: usize = 0;
            while i < n
                invariant
                    n == pvs@.len(),
                    i <= n,
                    copy@ == pvs@.subrange(0, i as int),
                decreases n - i,
            {
                copy.push(pvs[i]);
                i = i + 1;
            }
            assert(pvs@.subrange(0, n as int) == pvs@);
            Some(copy)
        },
        None => None,
    };
    ArgSpec { id, long, default_value: item.default_value(), help, possible_values, source }
}

/// The position at which an argument with id `id` (not yet present) keeps
/// `specs` sorted.
fn insertion_point(specs: &Vec<ArgSpec>, id: &str) -> (p: usize)
    requires
        sorted_by_id(specs_view(specs@)),
        forall|k: int| 0 <= k < specs@.len() ==> #[trigger] specs_view(specs@)[k].id != id@,
    ensures
        p <= specs@.len(),
        forall|k: int| 0 <= k < p ==> key_less(#[trigger] specs_view(specs@)[k].id, id@),
        forall|k: int| p <= k < specs@.len() ==> key_less(id@, #[trigger] specs_view(specs@)[k].id),
{
    let ghost views = specs_view(specs@);
    let n = specs.len();
    let mut p: usize = 0;
    while p < n && !str_less(id, specs[p].id())
        invariant
            n == specs@.len(),
            p <= n,
            views == specs_view(specs@),
            sorted_by_id(views),
            forall|k: int| 0 <= k < p ==> key_less(#[trigger] views[k].id, id@),
            forall|k: int| 0 <= k < specs@.len() ==> #[trigger] views[k].id != id@,
        decreases n - p,
    {
        proof {
            assert(views[p as int] == specs@[p as int]@);
            lemma_key_less_total(specs@[p as int]@.id, id@);
        }
        p = p + 1;
    }
    proof {
        assert forall|k: int| p <= k < specs@.len() implies key_less(id@, #[trigger] views[k].id) by {
            assert(views[p as int] == specs@[p as int]@);
            if k > p {
                lemma_key_less_transitive(id@, views[p as int].id, views[k].id);
            }
        }
    }
    p
}

/// Whether a planned argument has id `id`.
pub(crate) fn has_id(specs: &Vec<ArgSpec>, id: &str) -> (r: bool)
    ensures
        r == exists|k: int| 0 <= k < specs@.len() && #[trigger] specs_view(specs@)[k].id == id@,
{
    let ghost sv = specs_view(specs@);
    let n = specs.len();
    let mut k: usize = 0;
    while k < n
        invariant
            n == specs@.len(),
            k <= n,
            sv == specs_view(specs@),
            forall|k2: int| 0 <= k2 < k ==> #[trigger] sv[k2].id != id@,
        decreases n - k,
    {
        assert(sv[k as int] == specs@[k as int]@);
        if crate::text::str_eq(specs[k].id(), id) {
            return true;
        }
        k = k + 1;
    }
    false
}

/// Inserts a planned argument with a new id where it keeps the plan
/// sorted by id.
pub(crate) fn insert_sorted(specs: &mut Vec<ArgSpec>, spec: ArgSpec) -> (p: usize)
    requires
        sorted_by_id(specs_view(old(specs)@)),
        forall|k: int| 0 <= k < old(specs)@.len() ==> #[trigger] specs_view(old(specs)@)[k].id != spec@.id,
    ensures
        p <= old(specs)@.len(),
        specs_view(final(specs)@) == specs_view(old(specs)@).insert(p as int, spec@),
        sorted_by_id(specs_view(final(specs)@)),
{
    let ghost sv = specs_view(specs@);
    let p = insertion_point(specs, spec.id());
    let ghost new_view = spec@;
    specs.insert(p, spec);
    proof {
        let new_specs = specs_view(specs@);
        assert(new_specs =~= sv.insert(p as int, new_view));
        sv.insert_ensures(p as int, new_view);
        assert forall|a: int, b: int| 0 <= a < b < new_specs.len() implies key_less(
            #[trigger] new_specs[a].id,
            #[trigger] new_specs[b].id,
        ) by {
            if a < p && b < p {
                assert(new_specs[a] == sv[a]);
                assert(new_specs[b] == sv[b]);
            } else if a < p && b == p {
                assert(new_specs[a] == sv[a]);
            } else if a < p && b > p {
                assert(new_specs[a] == sv[a]);
                assert(new_specs[b] == sv[b - 1]);
            } else if a == p {
                assert(new_specs[b] == sv[b - 1]);
            } else {
                assert(new_specs[a] == sv[a - 1]);
                assert(new_specs[b] == sv[b - 1]);
            }
        }
    }
    p
}

/// The views of planned arguments.
pub open spec fn specs_view(s: Seq<ArgSpec>) -> Seq<ArgSpecView> {
    s.map_values(|x: ArgSpec| x@)
}

/// Plans one argument per registered variable, from its first registration:
/// the id and environment variable are the key, the long flag is the key
/// lowercased with `-` for `_`, the default value, the help text
/// (normalized, dropped when empty) and the possible values are those
/// registered. The plan is sorted by id.
pub fn arg_specs<V>(items: &[Item<V>]) -> (r: Vec<ArgSpec>)
    ensures
        plans(items_view(items@), specs_view(r@)),
{
    let ghost views = items_view(items@);
    let mut specs: Vec<ArgSpec> = Vec::new();
    let n = items.len();
    let mut j: usize = 0;
    while j < n
        invariant
            n == items@.len(),
            views == items_view(items@),
            j <= n,
            sorted_by_id(specs_view(specs@)),
            forall|k: int|
                0 <= k < specs@.len() ==> {
                    &&& 0 <= #[trigger] specs_view(specs@)[k].source < j
                    &&& is_first(views, specs_view(specs@)[k].source)
                    &&& specs_view(specs@)[k] == spec_arg(
                        views[specs_view(specs@)[k].source],
                        specs_view(specs@)[k].source,
                    )
                },
            forall|i: int|
                0 <= i < j && is_first(views, i) ==> exists|k: int|
                    0 <= k < specs@.len() && #[trigger] specs_view(specs@)[k].source == i,
        decreases n - j,
    {
        let ghost sv = specs_view(specs@);
        let item = &items[j];
        assert(views[j as int] == item@);
        let dup = has_id(&specs, item.key());
        if !dup {
            assert(is_first(views, j as int)) by {
                assert forall|i: int| 0 <= i < j implies #[trigger] views[i].key != views[j as int].key by {
                    if views[i].key == views[j as int].key {
                        lemma_first_has_plan(views, sv, i, j as int);
                    }
                }
            }
            let spec = plan_one(item, j);
            let ghost sview = spec@;
            let p = insert_sorted(&mut specs, spec);
            proof {
                let new_specs = specs_view(specs@);
                sv.insert_ensures(p as int, sview);
                assert(new_specs == sv.insert(p as int, sview));
                assert forall|i: int| 0 <= i < j + 1 && is_first(views, i) implies exists|k: int|
                    0 <= k < specs@.len() && #[trigger] specs_view(specs@)[k].source == i by {
                    if i == j {
                        assert(new_specs[p as int].source == i);
                    } else {
                        let k = choose|k: int| 0 <= k < sv.len() && #[trigger] sv[k].source == i;
                        if k < p {
                            assert(new_specs[k] == sv[k]);
                        } else {
                            assert(new_specs[k + 1] == sv[k]);
                        }
                    }
                }
                assert forall|k: int| 0 <= k < specs@.len() implies {
                    &&& 0 <= #[trigger] specs_view(specs@)[k].source < j + 1
                    &&& is_first(views, specs_view(specs@)[k].source)
                    &&& specs_view(specs@)[k] == spec_arg(
                        views[specs_view(specs@)[k].source],
                        specs_view(specs@)[k].source,
                    )
                } by {
                    if k < p {
                        assert(new_specs[k] == sv[k]);
                    } else if k > p {
                        assert(new_specs[k] == sv[k - 1]);
                    }
                }
            }
        } else {
            proof {
                assert forall|i: int| 0 <= i < j + 1 && is_first(views, i) implies exists|k: int|
                    0 <= k < specs@.len() && #[trigger] specs_view(specs@)[k].source == i by {
                    if i == j {
                        let k2 = choose|k2: int| 0 <= k2 < sv.len() && #[trigger] sv[k2].id == views[j as int].key;
                        let i2 = sv[k2].source;
                        assert(views[i2].key == views[j as int].key);
                    }
                }
            }
        }
        j = j + 1;
    }
    specs
}

/// A first registration planned before `j` with the key of `j` means the
/// plan holds an argument with that id.
proof fn lemma_first_has_plan(views: Seq<ItemView>, specs: Seq<ArgSpecView>, i: int, j: int)
    requires
        0 <= i < j < views.len(),
        views[i].key == views[j].key,
        forall|i2: int| 0 <= i2 < j && is_first(views, i2) ==> exists|k: int|
            0 <= k < specs.len() && #[trigger] specs[k].source == i2,
        forall|k: int|
            0 <= k < specs.len() ==> (0 <= #[trigger] specs[k].source < j && specs[k] == spec_arg(
                views[specs[k].source],
                specs[k].source,
            )),
    ensures
        exists|k: int| 0 <= k < specs.len() && #[trigger] specs[k].id == views[j].key,
    decreases i,
{
    if is_first(views, i) {
        let k = choose|k: int| 0 <= k < specs.len() && #[trigger] specs[k].source == i;
        assert(specs[k].id == views[i].key);
    } else {
        let i2 = choose|i2: int| 0 <= i2 < i && #[trigger] views[i2].key == views[i].key;
        lemma_first_has_plan(views, specs, i2, j);
    }
}

/// The settings of the `clap` argument for a planned argument, before its
/// value parser is set: the id, the long flag, the id as environment
/// variable, the default value (if any) and the help text (if any).
pub open spec fn plain_arg_settings(s: ArgSpecView) -> ArgSettings {
    ArgSettings {
        id: s.id,
        long: Some(s.long),
        env: Some(s.id),
        defaults: match s.default_value {
            Some(d) => seq![d],
            None => Seq::empty(),
        },
        help: s.help,
        parser_values: None,
    }
}

/// The possible values of a plan, each as its name and help text.
pub open spec fn planned_values(pvs: Seq<PossibleValueView>) -> Seq<(Seq<char>, Option<Seq<char>>)> {
    pvs.map_values(|p: PossibleValueView| (p.name, p.help))
}

/// The names of a plan's possible values, if it lists any.
pub open spec fn planned_names(pvs: Option<Seq<PossibleValueView>>) -> Option<Seq<Seq<char>>> {
    match pvs {
        Some(v) => Some(v.map_values(|p: PossibleValueView| p.name)),
        None => None,
    }
}

/// The settings of the `clap` argument for a planned argument, value
/// parser included: it lists the planned possible values, if any.
pub open spec fn arg_settings_of_plan(s: ArgSpecView) -> ArgSettings {
    ArgSettings {
        parser_values: match s.possible_values {
            Some(pvs) => Some(planned_values(pvs)),
            None => None,
        },
        ..plain_arg_settings(s)
    }
}

/// The `clap` argument for one planned argument: its id, long flag,
/// environment variable, default value and help text.
pub(crate) fn build_plain_arg(spec: &ArgSpec) -> (r: clap::Arg)
    ensures
        arg_settings(r) == plain_arg_settings(spec@),
{
    let mut arg = arg_new(spec.id);
    arg = arg_long(arg, spec.long.clone());
    arg = arg_env(arg, spec.id);
    if let Some(d) = &spec.default_value {
        arg = arg_default_value(arg, d.clone());
    }
    if let Some(h) = &spec.help {
        arg = arg_help(arg, h.clone());
    }
    arg
}

/// The `clap` argument for one planned argument, with the validator of its
/// registration as value parser.
fn build_arg<V: Fn(&[u8]) -> Result<(), SetError> + Clone + Send + Sync + 'static>(
    spec: &ArgSpec,
    validator: Option<V>,
) -> (r: clap::Arg)
    requires
        validator matches Some(f) ==> forall|v: &[u8]| #[trigger] f.requires((v,)),
    ensures
        arg_settings(r) == arg_settings_of_plan(spec@),
        parser_checks(r, planned_names(spec@.possible_values), validator),
{
    let arg = build_plain_arg(spec);
    match &spec.possible_values {
        Some(pvs) => {
            let mut values: Vec<(&'static str, Option<&'static str>)> = Vec::new();
            let n = pvs.len();
            let mut i: usize = 0;
            while i < n
                invariant
                    n == pvs@.len(),
                    i <= n,
                    values@.len() == i,
                    forall|k: int|
                        0 <= k < i ==> (#[trigger] values@[k]).0@ == pvs@[k]@.name
                            && crate::registry::opt_str_view(values@[k].1) == pvs@[k]@.help,
                decreases n - i,
            {
                values.push((pvs[i].name(), pvs[i].help()));
                i = i + 1;
            }
            assert(listed_values(values@) =~= planned_values(possible_values_view(pvs@)));
            let ghost names = listed_names(values@);
            assert(names =~= possible_values_view(pvs@).map_values(|p: PossibleValueView| p.name));
            assert(names.len() == values@.len());
            let r = arg_possible_values_check(arg, values, validator);
            assert(planned_names(spec@.possible_values) == Some(names));
            assert forall|s: Seq<char>, out: Result<Seq<char>, Seq<char>>|
                #[trigger] arg_parse_outcome(r, s, out) implies {
                    &&& names.contains(s) ==> validator_outcome(validator, s, out)
                    &&& (forall|i: int| 0 <= i < names.len() ==> !eq_ignore_ascii_case(names[i], s)) ==> out is Err
                } by {
                if forall|i: int| 0 <= i < names.len() ==> !eq_ignore_ascii_case(names[i], s) {
                    assert(forall|i: int| 0 <= i < names.len() ==> !eq_ignore_ascii_case(#[trigger] names[i], s));
                }
            }
            assert(parser_checks(r, planned_names(spec@.possible_values), validator));
            r
        },
        None => {
            let r = arg_value_check(arg, validator);
            assert(planned_names(spec@.possible_values) is None);
            assert forall|s: Seq<char>, out: Result<Seq<char>, Seq<char>>|
                #[trigger] arg_parse_outcome(r, s, out) implies validator_outcome(validator, s, out) by {}
            assert(parser_checks(r, planned_names(spec@.possible_values), validator));
            r
        },
    }
}

/// `args` are the arguments built for `items`: one per planned argument,
/// in plan order, each with the planned settings and a value parser that
/// runs the validator of the registration it was planned from.
pub open spec fn built_args<V: Fn(&[u8]) -> Result<(), SetError>>(items: Seq<Item<V>>, args: Seq<clap::Arg>) -> bool {
    exists|specs: Seq<ArgSpecView>|
        {
            &&& plans(items_view(items), specs)
            &&& args.len() == specs.len()
            &&& forall|k: int| 0 <= k < specs.len() ==> arg_settings(#[trigger] args[k]) == arg_settings_of_plan(specs[k])
            &&& forall|k: int| 0 <= k < specs.len() ==> parser_checks(
                #[trigger] args[k],
                planned_names(specs[k].possible_values),
                items[specs[k].source].validator(),
            )
        }
}

/// Builds a `clap` argument for each registered variable, in the order and
/// with the settings that [`arg_specs`] plans: the id and environment
/// variable are the key, the long flag is the key lowercased with `-` for
/// `_`, and the default value, help text and listed possible values are
/// those of the variable's first registration. Each argument's value parser
/// runs the validator of that registration ([`parser_checks`]): with listed
/// possible values, a listed value goes to the validator and one that
/// matches no name is refused. Registrations must be consistent.
pub fn args<V: Fn(&[u8]) -> Result<(), SetError> + Copy + Send + Sync + 'static>(items: &[Item<V>]) -> (r:
    Vec<clap::Arg>)
    requires
        crate::validation::consistent(items_view(items@)),
        crate::validation::validators_callable(items@),
    ensures
        built_args(items@, r@),
{
    let specs = arg_specs(items);
    let ghost planned = specs_view(specs@);
    let mut result: Vec<clap::Arg> = Vec::new();
    let n = specs.len();
    let mut k: usize = 0;
    while k < n
        invariant
            n == specs@.len(),
            k <= n,
            result@.len() == k,
            planned == specs_view(specs@),
            plans(items_view(items@), planned),
            crate::validation::validators_callable(items@),
            forall|i: int| 0 <= i < k ==> arg_settings(#[trigger] result@[i]) == arg_settings_of_plan(planned[i]),
            forall|i: int| 0 <= i < k ==> parser_checks(
                #[trigger] result@[i],
                planned_names(planned[i].possible_values),
                items@[planned[i].source].validator(),
            ),
        decreases n - k,
    {
        let spec = &specs[k];
        assert(planned[k as int] == spec@);
        let source = spec.source();
        assert(items@[source as int].validator_callable());
        let validator = items[source].validator_copy();
        let arg = build_arg(spec, validator);
        result.push(arg);
        k = k + 1;
    }
    proof {
        let views = items_view(items@);
        let r = result@;
        assert(plans(views, planned) && r.len() == planned.len() && (forall|k: int|
            0 <= k < planned.len() ==> arg_settings(#[trigger] r[k]) == arg_settings_of_plan(planned[k])) && (forall|k: int|
            0 <= k < planned.len() ==> parser_checks(
                #[trigger] r[k],
                planned_names(planned[k].possible_values),
                items@[planned[k].source].validator(),
            )));
    }
    result
}

/// Checks the registrations, then builds the arguments: conflicting
/// registrations are reported (naming the first conflicting variable) and
/// nothing is built; otherwise this is [`args`].
pub fn args_checked<V: Fn(&[u8]) -> Result<(), SetError> + Copy + Send + Sync + 'static>(items: &[Item<V>]) -> (r:
    Result<Vec<clap::Arg>, crate::validation::ConflictError>)
    requires
        crate::validation::validators_callable(items@),
    ensures
        r is Err <==> !crate::validation::consistent(items_view(items@)),
        r matches Err(e) ==> exists|j: int|
            crate::validation::is_first_conflict(items_view(items@), j) && e.spec_name()
                == #[trigger] items_view(items@)[j].key,
        r matches Ok(a) ==> built_args(items@, a@),
{
    match crate::validation::check_consistency(items) {
        Err(e) => Err(e),
        Ok(()) => Ok(args(items)),
    }
}

/// The value of a matched argument that is applied to its variable: only a
/// value of a known string argument that came from the environment or the
/// command line (not the argument's default) is applied.
pub open spec fn value_to_apply(
    defined: bool,
    origin: Option<ValueOrigin>,
    value: Option<Seq<char>>,
) -> Option<Seq<char>> {
    if !defined {
        None
    } else {
        match origin {
            None => None,
            Some(ValueOrigin::DefaultValue) => None,
            Some(_) => value,
        }
    }
}

/// Decides which matched value, if any, is applied to a variable.
pub fn applied_value(defined: bool, origin: Option<ValueOrigin>, value: Option<String>) -> (r:
    Option<String>)
    ensures
        opt_string_view(r) == value_to_apply(defined, origin, opt_string_view(value)),
{
    if !defined {
        return None;
    }
    match origin {
        None => None,
        Some(ValueOrigin::DefaultValue) => None,
        Some(_) => value,
    }
}

/// An error raised while applying parsed command-line matches.
pub struct MatchError {
    message: String,
}

impl MatchError {
    /// The message of the error.
    pub closed spec fn spec_message(&self) -> Seq<char> {
        self.message@
    }

    /// An error with the given message.
    pub fn new(message: String) -> (r: Self)
        ensures
            r.spec_message() == message@,
    {
        MatchError { message }
    }

    /// The message of the error.
    pub fn message(&self) -> (r: &str)
        ensures
            r@ == self.spec_message(),
    {
        self.message.as_str()
    }
}

/// The origin that an origin code of [`origin_code`] stands for.
pub open spec fn origin_of_code(c: u8) -> ValueOrigin {
    if c == 0 {
        ValueOrigin::DefaultValue
    } else if c == 1 {
        ValueOrigin::EnvVariable
    } else if c == 2 {
        ValueOrigin::CommandLine
    } else {
        ValueOrigin::Other
    }
}

/// Where the matched value of `id` came from, if it has a source.
pub open spec fn matched_origin(m: clap::ArgMatches, id: Seq<char>) -> Option<ValueOrigin> {
    if arg_origins(m).contains_key(id) {
        Some(origin_of_code(arg_origins(m)[id]))
    } else {
        None
    }
}

/// The first string value matched for `id`, if any.
pub open spec fn matched_value(m: clap::ArgMatches, id: Seq<char>) -> Option<Seq<char>> {
    if arg_values(m).contains_key(id) {
        Some(arg_values(m)[id])
    } else {
        None
    }
}

/// The bytes that registration `j` is validated with when matches `m` are
/// applied: only the first registration of a variable, and only with a
/// value of its argument that came from the environment or the command
/// line.
pub open spec fn match_input(views: Seq<ItemView>, m: clap::ArgMatches, j: int) -> Option<Seq<u8>> {
    if !is_first(views, j) {
        None
    } else {
        match value_to_apply(
            string_arg_ids(m).contains(views[j].key),
            matched_origin(m, views[j].key),
            matched_value(m, views[j].key),
        ) {
            Some(s) => Some(vstd::utf8::encode_utf8(s)),
            None => None,
        }
    }
}

/// Validates and caches the variables from parsed `clap` matches: for the
/// first registration of each variable whose argument is known to the
/// matches and whose value came from the environment or the command line,
/// the validator runs on that value ([`match_input`]). Values that came
/// from an argument's default were already validated by its value parser.
/// The result holds, for each registration in order, what its validator
/// returned (`Ok` where no validator ran). A rejected value was already
/// reported by the value parser, so nothing here fails.
pub fn apply_matches<V: Fn(&[u8]) -> Result<(), SetError>>(
    matches: &clap::ArgMatches,
    items: &[Item<V>],
) -> (r: Vec<Result<(), SetError>>)
    requires
        crate::validation::validators_callable(items@),
    ensures
        r@.len() == items@.len(),
        forall|j: int|
            0 <= j < items@.len() ==> #[trigger] validated_as(
                items@[j],
                match_input(items_view(items@), *matches, j),
                r@[j],
            ),
{
    let ghost views = items_view(items@);
    let mut results: Vec<Result<(), SetError>> = Vec::new();
    let n = items.len();
    let mut j: usize = 0;
    while j < n
        invariant
            n == items@.len(),
            j <= n,
            views == items_view(items@),
            crate::validation::validators_callable(items@),
            results@.len() == j,
            forall|k: int|
                0 <= k < j ==> #[trigger] validated_as(
                    items@[k],
                    match_input(views, *matches, k),
                    results@[k],
                ),
        decreases n - j,
    {
        let item = &items[j];
        assert(item.validator_callable());
        assert(views[j as int] == item@);
        let ghost input = match_input(views, *matches, j as int);
        let mut result: Result<(), SetError> = Ok(());
        if crate::validation::first_registration(items, j) {
            let name = item.key();
            let defined = arg_defined(matches, name);
            if defined {
                let origin = arg_origin(matches, name);
                let value = arg_string(matches, name);
                proof {
                    assert(matched_origin(*matches, name@) == origin);
                    assert(matched_value(*matches, name@) == opt_string_view(value));
                }
                if let Some(v) = applied_value(defined, origin, value) {
                    let bytes = v.as_str().as_bytes();
                    result = item.validate(bytes);
                    assert(validated_as(items@[j as int], input, result));
                }
            }
        }
        assert(validated_as(items@[j as int], input, result));
        let ghost before = results@;
        results.push(result);
        proof {
            assert forall|k: int| 0 <= k < j + 1 implies #[trigger] validated_as(
                items@[k],
                match_input(views, *matches, k),
                results@[k],
            ) by {
                if k < j {
                    assert(results@[k] == before[k]);
                }
            }
        }
        j = j + 1;
    }
    results
}

/// Like [`apply_matches`]; `cmd` is the command the matches came from.
pub fn apply_matches_for<V: Fn(&[u8]) -> Result<(), SetError>>(
    cmd: &mut clap::Command,
    matches: &clap::ArgMatches,
    items: &[Item<V>],
) -> (r: Vec<Result<(), SetError>>)
    requires
        crate::validation::validators_callable(items@),
    ensures
        r@.len() == items@.len(),
        forall|j: int|
            0 <= j < items@.len() ==> #[trigger] validated_as(
                items@[j],
                match_input(items_view(items@), *matches, j),
                r@[j],
            ),
{
    apply_matches(matches, items)
}

/// Flattening this into a command-line interface adds every registered
/// variable as a long option with an environment fallback and help text.
#[derive(Default)]
pub struct EnvArgs;

/// Some planned argument has id `id`.
pub open spec fn has_argument(specs: Seq<ArgSpecView>, id: Seq<char>) -> bool {
    exists|k: int| 0 <= k < specs.len() && #[trigger] specs[k].id == id
}

/// Every registered variable has exactly one argument: the planned ids
/// are pairwise distinct, and every registration's key is among them.
pub proof fn law_one_argument_per_variable(views: Seq<ItemView>, specs: Seq<ArgSpecView>)
    requires
        plans(views, specs),
    ensures
        forall|a: int, b: int| 0 <= a < specs.len() && 0 <= b < specs.len() && a != b ==> #[trigger] specs[a].id
            != #[trigger] specs[b].id,
        forall|j: int| 0 <= j < views.len() ==> has_argument(specs, #[trigger] views[j].key),
{
    assert forall|a: int, b: int| 0 <= a < specs.len() && 0 <= b < specs.len() && a != b implies #[trigger] specs[a].id
        != #[trigger] specs[b].id by {
        if a < b {
            assert(key_less(specs[a].id, specs[b].id));
            lemma_key_less_irreflexive(specs[a].id);
        } else {
            assert(key_less(specs[b].id, specs[a].id));
            lemma_key_less_irreflexive(specs[b].id);
        }
    }
    assert forall|j: int| 0 <= j < views.len() implies has_argument(specs, #[trigger] views[j].key) by {
        crate::validation::lemma_first_registration_exists(views, j);
        let i = choose|i: int| 0 <= i <= j && is_first(views, i) && #[trigger] views[i].key == views[j].key;
        let k = choose|k: int| 0 <= k < specs.len() && #[trigger] specs[k].source == i;
        assert(specs[k].id == views[i].key);
    }
}

/// The ids of a plan.
pub open spec fn plan_ids(specs: Seq<ArgSpecView>) -> Seq<Seq<char>> {
    specs.map_values(|a: ArgSpecView| a.id)
}

/// Two strictly increasing sequences of ids with the same members are equal.
pub(crate) proof fn lemma_sorted_ids_unique(a: Seq<Seq<char>>, b: Seq<Seq<char>>)
    requires
        forall|i: int, j: int| 0 <= i < j < a.len() ==> key_less(#[trigger] a[i], #[trigger] a[j]),
        forall|i: int, j: int| 0 <= i < j < b.len() ==> key_less(#[trigger] b[i], #[trigger] b[j]),
        forall|x: Seq<char>| a.contains(x) <==> b.contains(x),
    ensures
        a == b,
    decreases a.len(),
{
    if a.len() == 0 {
        if b.len() > 0 {
            assert(b.contains(b[0]));
        }
        assert(a =~= b);
    } else {
        assert(a.contains(a[0]));
        let m = choose|m: int| 0 <= m < b.len() && b[m] == a[0];
        assert(b.contains(b[0]));
        let n = choose|n: int| 0 <= n < a.len() && a[n] == b[0];
        if m > 0 {
            assert(key_less(b[0], b[m]));
            if n > 0 {
                assert(key_less(a[0], a[n]));
                lemma_key_less_transitive(a[0], b[0], a[0]);
                lemma_key_less_irreflexive(a[0]);
            } else {
                lemma_key_less_irreflexive(a[0]);
            }
        }
        assert(b[0] == a[0]);
        let a2 = a.drop_first();
        let b2 = b.drop_first();
        assert forall|x: Seq<char>| a2.contains(x) <==> b2.contains(x) by {
            if a2.contains(x) {
                let i = choose|i: int| 0 <= i < a2.len() && a2[i] == x;
                assert(a.contains(x));
                let j = choose|j: int| 0 <= j < b.len() && b[j] == x;
                if j == 0 {
                    assert(key_less(a[0], a[i + 1]));
                    lemma_key_less_irreflexive(a[0]);
                }
                assert(b2[j - 1] == x);
            }
            if b2.contains(x) {
                let j = choose|j: int| 0 <= j < b2.len() && b2[j] == x;
                assert(b.contains(x));
                let i = choose|i: int| 0 <= i < a.len() && a[i] == x;
                if i == 0 {
                    assert(key_less(b[0], b[j + 1]));
                    lemma_key_less_irreflexive(b[0]);
                }
                assert(a2[i - 1] == x);
            }
        }
        assert forall|i: int, j: int| 0 <= i < j < a2.len() implies key_less(#[trigger] a2[i], #[trigger] a2[j]) by {
            assert(key_less(a[i + 1], a[j + 1]));
        }
        assert forall|i: int, j: int| 0 <= i < j < b2.len() implies key_less(#[trigger] b2[i], #[trigger] b2[j]) by {
            assert(key_less(b[i + 1], b[j + 1]));
        }
        lemma_sorted_ids_unique(a2, b2);
        assert(a =~= b) by {
            assert forall|i: int| 0 <= i < a.len() implies a[i] == b[i] by {
                if i > 0 {
                    assert(a[i] == a2[i - 1]);
                    assert(b[i] == b2[i - 1]);
                }
            }
        }
    }
}

/// The ids of a plan are the keys of the registrations.
proof fn lemma_plan_ids_are_keys(views: Seq<ItemView>, specs: Seq<ArgSpecView>, x: Seq<char>)
    requires
        plans(views, specs),
    ensures
        plan_ids(specs).contains(x) <==> exists|j: int| 0 <= j < views.len() && #[trigger] views[j].key == x,
{
    if plan_ids(specs).contains(x) {
        let k = choose|k: int| 0 <= k < plan_ids(specs).len() && plan_ids(specs)[k] == x;
        assert(specs[k].source >= 0);
        assert(views[specs[k].source].key == x);
    }
    if exists|j: int| 0 <= j < views.len() && #[trigger] views[j].key == x {
        let j = choose|j: int| 0 <= j < views.len() && #[trigger] views[j].key == x;
        law_one_argument_per_variable(views, specs);
        assert(has_argument(specs, views[j].key));
        let k = choose|k: int| 0 <= k < specs.len() && #[trigger] specs[k].id == views[j].key;
        assert(plan_ids(specs)[k] == x);
    }
}

/// The plan of the arguments is determined by the registrations: two
/// plans for the same registrations are equal.
pub proof fn law_plan_is_determined(views: Seq<ItemView>, s1: Seq<ArgSpecView>, s2: Seq<ArgSpecView>)
    requires
        plans(views, s1),
        plans(views, s2),
    ensures
        s1 == s2,
{
    let a = plan_ids(s1);
    let b = plan_ids(s2);
    assert forall|x: Seq<char>| a.contains(x) <==> b.contains(x) by {
        lemma_plan_ids_are_keys(views, s1, x);
        lemma_plan_ids_are_keys(views, s2, x);
    }
    assert forall|i: int, j: int| 0 <= i < j < a.len() implies key_less(#[trigger] a[i], #[trigger] a[j]) by {
        assert(key_less(s1[i].id, s1[j].id));
    }
    assert forall|i: int, j: int| 0 <= i < j < b.len() implies key_less(#[trigger] b[i], #[trigger] b[j]) by {
        assert(key_less(s2[i].id, s2[j].id));
    }
    lemma_sorted_ids_unique(a, b);
    assert forall|k: int| 0 <= k < s1.len() implies s1[k] == s2[k] by {
        assert(a[k] == b[k]);
        let i1 = s1[k].source;
        let i2 = s2[k].source;
        assert(views[i1].key == views[i2].key);
        if i1 < i2 {
            assert(views[i1].key != views[i2].key);
        } else if i2 < i1 {
            assert(views[i2].key != views[i1].key);
        }
    }
    assert(s1 =~= s2);
}

/// When matches are applied, the first registration of a variable whose
/// argument is known to the matches and got its value from the environment
/// or the command line is validated with that value; a value that came
/// from the argument's default is not validated again.
pub proof fn law_matched_value_is_validated(views: Seq<ItemView>, m: clap::ArgMatches, j: int)
    requires
        0 <= j < views.len(),
        is_first(views, j),
        string_arg_ids(m).contains(views[j].key),
        arg_values(m).contains_key(views[j].key),
        arg_origins(m).contains_key(views[j].key),
    ensures
        arg_origins(m)[views[j].key] == origin_code(ValueOrigin::EnvVariable) || arg_origins(m)[views[j].key]
            == origin_code(ValueOrigin::CommandLine) ==> match_input(views, m, j) == Some(
            vstd::utf8::encode_utf8(arg_values(m)[views[j].key]),
        ),
        arg_origins(m)[views[j].key] == origin_code(ValueOrigin::DefaultValue) ==> match_input(views, m, j) is None,
{
}

} // verus!
