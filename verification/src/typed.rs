//! Typed items with registration entries.
//!
//! An [`Item`] is a typed variable whose parser reports errors as strings.
//! Each item is registered by an [`ItemEntry`] that records its name, its
//! description, its type name, the representation of its default and the
//! crate that registered it, together with a function that initializes the
//! item. [`validate_all`] initializes every registered item eagerly;
//! [`args`] and [`apply_matches`] expose the entries on a command line.
use vstd::prelude::*;
use vstd::utf8::{decode_utf8, valid_utf8};
use crate::cli::{
    arg_origin, arg_origins, arg_string, arg_values, origin_code, build_plain_arg, has_id, insert_sorted, sorted_by_id, specs_view,
    string_arg_ids, arg_settings, plain_arg_settings, ArgSpec, ArgSpecView, MatchError, ValueOrigin,
};
use crate::env::Env;
use crate::text::{
    all_ascii, ascii_lower, long_flag, spec_long_flag, trim, trim_str,
    debug_quoted, debug_string, lemma_str_chars_from_bytes, lowercase, owned, push_str, str_eq,
    to_lowercase, utf8_str,
};
use crate::var::{boolish, classify_boolish};

verus! {

/// The message of a value that is not a boolean, quoting the input.
pub open spec fn boolean_expected_message(s: Seq<char>) -> Seq<char> {
    "expected a boolean (true/false/yes/no/on/off/1/0), got '"@ + s + "'"@
}

/// Parses a boolean from its common spellings, ignoring case:
/// `true`, `false`, `yes`, `no`, `on`, `off`, `1`, `0`. The error quotes
/// the rejected input.
pub fn parse_boolish(s: &str) -> (r: Result<bool, String>)
    ensures
        match boolish(lowercase(s@)) {
            Some(b) => r == Ok::<bool, String>(b),
            None => r matches Err(m) && m@ == boolean_expected_message(s@),
        },
        all_ascii(s@) ==> lowercase(s@) == s@.map_values(|c: char| ascii_lower(c)),
{
    let lowered = to_lowercase(s);
    match classify_boolish(lowered.as_str()) {
        Some(b) => Ok(b),
        None => {
            let mut m = owned("expected a boolean (true/false/yes/no/on/off/1/0), got '");
            push_str(&mut m, s);
            push_str(&mut m, "'");
            Err(m)
        },
    }
}

/// A single environment variable whose value could not be parsed.
pub struct ParseError {
    pub name: &'static str,
    pub value_type: &'static str,
    pub value: String,
    pub message: String,
}

/// The abstract content of a [`ParseError`].
pub struct ParseErrorView {
    pub name: Seq<char>,
    pub value_type: Seq<char>,
    pub value: Seq<char>,
    pub message: Seq<char>,
}

impl View for ParseError {
    type V = ParseErrorView;

    open spec fn view(&self) -> ParseErrorView {
        ParseErrorView {
            name: self.name@,
            value_type: self.value_type@,
            value: self.value@,
            message: self.message@,
        }
    }
}

/// The text of a parse error: `NAME="value": failed to parse as TYPE: message`.
pub open spec fn parse_error_text(e: ParseErrorView) -> Seq<char> {
    e.name + "="@ + debug_quoted(e.value) + ": failed to parse as "@ + e.value_type + ": "@
        + e.message
}

impl ParseError {
    /// The text shown for the error.
    pub fn to_string(&self) -> (r: String)
        ensures
            r@ == parse_error_text(self@),
    {
        let mut out = owned(self.name);
        push_str(&mut out, "=");
        let quoted = debug_string(self.value.as_str());
        push_str(&mut out, quoted.as_str());
        push_str(&mut out, ": failed to parse as ");
        push_str(&mut out, self.value_type);
        push_str(&mut out, ": ");
        push_str(&mut out, self.message.as_str());
        out
    }
}

/// One or more environment variables that could not be parsed.
pub struct ValidationErrors {
    pub errors: Vec<ParseError>,
}

/// The report of a list of errors: a header line, then one line per error.
pub open spec fn errors_report(errors: Seq<ParseErrorView>) -> Seq<char>
    decreases errors.len(),
{
    if errors.len() == 0 {
        "Environment variable validation failed:\n"@
    } else {
        errors_report(errors.drop_last()) + "  - "@ + parse_error_text(errors.last()) + "\n"@
    }
}

/// The views of a sequence of parse errors.
pub open spec fn errors_view(errors: Seq<ParseError>) -> Seq<ParseErrorView> {
    errors.map_values(|e: ParseError| e@)
}

impl ValidationErrors {
    /// The report shown to users.
    pub fn to_string(&self) -> (r: String)
        ensures
            r@ == errors_report(errors_view(self.errors@)),
    {
        let mut out = owned("Environment variable validation failed:\n");
        let n = self.errors.len();
        let mut i: usize = 0;
        while i < n
            invariant
                n == self.errors@.len(),
                i <= n,
                out@ == errors_report(errors_view(self.errors@).take(i as int)),
            decreases n - i,
        {
            push_str(&mut out, "  - ");
            let text = self.errors[i].to_string();
            push_str(&mut out, text.as_str());
            push_str(&mut out, "\n");
            assert(errors_view(self.errors@).take(i + 1).drop_last() == errors_view(self.errors@).take(
                i as int,
            ));
            i = i + 1;
        }
        assert(errors_view(self.errors@).take(n as int) == errors_view(self.errors@));
        out
    }
}

/// A typed environment variable whose parser reports errors as strings,
/// resolved once and then cached.
pub struct Item<T, P, D> {
    name: &'static str,
    value_type: &'static str,
    default: D,
    parse: P,
    value: Option<T>,
}

impl<T, P, D> Item<T, P, D> {
    /// The name of the environment variable.
    pub closed spec fn spec_name(&self) -> Seq<char> {
        self.name@
    }

    /// The name of the type the variable parses to.
    pub closed spec fn spec_value_type(&self) -> Seq<char> {
        self.value_type@
    }

    /// The parser.
    pub closed spec fn parser(&self) -> P {
        self.parse
    }

    /// The producer of the typed default.
    pub closed spec fn default_fn(&self) -> D {
        self.default
    }

    /// The cached value, if the variable has been resolved.
    pub closed spec fn cached(&self) -> Option<T> {
        self.value
    }

    /// `self` and `other` read the same variable the same way.
    pub open spec fn same_config(&self, other: Self) -> bool {
        &&& self.spec_name() == other.spec_name()
        &&& self.spec_value_type() == other.spec_value_type()
        &&& self.parser() == other.parser()
        &&& self.default_fn() == other.default_fn()
    }

    /// Creates an item with an empty cache.
    pub fn new(name: &'static str, value_type: &'static str, default: D, parse: P) -> (r: Self)
        ensures
            r.spec_name() == name@,
            r.spec_value_type() == value_type@,
            r.default_fn() == default,
            r.parser() == parse,
            r.cached() is None,
    {
        Item { name, value_type, default, parse, value: None }
    }

    /// Returns the environment variable name.
    pub fn name(&self) -> (r: &'static str)
        ensures
            r@ == self.spec_name(),
    {
        self.name
    }

    /// The cached value, if the variable has been resolved.
    pub fn get(&self) -> (r: Option<&T>)
        ensures
            match r {
                Some(v) => self.cached() == Some(*v),
                None => self.cached() is None,
            },
    {
        self.value.as_ref()
    }

    /// Fills an empty cache with `v`; a full cache is left alone.
    fn fill(&mut self, v: T)
        ensures
            final(self).same_config(*old(self)),
            final(self).cached() == (if old(self).cached() is Some {
                old(self).cached()
            } else {
                Some(v)
            }),
    {
        if self.value.is_none() {
            self.value = Some(v);
        }
    }
}

/// The cache after a value `v` was offered to a cache holding `before`.
pub open spec fn filled<T>(before: Option<T>, v: T) -> Option<T> {
    if before is Some {
        before
    } else {
        Some(v)
    }
}

/// What parsing the text `input` with the parser of `before` and caching
/// the result leads to, for some outcome of the parser: a parsed value
/// fills an empty cache; a rejection leaves the cache alone and is
/// reported with the name, the type name, the input and the parser's
/// message.
pub open spec fn parsed_outcome<T, P: Fn(&str) -> Result<T, String>, D>(
    before: Item<T, P, D>,
    after: Item<T, P, D>,
    input: Seq<char>,
    r: Result<(), ParseError>,
) -> bool {
    exists|s: &str, parsed: Result<T, String>|
        s@ == input && #[trigger] call_ensures(before.parser(), (s,), parsed) && match parsed {
            Ok(v) => r is Ok && after.cached() == filled(before.cached(), v),
            Err(m) => {
                &&& after.cached() == before.cached()
                &&& r matches Err(pe) && pe@ == (ParseErrorView {
                    name: before.spec_name(),
                    value_type: before.spec_value_type(),
                    value: input,
                    message: m@,
                })
            },
        }
}

/// The value reported for an environment variable that is not Unicode.
pub open spec fn invalid_unicode_value() -> Seq<char> {
    "<invalid unicode>"@
}

/// The message for an environment variable that is not Unicode.
pub open spec fn invalid_unicode_env_message() -> Seq<char> {
    "environment variable contains invalid unicode"@
}

/// What initializing an item does: an override value is parsed; otherwise
/// the variable is read from the environment and parsed when it is set
/// (and refused when it is not Unicode); an unset variable fills an empty
/// cache with the typed default.
pub open spec fn init_outcome<T, P: Fn(&str) -> Result<T, String>, D: Fn() -> T>(
    before: Item<T, P, D>,
    after: Item<T, P, D>,
    override_value: Option<Seq<char>>,
    env: Map<Seq<char>, Seq<u8>>,
    r: Result<(), ParseError>,
) -> bool {
    &&& after.same_config(before)
    &&& match override_value {
        Some(v) => parsed_outcome(before, after, v, r),
        None => if env.contains_key(before.spec_name()) {
            let raw = env[before.spec_name()];
            if valid_utf8(raw) {
                parsed_outcome(before, after, decode_utf8(raw), r)
            } else {
                &&& after.cached() == before.cached()
                &&& r matches Err(pe) && pe@ == (ParseErrorView {
                    name: before.spec_name(),
                    value_type: before.spec_value_type(),
                    value: invalid_unicode_value(),
                    message: invalid_unicode_env_message(),
                })
            }
        } else {
            &&& r is Ok
            &&& exists|d: T|
                #[trigger] call_ensures(before.default_fn(), (), d) && after.cached() == filled(
                    before.cached(),
                    d,
                )
        },
    }
}

/// The value lazily resolving `item` against `env` may produce: the parsed
/// value when the variable is set to Unicode that parses, and the typed
/// default otherwise.
pub open spec fn lazy_item_value<T, P: Fn(&str) -> Result<T, String>, D: Fn() -> T>(
    item: Item<T, P, D>,
    env: Map<Seq<char>, Seq<u8>>,
    v: T,
) -> bool {
    let key = item.spec_name();
    if env.contains_key(key) && valid_utf8(env[key]) {
        exists|s: &str, parsed: Result<T, String>|
            s@ == decode_utf8(env[key]) && #[trigger] call_ensures(item.parser(), (s,), parsed) && (
            match parsed {
                Ok(p) => v == p,
                Err(_) => call_ensures(item.default_fn(), (), v),
            })
    } else {
        call_ensures(item.default_fn(), (), v)
    }
}

impl<T, P: Fn(&str) -> Result<T, String>, D: Fn() -> T> Item<T, P, D> {
    /// The parser accepts every input and the default can always be produced.
    pub open spec fn callable(&self) -> bool {
        &&& forall|s: &str| #[trigger] self.parser().requires((s,))
        &&& self.default_fn().requires(())
    }

    /// Parses `val` and caches the result.
    fn parse_and_cache(&mut self, val: &str) -> (r: Result<(), ParseError>)
        requires
            old(self).callable(),
        ensures
            final(self).same_config(*old(self)),
            parsed_outcome(*old(self), *final(self), val@, r),
    {
        let ghost before = *self;
        assert(self.parser().requires((val,)));
        let parsed = (self.parse)(val);
        assert(call_ensures(before.parser(), (val,), parsed));
        match parsed {
            Ok(v) => {
                self.fill(v);
                Ok(())
            },
            Err(message) => Err(
                ParseError { name: self.name, value_type: self.value_type, value: owned(val), message },
            ),
        }
    }

    /// Parses the override value if one is given, or else the variable's
    /// value in `env`, and caches the result. An unset variable caches the
    /// typed default; a value that is not Unicode is refused.
    pub fn init(&mut self, override_value: Option<&str>, env: &Env) -> (r: Result<(), ParseError>)
        requires
            old(self).callable(),
        ensures
            init_outcome(
                *old(self),
                *final(self),
                match override_value {
                    Some(v) => Some(v@),
                    None => None,
                },
                env@,
                r,
            ),
    {
        match override_value {
            Some(val) => self.parse_and_cache(val),
            None => match env.get(self.name) {
                Some(raw) => match utf8_str(raw) {
                    Some(text) => {
                        proof {
                            lemma_str_chars_from_bytes(text, raw@);
                        }
                        self.parse_and_cache(text)
                    },
                    None => Err(
                        ParseError {
                            name: self.name,
                            value_type: self.value_type,
                            value: owned("<invalid unicode>"),
                            message: owned("environment variable contains invalid unicode"),
                        },
                    ),
                },
                None => {
                    let d = (self.default)();
                    self.fill(d);
                    Ok(())
                },
            },
        }
    }

    /// Returns the cached value, resolving it first if needed: a set
    /// variable that parses gives the parsed value, otherwise the typed
    /// default is used.
    pub fn resolve(&mut self, env: &Env) -> (r: &T)
        requires
            old(self).callable(),
        ensures
            final(self).same_config(*old(self)),
            old(self).cached() is Some ==> final(self).cached() == old(self).cached(),
            old(self).cached() is None ==> (final(self).cached() matches Some(v) && lazy_item_value(
                *old(self),
                env@,
                v,
            )),
            final(self).cached() == Some(*r),
    {
        if self.value.is_none() {
            let v = self.lazy(env);
            self.value = Some(v);
        }
        self.value.as_ref().unwrap()
    }

    /// The value that resolving the item against `env` produces, without
    /// touching the cache.
    fn lazy(&self, env: &Env) -> (v: T)
        requires
            self.callable(),
        ensures
            lazy_item_value(*self, env@, v),
    {
        if let Some(raw) = env.get(self.name) {
            if let Some(text) = utf8_str(raw) {
                proof {
                    lemma_str_chars_from_bytes(text, raw@);
                    assert(self.parser().requires((text,)));
                }
                let parsed = (self.parse)(text);
                assert(call_ensures(self.parser(), (text,), parsed));
                match parsed {
                    Ok(p) => {
                        return p;
                    },
                    Err(_) => {
                        let d = (self.default)();
                        return d;
                    },
                }
            }
        }
        (self.default)()
    }
}

/// Metadata for a registered environment variable, with the function that
/// initializes it (from an override value, or else from the environment).
pub struct ItemEntry<I> {
    pub name: &'static str,
    pub description: &'static str,
    pub value_type: &'static str,
    pub default_repr: &'static str,
    pub crate_name: &'static str,
    pub init: I,
}

/// The abstract content of an [`ItemEntry`], its function aside.
pub struct EntryView {
    pub name: Seq<char>,
    pub description: Seq<char>,
    pub value_type: Seq<char>,
    pub default_repr: Seq<char>,
    pub crate_name: Seq<char>,
}

impl<I> View for ItemEntry<I> {
    type V = EntryView;

    open spec fn view(&self) -> EntryView {
        EntryView {
            name: self.name@,
            description: self.description@,
            value_type: self.value_type@,
            default_repr: self.default_repr@,
            crate_name: self.crate_name@,
        }
    }
}

/// The views of a sequence of entries.
pub open spec fn entries_view<I>(entries: Seq<ItemEntry<I>>) -> Seq<EntryView> {
    entries.map_values(|e: ItemEntry<I>| e@)
}

/// No entry before `j` has the name of entry `j`.
pub open spec fn entry_is_first(views: Seq<EntryView>, j: int) -> bool {
    forall|i: int| 0 <= i < j ==> #[trigger] views[i].name != views[j].name
}

/// Two entries register a variable the same way: same type name,
/// description and default representation.
pub open spec fn same_registration(a: EntryView, b: EntryView) -> bool {
    &&& a.value_type == b.value_type
    &&& a.description == b.description
    &&& a.default_repr == b.default_repr
}

/// Entry `j` repeats the first registration `i` of its variable
/// differently.
pub open spec fn entry_conflict(views: Seq<EntryView>, i: int, j: int) -> bool {
    &&& 0 <= i < j
    &&& entry_is_first(views, i)
    &&& views[i].name == views[j].name
    &&& !same_registration(views[i], views[j])
}

/// Entry `j` conflicts with the first registration of its variable.
pub open spec fn entry_conflicts_at(views: Seq<EntryView>, j: int) -> bool {
    exists|i: int| #[trigger] entry_conflict(views, i, j)
}

/// No entry conflicts with an earlier one.
pub open spec fn entries_consistent(views: Seq<EntryView>) -> bool {
    forall|j: int| 0 <= j < views.len() ==> !#[trigger] entry_conflicts_at(views, j)
}

/// The message that reports a conflict between the crates `first` and
/// `second` over the variable `name`.
pub open spec fn entry_conflict_message(name: Seq<char>, first: Seq<char>, second: Seq<char>) -> Seq<
    char,
> {
    "conflicting registrations for environment variable '"@ + name + "': registered by '"@ + first
        + "' and '"@ + second + "' with different configurations"@
}

/// Two crates registered the same variable with different configurations.
pub struct EntryConflict {
    pub name: &'static str,
    pub first_crate: &'static str,
    pub second_crate: &'static str,
}

impl EntryConflict {
    /// The message that reports the conflict.
    pub fn message(&self) -> (r: String)
        ensures
            r@ == entry_conflict_message(self.name@, self.first_crate@, self.second_crate@),
    {
        let mut m = owned("conflicting registrations for environment variable '");
        push_str(&mut m, self.name);
        push_str(&mut m, "': registered by '");
        push_str(&mut m, self.first_crate);
        push_str(&mut m, "' and '");
        push_str(&mut m, self.second_crate);
        push_str(&mut m, "' with different configurations");
        m
    }
}

/// The index of the first entry with the name of entry `j`.
fn first_entry_with_name<I>(entries: &[ItemEntry<I>], j: usize) -> (i: usize)
    requires
        j < entries@.len(),
    ensures
        i <= j,
        entries_view(entries@)[i as int].name == entries_view(entries@)[j as int].name,
        entry_is_first(entries_view(entries@), i as int),
{
    let ghost views = entries_view(entries@);
    let mut i: usize = 0;
    while i < j && !str_eq(entries[i].name, entries[j].name)
        invariant
            i <= j,
            j < entries@.len(),
            views == entries_view(entries@),
            forall|k: int| 0 <= k < i ==> #[trigger] views[k].name != views[j as int].name,
        decreases j - i,
    {
        i = i + 1;
    }
    i
}

/// Whether entry `j` is the first registration of its variable.
pub fn first_entry<I>(entries: &[ItemEntry<I>], j: usize) -> (r: bool)
    requires
        j < entries@.len(),
    ensures
        r == entry_is_first(entries_view(entries@), j as int),
{
    let i = first_entry_with_name(entries, j);
    assert(i < j ==> !entry_is_first(entries_view(entries@), j as int));
    i == j
}

/// Checks that every variable registered more than once is registered with
/// the same type name, description and default representation each time.
/// The first entry that differs from the first registration of its
/// variable is reported, with the crates of both registrations.
pub fn check_consistency<I>(entries: &[ItemEntry<I>]) -> (r: Result<(), EntryConflict>)
    ensures
        r is Ok <==> entries_consistent(entries_view(entries@)),
        r matches Err(e) ==> exists|i: int, j: int|
            #[trigger] entry_conflict(entries_view(entries@), i, j) && j < entries@.len() && (forall|
                k: int,
            | 0 <= k < j ==> !#[trigger] entry_conflicts_at(entries_view(entries@), k)) && e.name@
                == entries_view(entries@)[j].name && e.first_crate@ == entries_view(entries@)[i].crate_name
                && e.second_crate@ == entries_view(entries@)[j].crate_name,
{
    let ghost views = entries_view(entries@);
    let n = entries.len();
    let mut j: usize = 0;
    while j < n
        invariant
            n == entries@.len(),
            views == entries_view(entries@),
            j <= n,
            forall|k: int| 0 <= k < j ==> !#[trigger] entry_conflicts_at(views, k),
        decreases n - j,
    {
        let i = first_entry_with_name(entries, j);
        let prev = &entries[i];
        let entry = &entries[j];
        if i < j && !(str_eq(prev.value_type, entry.value_type) && str_eq(
            prev.description,
            entry.description,
        ) && str_eq(prev.default_repr, entry.default_repr)) {
            assert(entry_conflict(views, i as int, j as int));
            assert(entry_conflicts_at(views, j as int));
            return Err(
                EntryConflict {
                    name: entry.name,
                    first_crate: prev.crate_name,
                    second_crate: entry.crate_name,
                },
            );
        }
        assert(!entry_conflicts_at(views, j as int)) by {
            if entry_conflicts_at(views, j as int) {
                let i2 = choose|i2: int| #[trigger] entry_conflict(views, i2, j as int);
                if i2 < i {
                    assert(views[i2].name != views[i as int].name);
                } else if i < i2 {
                    assert(views[i as int].name != views[i2].name);
                }
            }
        }
        j = j + 1;
    }
    Ok(())
}

/// The errors among a sequence of initialization results, in order.
pub open spec fn init_errors(results: Seq<Result<(), ParseError>>) -> Seq<ParseError>
    decreases results.len(),
{
    if results.len() == 0 {
        Seq::empty()
    } else {
        let rest = init_errors(results.drop_last());
        match results.last() {
            Ok(_) => rest,
            Err(e) => rest.push(e),
        }
    }
}

/// Every initialization function accepts every input.
pub open spec fn inits_callable<I: Fn(Option<&str>) -> Result<(), ParseError>>(
    entries: Seq<ItemEntry<I>>,
) -> bool {
    forall|i: int, v: Option<&str>|
        0 <= i < entries.len() ==> #[trigger] entries[i].init.requires((v,))
}

/// Eagerly initializes (and so caches) every registered variable from the
/// environment: the first registration of each variable is initialized,
/// and every failure is collected in registration order.
pub fn validate_all<I: Fn(Option<&str>) -> Result<(), ParseError>>(entries: &[ItemEntry<I>]) -> (r:
    Result<(), ValidationErrors>)
    requires
        entries_consistent(entries_view(entries@)),
        inits_callable(entries@),
    ensures
        exists|results: Seq<Result<(), ParseError>>|
            {
                &&& results.len() == entries@.len()
                &&& forall|j: int|
                    0 <= j < entries@.len() ==> if entry_is_first(entries_view(entries@), j) {
                        call_ensures(entries@[j].init, (None::<&str>,), #[trigger] results[j])
                    } else {
                        results[j] is Ok
                    }
                &&& if init_errors(results).len() == 0 {
                    r is Ok
                } else {
                    r matches Err(ve) && ve.errors@ == init_errors(results)
                }
            },
{
    let ghost views = entries_view(entries@);
    let ghost mut results: Seq<Result<(), ParseError>> = Seq::empty();
    let mut errors: Vec<ParseError> = Vec::new();
    let n = entries.len();
    let mut j: usize = 0;
    while j < n
        invariant
            n == entries@.len(),
            views == entries_view(entries@),
            inits_callable(entries@),
            j <= n,
            results.len() == j,
            forall|k: int|
                0 <= k < j ==> if entry_is_first(views, k) {
                    call_ensures(entries@[k].init, (None::<&str>,), #[trigger] results[k])
                } else {
                    results[k] is Ok
                },
            errors@ == init_errors(results),
        decreases n - j,
    {
        let entry = &entries[j];
        let result = if first_entry(entries, j) {
            assert(entries@[j as int].init.requires((None::<&str>,)));
            (entry.init)(None)
        } else {
            Ok(())
        };
        let ghost old_results = results;
        proof {
            results = results.push(result);
            assert(results.drop_last() == old_results);
            assert forall|k: int| 0 <= k < j + 1 implies if entry_is_first(views, k) {
                call_ensures(entries@[k].init, (None::<&str>,), #[trigger] results[k])
            } else {
                results[k] is Ok
            } by {
                if k < j {
                    assert(results[k] == old_results[k]);
                }
            }
        }
        match result {
            Ok(()) => {},
            Err(e) => {
                errors.push(e);
            },
        }
        j = j + 1;
    }
    if errors.len() == 0 {
        Ok(())
    } else {
        Err(ValidationErrors { errors })
    }
}

/// The argument planned for entry `source`: the default representation
/// is always the default value, and a non-empty description is the help
/// text, trimmed.
pub open spec fn spec_entry_arg(entry: EntryView, source: int) -> ArgSpecView {
    ArgSpecView {
        id: entry.name,
        long: spec_long_flag(entry.name),
        default_value: Some(entry.default_repr),
        help: if entry.description.len() > 0 {
            Some(trim(entry.description))
        } else {
            None
        },
        possible_values: None,
        source,
    }
}

/// `specs` is the plan for `views`: one argument per registered variable,
/// planned from its first entry, sorted by id.
pub open spec fn entry_plans(views: Seq<EntryView>, specs: Seq<ArgSpecView>) -> bool {
    &&& sorted_by_id(specs)
    &&& forall|k: int|
        0 <= k < specs.len() ==> {
            &&& 0 <= #[trigger] specs[k].source < views.len()
            &&& entry_is_first(views, specs[k].source)
            &&& specs[k] == spec_entry_arg(views[specs[k].source], specs[k].source)
        }
    &&& forall|j: int|
        0 <= j < views.len() && entry_is_first(views, j) ==> exists|k: int|
            0 <= k < specs.len() && #[trigger] specs[k].source == j
}

/// The plan of the argument for one entry.
fn plan_entry<I>(entry: &ItemEntry<I>, source: usize) -> (r: ArgSpec)
    ensures
        r@ == spec_entry_arg(entry@, source as int),
{
    let long = long_flag(entry.name);
    let help = if entry.description.is_empty() {
        None
    } else {
        Some(trim_str(entry.description))
    };
    ArgSpec::planned(entry.name, long, Some(owned(entry.default_repr)), help, source)
}

/// An earlier entry with the name of `j` means the plan holds an argument
/// with that id.
proof fn lemma_first_entry_has_plan(views: Seq<EntryView>, specs: Seq<ArgSpecView>, i: int, j: int)
    requires
        0 <= i < j < views.len(),
        views[i].name == views[j].name,
        forall|i2: int| 0 <= i2 < j && entry_is_first(views, i2) ==> exists|k: int|
            0 <= k < specs.len() && #[trigger] specs[k].source == i2,
        forall|k: int|
            0 <= k < specs.len() ==> (0 <= #[trigger] specs[k].source < j && specs[k]
                == spec_entry_arg(views[specs[k].source], specs[k].source)),
    ensures
        exists|k: int| 0 <= k < specs.len() && #[trigger] specs[k].id == views[j].name,
    decreases i,
{
    if entry_is_first(views, i) {
        let k = choose|k: int| 0 <= k < specs.len() && #[trigger] specs[k].source == i;
        assert(specs[k].id == views[i].name);
    } else {
        let i2 = choose|i2: int| 0 <= i2 < i && #[trigger] views[i2].name == views[i].name;
        lemma_first_entry_has_plan(views, specs, i2, j);
    }
}

/// Plans one argument per registered variable, from its first entry: the
/// id and environment variable are the name, the long flag is the name
/// lowercased with `-` for `_`, the default value is the default
/// representation and a non-empty description is the help text, trimmed.
/// The plan is sorted by id.
pub fn entry_arg_specs<I>(entries: &[ItemEntry<I>]) -> (r: Vec<ArgSpec>)
    ensures
        entry_plans(entries_view(entries@), specs_view(r@)),
{
    let ghost views = entries_view(entries@);
    let mut specs: Vec<ArgSpec> = Vec::new();
    let n = entries.len();
    let mut j: usize = 0;
    while j < n
        invariant
            n == entries@.len(),
            views == entries_view(entries@),
            j <= n,
            sorted_by_id(specs_view(specs@)),
            forall|k: int|
                0 <= k < specs@.len() ==> {
                    &&& 0 <= #[trigger] specs_view(specs@)[k].source < j
                    &&& entry_is_first(views, specs_view(specs@)[k].source)
                    &&& specs_view(specs@)[k] == spec_entry_arg(
                        views[specs_view(specs@)[k].source],
                        specs_view(specs@)[k].source,
                    )
                },
            forall|i: int|
                0 <= i < j && entry_is_first(views, i) ==> exists|k: int|
                    0 <= k < specs@.len() && #[trigger] specs_view(specs@)[k].source == i,
        decreases n - j,
    {
        let ghost sv = specs_view(specs@);
        let entry = &entries[j];
        assert(views[j as int] == entry@);
        let dup = has_id(&specs, entry.name);
        if !dup {
            assert(entry_is_first(views, j as int)) by {
                assert forall|i: int| 0 <= i < j implies #[trigger] views[i].name != views[j as int].name by {
                    if views[i].name == views[j as int].name {
                        lemma_first_entry_has_plan(views, sv, i, j as int);
                    }
                }
            }
            let spec = plan_entry(entry, j);
            let ghost sview = spec@;
            let p = insert_sorted(&mut specs, spec);
            proof {
                let new_specs = specs_view(specs@);
                sv.insert_ensures(p as int, sview);
                assert(new_specs == sv.insert(p as int, sview));
                assert forall|i: int| 0 <= i < j + 1 && entry_is_first(views, i) implies exists|k: int|
                    0 <= k < specs@.len() && #[trigger] specs_view(specs@)[k].source == i by {
                    if i == j {
                        assert(new_specs[p as int].source == i);
                    } else {
                        let k = choose|k: int| 0 <= k < sv.len() && #[trigger] sv[k].source == i;
                        if k < p {
                            assert(new_specs[k] == sv[k]);
                        } else {
                            assert(new_specs[k + 1] == sv[k]);
                        }
                    }
                }
                assert forall|k: int| 0 <= k < specs@.len() implies {
                    &&& 0 <= #[trigger] specs_view(specs@)[k].source < j + 1
                    &&& entry_is_first(views, specs_view(specs@)[k].source)
                    &&& specs_view(specs@)[k] == spec_entry_arg(
                        views[specs_view(specs@)[k].source],
                        specs_view(specs@)[k].source,
                    )
                } by {
                    if k < p {
                        assert(new_specs[k] == sv[k]);
                    } else if k > p {
                        assert(new_specs[k] == sv[k - 1]);
                    }
                }
            }
        } else {
            proof {
                assert forall|i: int| 0 <= i < j + 1 && entry_is_first(views, i) implies exists|k: int|
                    0 <= k < specs@.len() && #[trigger] specs_view(specs@)[k].source == i by {
                    if i == j {
                        let k2 = choose|k2: int| 0 <= k2 < sv.len() && #[trigger] sv[k2].id == views[j as int].name;
                        let i2 = sv[k2].source;
                        assert(views[i2].name == views[j as int].name);
                    }
                }
            }
        }
        j = j + 1;
    }
    specs
}

/// Builds a `clap` argument for each registered variable, in the order and
/// with the settings that [`entry_arg_specs`] plans: id, long flag,
/// environment variable, default value and help text. Entries must be
/// consistent.
pub fn args<I>(entries: &[ItemEntry<I>]) -> (r: Vec<clap::Arg>)
    requires
        entries_consistent(entries_view(entries@)),
    ensures
        exists|specs: Seq<ArgSpecView>|
            {
                &&& entry_plans(entries_view(entries@), specs)
                &&& r@.len() == specs.len()
                &&& forall|k: int| 0 <= k < specs.len() ==> arg_settings(#[trigger] r@[k]) == plain_arg_settings(specs[k])
            },
{
    let specs = entry_arg_specs(entries);
    let ghost planned = specs_view(specs@);
    let mut result: Vec<clap::Arg> = Vec::new();
    let n = specs.len();
    let mut k: usize = 0;
    while k < n
        invariant
            n == specs@.len(),
            k <= n,
            result@.len() == k,
            planned == specs_view(specs@),
            forall|i: int| 0 <= i < k ==> arg_settings(#[trigger] result@[i]) == plain_arg_settings(planned[i]),
        decreases n - k,
    {
        assert(planned[k as int] == specs@[k as int]@);
        result.push(build_plain_arg(&specs[k]));
        k = k + 1;
    }
    result
}

/// The message with which a value rejected on the command line is reported.
pub open spec fn rejection_message(e: ParseErrorView) -> Seq<char> {
    parse_error_text(e) + "\n"@
}

/// The matched value that initializes entry `j`: only a first entry whose
/// name is a string argument of the matches is initialized, and only with
/// a value that did not come from the argument's default.
pub open spec fn match_input(m: clap::ArgMatches, views: Seq<EntryView>, j: int) -> Option<Seq<char>> {
    let name = views[j].name;
    if !entry_is_first(views, j) {
        None
    } else if !string_arg_ids(m).contains(name) {
        None
    } else if arg_origins(m).contains_key(name) && arg_origins(m)[name] == origin_code(
        ValueOrigin::DefaultValue,
    ) {
        None
    } else if arg_values(m).contains_key(name) {
        Some(arg_values(m)[name])
    } else {
        None
    }
}

/// `r` is a possible result of initializing `entry` with the override
/// value `input`.
pub open spec fn initialized_with<I: Fn(Option<&str>) -> Result<(), ParseError>>(
    entry: ItemEntry<I>,
    input: Seq<char>,
    r: Result<(), ParseError>,
) -> bool {
    exists|s: &str| s@ == input && #[trigger] call_ensures(entry.init, (Some(s),), r)
}

/// Initializing `entry` with the override value `input` may succeed.
pub open spec fn accepted_with<I: Fn(Option<&str>) -> Result<(), ParseError>>(
    entry: ItemEntry<I>,
    input: Seq<char>,
) -> bool {
    exists|r: Result<(), ParseError>| r is Ok && #[trigger] initialized_with(entry, input, r)
}

/// Entries before `j` that had a matched value were initialized with it
/// successfully.
pub open spec fn matched_prefix_accepted<I: Fn(Option<&str>) -> Result<(), ParseError>>(
    m: clap::ArgMatches,
    entries: Seq<ItemEntry<I>>,
    j: int,
) -> bool {
    forall|k: int|
        0 <= k < j ==> (#[trigger] match_input(m, entries_view(entries), k) matches Some(v)
            ==> accepted_with(entries[k], v))
}

/// What applying matches to entries may return: success when every entry
/// with a matched value accepted it; otherwise the rejection of the first
/// entry that refused its value.
pub open spec fn matches_outcome<I: Fn(Option<&str>) -> Result<(), ParseError>>(
    m: clap::ArgMatches,
    entries: Seq<ItemEntry<I>>,
    r: Result<(), MatchError>,
) -> bool {
    match r {
        Ok(()) => matched_prefix_accepted(m, entries, entries.len() as int),
        Err(e) => exists|j: int, pe: ParseError|
            0 <= j < entries.len() && matched_prefix_accepted(m, entries, j) && #[trigger] rejected_at(
                m,
                entries,
                j,
                pe,
            ) && e.spec_message() == rejection_message(pe@),
    }
}

/// Entry `j` had a matched value and its initialization rejected it with
/// `pe`.
pub open spec fn rejected_at<I: Fn(Option<&str>) -> Result<(), ParseError>>(
    m: clap::ArgMatches,
    entries: Seq<ItemEntry<I>>,
    j: int,
    pe: ParseError,
) -> bool {
    match_input(m, entries_view(entries), j) matches Some(v) && initialized_with(entries[j], v, Err(pe))
}

/// Initializes every registered variable from parsed `clap` matches: the
/// first entry of each variable whose argument is known to the matches and
/// whose value did not come from the argument's default is initialized
/// with its value (the default's text may not parse back, and the typed
/// default is used lazily instead). The first rejection stops the walk and
/// is reported.
pub fn apply_matches<I: Fn(Option<&str>) -> Result<(), ParseError>>(
    matches: &clap::ArgMatches,
    entries: &[ItemEntry<I>],
) -> (r: Result<(), MatchError>)
    requires
        inits_callable(entries@),
    ensures
        matches_outcome(*matches, entries@, r),
{
    let ghost views = entries_view(entries@);
    let n = entries.len();
    let mut j: usize = 0;
    while j < n
        invariant
            n == entries@.len(),
            j <= n,
            views == entries_view(entries@),
            inits_callable(entries@),
            matched_prefix_accepted(*matches, entries@, j as int),
        decreases n - j,
    {
        let entry = &entries[j];
        assert(views[j as int] == entry@);
        let ghost input = match_input(*matches, views, j as int);
        if first_entry(entries, j) && crate::cli::arg_defined(matches, entry.name) {
            let origin = arg_origin(matches, entry.name);
            let skip = match origin {
                Some(ValueOrigin::DefaultValue) => true,
                _ => false,
            };
            if !skip {
                if let Some(value) = arg_string(matches, entry.name) {
                    let text = value.as_str();
                    let v: Option<&str> = Some(text);
                    assert(entries@[j as int].init.requires((v,)));
                    let res = (entry.init)(v);
                    assert(input == Some(text@));
                    assert(initialized_with(entries@[j as int], text@, res));
                    match res {
                        Ok(()) => {
                            assert(res is Ok);
                            assert(accepted_with(entries@[j as int], text@));
                            assert(input matches Some(v) ==> accepted_with(entries@[j as int], v));
                        },
                        Err(e) => {
                            let mut message = e.to_string();
                            crate::text::push_str(&mut message, "\n");
                            assert(initialized_with(entries@[j as int], text@, Err::<(), ParseError>(e)));
                            assert(rejected_at(*matches, entries@, j as int, e));
                            return Err(MatchError::new(message));
                        },
                    }
                } else {
                    assert(input is None);
                }
            } else {
                assert(input is None);
            }
        } else {
            assert(input is None);
        }
        assert(input matches Some(v) ==> accepted_with(entries@[j as int], v));
        assert(matched_prefix_accepted(*matches, entries@, j + 1)) by {
            assert forall|k: int| 0 <= k < j + 1 implies (#[trigger] match_input(*matches, entries_view(entries@), k) matches Some(v)
                ==> accepted_with(entries@[k], v)) by {
                if k == j {
                    assert(match_input(*matches, entries_view(entries@), k) == input);
                }
            }
        }
        j = j + 1;
    }
    Ok(())
}

/// Like [`apply_matches`]; `cmd` is the command whose usage formats the
/// error.
pub fn apply_matches_for<I: Fn(Option<&str>) -> Result<(), ParseError>>(
    cmd: &mut clap::Command,
    matches: &clap::ArgMatches,
    entries: &[ItemEntry<I>],
) -> (r: Result<(), MatchError>)
    requires
        inits_callable(entries@),
    ensures
        matches_outcome(*matches, entries@, r),
{
    apply_matches(matches, entries)
}

/// An override value decides initialization on its own: the environment
/// plays no part.
pub proof fn law_override_ignores_environment<T, P: Fn(&str) -> Result<T, String>, D: Fn() -> T>(
    before: Item<T, P, D>,
    after: Item<T, P, D>,
    v: Seq<char>,
    env1: Map<Seq<char>, Seq<u8>>,
    env2: Map<Seq<char>, Seq<u8>>,
    r: Result<(), ParseError>,
)
    ensures
        init_outcome(before, after, Some(v), env1, r) == init_outcome(before, after, Some(v), env2, r),
{
}

/// Once an item holds a value, initializing it again keeps that value.
pub proof fn law_initialized_value_is_final<T, P: Fn(&str) -> Result<T, String>, D: Fn() -> T>(
    before: Item<T, P, D>,
    after: Item<T, P, D>,
    override_value: Option<Seq<char>>,
    env: Map<Seq<char>, Seq<u8>>,
    r: Result<(), ParseError>,
)
    requires
        before.cached() is Some,
        init_outcome(before, after, override_value, env, r),
    ensures
        after.cached() == before.cached(),
{
}

/// A rejected initialization leaves the cache as it was.
pub proof fn law_rejected_initialization_keeps_cache<T, P: Fn(&str) -> Result<T, String>, D: Fn() -> T>(
    before: Item<T, P, D>,
    after: Item<T, P, D>,
    override_value: Option<Seq<char>>,
    env: Map<Seq<char>, Seq<u8>>,
    r: Result<(), ParseError>,
)
    requires
        r is Err,
        init_outcome(before, after, override_value, env, r),
    ensures
        after.cached() == before.cached(),
{
}

/// Every entry has a first entry of its variable at or before it.
pub proof fn lemma_first_entry_exists(views: Seq<EntryView>, j: int)
    requires
        0 <= j < views.len(),
    ensures
        exists|i: int| 0 <= i <= j && entry_is_first(views, i) && #[trigger] views[i].name == views[j].name,
    decreases j,
{
    if entry_is_first(views, j) {
        assert(views[j].name == views[j].name);
    } else {
        let i = choose|i: int| 0 <= i < j && #[trigger] views[i].name == views[j].name;
        lemma_first_entry_exists(views, i);
        let i2 = choose|i2: int| 0 <= i2 <= i && entry_is_first(views, i2) && #[trigger] views[i2].name
            == views[i].name;
        assert(views[i2].name == views[j].name);
    }
}

/// The ids of a plan are the names of the entries.
proof fn lemma_entry_plan_ids(views: Seq<EntryView>, specs: Seq<ArgSpecView>, x: Seq<char>)
    requires
        entry_plans(views, specs),
    ensures
        crate::cli::plan_ids(specs).contains(x) <==> exists|j: int| 0 <= j < views.len() && #[trigger] views[j].name == x,
{
    let ids = crate::cli::plan_ids(specs);
    if ids.contains(x) {
        let k = choose|k: int| 0 <= k < ids.len() && ids[k] == x;
        assert(specs[k].source >= 0);
        assert(views[specs[k].source].name == x);
    }
    if exists|j: int| 0 <= j < views.len() && #[trigger] views[j].name == x {
        let j = choose|j: int| 0 <= j < views.len() && #[trigger] views[j].name == x;
        lemma_first_entry_exists(views, j);
        let i = choose|i: int| 0 <= i <= j && entry_is_first(views, i) && #[trigger] views[i].name == views[j].name;
        let k = choose|k: int| 0 <= k < specs.len() && #[trigger] specs[k].source == i;
        assert(ids[k] == x);
    }
}

/// The command-line plan for entries is determined by the entries: two
/// plans for the same entries are equal, so every registered variable has
/// exactly one argument.
pub proof fn law_entry_plan_is_determined(views: Seq<EntryView>, s1: Seq<ArgSpecView>, s2: Seq<ArgSpecView>)
    requires
        entry_plans(views, s1),
        entry_plans(views, s2),
    ensures
        s1 == s2,
{
    let a = crate::cli::plan_ids(s1);
    let b = crate::cli::plan_ids(s2);
    assert forall|x: Seq<char>| a.contains(x) <==> b.contains(x) by {
        lemma_entry_plan_ids(views, s1, x);
        lemma_entry_plan_ids(views, s2, x);
    }
    assert forall|i: int, j: int| 0 <= i < j < a.len() implies crate::text::key_less(#[trigger] a[i], #[trigger] a[j]) by {
        assert(crate::text::key_less(s1[i].id, s1[j].id));
    }
    assert forall|i: int, j: int| 0 <= i < j < b.len() implies crate::text::key_less(#[trigger] b[i], #[trigger] b[j]) by {
        assert(crate::text::key_less(s2[i].id, s2[j].id));
    }
    crate::cli::lemma_sorted_ids_unique(a, b);
    assert forall|k: int| 0 <= k < s1.len() implies s1[k] == s2[k] by {
        assert(a[k] == b[k]);
        let i1 = s1[k].source;
        let i2 = s2[k].source;
        assert(views[i1].name == views[i2].name);
        if i1 < i2 {
            assert(views[i1].name != views[i2].name);
        } else if i2 < i1 {
            assert(views[i2].name != views[i1].name);
        }
    }
    assert(s1 =~= s2);
}

/// A first entry whose argument is known to the matches and has a value
/// that did not come from the argument's default (it came from the command
/// line or from the environment) is initialized with that value; only a
/// value from the default is skipped.
pub proof fn law_matched_value_initializes(m: clap::ArgMatches, views: Seq<EntryView>, j: int)
    requires
        0 <= j < views.len(),
        entry_is_first(views, j),
        string_arg_ids(m).contains(views[j].name),
        arg_values(m).contains_key(views[j].name),
    ensures
        !(arg_origins(m).contains_key(views[j].name) && arg_origins(m)[views[j].name] == origin_code(
            ValueOrigin::DefaultValue,
        )) ==> match_input(m, views, j) == Some(arg_values(m)[views[j].name]),
        arg_origins(m).contains_key(views[j].name) && arg_origins(m)[views[j].name] == origin_code(
            ValueOrigin::EnvVariable,
        ) ==> match_input(m, views, j) == Some(arg_values(m)[views[j].name]),
        arg_origins(m).contains_key(views[j].name) && arg_origins(m)[views[j].name] == origin_code(
            ValueOrigin::DefaultValue,
        ) ==> match_input(m, views, j) is None,
{
}

/// Entries of one variable that give it a different type name, description
/// or default representation than its first entry conflict, so the entries
/// are not consistent.
pub proof fn law_differing_entries_conflict(views: Seq<EntryView>, i: int, j: int)
    requires
        0 <= i < j < views.len(),
        entry_is_first(views, i),
        views[i].name == views[j].name,
        views[i].value_type != views[j].value_type || views[i].description != views[j].description
            || views[i].default_repr != views[j].default_repr,
    ensures
        entry_conflicts_at(views, j),
        !entries_consistent(views),
{
    assert(entry_conflict(views, i, j));
    assert(entry_conflicts_at(views, j));
}

/// What a failure is, for one initialization result.
pub open spec fn init_failure(r: Result<(), ParseError>) -> Option<ParseError> {
    match r {
        Ok(()) => None,
        Err(e) => Some(e),
    }
}

/// The errors collected from initialization results are exactly the
/// failures, each once, in the order of the results.
pub proof fn law_init_errors_are_all_failures_in_order(results: Seq<Result<(), ParseError>>)
    ensures
        init_errors(results) == results.filter_map(|r: Result<(), ParseError>| init_failure(r)),
    decreases results.len(),
{
    if results.len() > 0 {
        law_init_errors_are_all_failures_in_order(results.drop_last());
        let rest = results.drop_last().filter_map(|r: Result<(), ParseError>| init_failure(r));
        match results.last() {
            Ok(()) => {},
            Err(e) => {
                assert(init_errors(results) =~= rest + seq![e]);
            },
        }
    }
}

} // verus!
