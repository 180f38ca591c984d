//! Typed environment variables that are resolved once and then cached,
//! and the small parsers that feed them.
use std::fmt::Display;
use std::marker::PhantomData;
use vstd::prelude::*;
use vstd::string::to_string_from_display_ensures;
use vstd::utf8::{decode_utf8, valid_utf8};
use crate::env::Env;
use crate::registry::SetError;
use crate::text::{all_ascii, ascii_lower, lemma_str_chars_from_bytes, lowercase, lossy_utf8, owned, str_eq, to_lowercase, utf8_lossy, utf8_str};

verus! {

/// Turns the error of a parse into its `Display` text, keeping a success as
/// it is. This is what adapting a `FromStr` parser to the
/// `Result<T, String>` shape amounts to once the parser has run.
pub fn describe_parse_result<T, E: Display>(parsed: Result<T, E>) -> (r: Result<T, String>)
    ensures
        match parsed {
            Ok(v) => r == Ok::<T, String>(v),
            Err(e) => r matches Err(m) && to_string_from_display_ensures::<E>(&e, m),
        },
{
    match parsed {
        Ok(v) => Ok(v),
        Err(e) => Err(e.to_string()),
    }
}

/// Like [`describe_parse_result`], with a success wrapped in `Some`: what
/// adapting a `FromStr` parser to an optional variable amounts to once the
/// parser has run.
pub fn describe_parse_some<T, E: Display>(parsed: Result<T, E>) -> (r: Result<Option<T>, String>)
    ensures
        match parsed {
            Ok(v) => r == Ok::<Option<T>, String>(Some(v)),
            Err(e) => r matches Err(m) && to_string_from_display_ensures::<E>(&e, m),
        },
{
    match describe_parse_result(parsed) {
        Ok(v) => Ok(Some(v)),
        Err(m) => Err(m),
    }
}

/// Formats an optional value for display: `Some(v)` becomes
/// `Some(v.to_string())` and `None` stays `None`.
pub fn option_repr<T: Display>(v: Option<T>) -> (r: Option<String>)
    ensures
        match v {
            None => r is None,
            Some(x) => r matches Some(s) && to_string_from_display_ensures::<T>(&x, s),
        },
{
    match v {
        Some(x) => Some(x.to_string()),
        None => None,
    }
}

/// The boolean that a lowercased word spells, if any:
/// `true`, `yes`, `on`, `1` and `false`, `no`, `off`, `0`.
pub open spec fn boolish(lowered: Seq<char>) -> Option<bool> {
    if lowered == "true"@ || lowered == "yes"@ || lowered == "on"@ || lowered == "1"@ {
        Some(true)
    } else if lowered == "false"@ || lowered == "no"@ || lowered == "off"@ || lowered == "0"@ {
        Some(false)
    } else {
        None
    }
}

/// Classifies an already lowercased word as a boolean.
pub fn classify_boolish(lowered: &str) -> (r: Option<bool>)
    ensures
        r == boolish(lowered@),
{
    if str_eq(lowered, "true") || str_eq(lowered, "yes") || str_eq(lowered, "on") || str_eq(
        lowered,
        "1",
    ) {
        Some(true)
    } else if str_eq(lowered, "false") || str_eq(lowered, "no") || str_eq(lowered, "off")
        || str_eq(lowered, "0") {
        Some(false)
    } else {
        None
    }
}

/// The message of a value that is not a boolean.
pub open spec fn not_boolean_message() -> Seq<char> {
    "value was not a boolean"@
}

/// What parsing `s` as a boolean gives: the boolean its lowercase form
/// spells, or the message of a value that is not a boolean.
pub open spec fn boolish_outcome(s: Seq<char>, r: Result<bool, String>) -> bool {
    match boolish(lowercase(s)) {
        Some(b) => r == Ok::<bool, String>(b),
        None => r matches Err(m) && m@ == not_boolean_message(),
    }
}

/// Parsing a boolean ignores case: two spellings with the same lowercase
/// form give the same answer.
pub proof fn law_boolish_ignores_case(a: Seq<char>, b: Seq<char>, ra: Result<bool, String>, rb: Result<bool, String>)
    requires
        lowercase(a) == lowercase(b),
        boolish_outcome(a, ra),
        boolish_outcome(b, rb),
    ensures
        ra is Ok <==> rb is Ok,
        ra is Ok ==> ra == rb,
        ra matches Err(ma) ==> (rb matches Err(mb) && ma@ == mb@),
{
}

/// Parses a boolean from its common spellings, ignoring case:
/// `true`, `false`, `yes`, `no`, `on`, `off`, `1`, `0`.
pub fn parse_boolish(s: &str) -> (r: Result<bool, String>)
    ensures
        boolish_outcome(s@, r),
        all_ascii(s@) ==> lowercase(s@) == s@.map_values(|c: char| ascii_lower(c)),
{
    let lowered = to_lowercase(s);
    match classify_boolish(lowered.as_str()) {
        Some(b) => Ok(b),
        None => Err(owned("value was not a boolean")),
    }
}

/// A single environment variable whose value could not be parsed.
pub struct ParseError {
    name: &'static str,
    value: String,
    message: String,
}

/// The abstract content of a [`ParseError`].
pub struct ParseErrorView {
    pub name: Seq<char>,
    pub value: Seq<char>,
    pub message: Seq<char>,
}

impl View for ParseError {
    type V = ParseErrorView;

    closed spec fn view(&self) -> ParseErrorView {
        ParseErrorView { name: self.name@, value: self.value@, message: self.message@ }
    }
}

impl ParseError {
    /// The message, as an owned string.
    pub closed spec fn message_string(&self) -> String {
        self.message
    }

    /// The name of the variable the parse failed for.
    pub fn name(&self) -> (r: &'static str)
        ensures
            r@ == self@.name,
    {
        self.name
    }

    /// The raw input that the parser rejected.
    pub fn value(&self) -> (r: &str)
        ensures
            r@ == self@.value,
    {
        self.value.as_str()
    }

    /// The parser's error message.
    pub fn message(&self) -> (r: &str)
        ensures
            r@ == self@.message,
    {
        self.message.as_str()
    }

    /// The text shown for the error: its message.
    pub fn to_string(&self) -> (r: String)
        ensures
            r@ == self@.message,
    {
        owned(self.message.as_str())
    }
}

impl From<ParseError> for SetError {
    fn from(e: ParseError) -> (r: SetError) {
        SetError::new(e.message)
    }
}

impl vstd::std_specs::convert::FromSpecImpl<ParseError> for SetError {
    open spec fn obeys_from_spec() -> bool {
        true
    }

    open spec fn from_spec(e: ParseError) -> SetError {
        SetError::from_message(e.message_string())
    }
}

/// Converting a [`ParseError`] into a [`SetError`] keeps its message.
pub proof fn law_conversion_keeps_message(e: ParseError)
    ensures
        <SetError as vstd::std_specs::convert::FromSpec<ParseError>>::from_spec(e).spec_message()
            == e@.message,
{
    SetError::lemma_from_message(e.message_string());
}

/// The message given for input that is not valid Unicode.
pub open spec fn invalid_unicode_message() -> Seq<char> {
    "value contains invalid unicode"@
}

/// What recording the parse `parsed` of `input` does to a variable named
/// `key` whose cache held `before`: a success fills an empty cache (and
/// leaves a full one alone) and is reported as `Ok`; a failure leaves the
/// cache alone and is reported with the key, the input and the text of the
/// parser's error.
pub open spec fn parse_outcome<T, E: Display>(
    before: Option<T>,
    after: Option<T>,
    key: Seq<char>,
    input: Seq<char>,
    parsed: Result<T, E>,
    r: Result<(), ParseError>,
) -> bool {
    match parsed {
        Ok(v) => r is Ok && after == (if before is Some {
            before
        } else {
            Some(v)
        }),
        Err(e) => {
            &&& after == before
            &&& r matches Err(pe) && pe@.name == key && pe@.value == input
                && to_string_from_display_ensures::<E>(&e, pe.message_string())
        },
    }
}

/// A typed environment variable that is resolved once and then cached.
///
/// `P` parses the raw value into a `T` (failing with an `E`), and `D`
/// produces the typed default used when the variable is unset or invalid.
pub struct Var<T, E, P, D> {
    key: &'static str,
    parse: P,
    default: D,
    value: Option<T>,
    error: PhantomData<E>,
}

impl<T, E, P, D> Var<T, E, P, D> {
    /// The name of the environment variable.
    pub closed spec fn spec_key(&self) -> Seq<char> {
        self.key@
    }

    /// The parser.
    pub closed spec fn parser(&self) -> P {
        self.parse
    }

    /// The producer of the typed default.
    pub closed spec fn default_fn(&self) -> D {
        self.default
    }

    /// The cached value, if the variable has been resolved.
    pub closed spec fn cached(&self) -> Option<T> {
        self.value
    }

    /// `self` and `other` read the same variable with the same parser and
    /// default.
    pub open spec fn same_config(&self, other: Self) -> bool {
        &&& self.spec_key() == other.spec_key()
        &&& self.parser() == other.parser()
        &&& self.default_fn() == other.default_fn()
    }

    /// Creates a variable named `key` with an empty cache.
    pub fn new(key: &'static str, parse: P, default: D) -> (r: Self)
        ensures
            r.spec_key() == key@,
            r.parser() == parse,
            r.default_fn() == default,
            r.cached() is None,
    {
        Var { key, parse, default, value: None, error: PhantomData }
    }

    /// Fills the cache with `v` if it is empty; otherwise hands `v` back.
    pub fn set(&mut self, v: T) -> (r: Result<(), T>)
        ensures
            final(self).same_config(*old(self)),
            old(self).cached() is None ==> r is Ok && final(self).cached() == Some(v),
            old(self).cached() is Some ==> r == Err::<(), T>(v) && final(self).cached() == old(
                self,
            ).cached(),
    {
        if self.value.is_none() {
            self.value = Some(v);
            Ok(())
        } else {
            Err(v)
        }
    }

    /// The name of the environment variable this `Var` reads.
    pub fn key(&self) -> (r: &'static str)
        ensures
            r@ == self.spec_key(),
    {
        self.key
    }

    /// The cached value, if the variable has been resolved.
    pub fn get(&self) -> (r: Option<&T>)
        ensures
            match r {
                Some(v) => self.cached() == Some(*v),
                None => self.cached() is None,
            },
    {
        self.value.as_ref()
    }
}

impl<T, E, P: Fn(&str) -> Result<T, E>, D: Fn() -> T> Var<T, E, P, D> {
    /// The parser accepts every input and the default can always be produced.
    pub open spec fn callable(&self) -> bool {
        &&& forall|s: &str| #[trigger] self.parser().requires((s,))
        &&& self.default_fn().requires(())
    }

    /// Evaluates the typed default.
    pub fn default_value(&self) -> (r: T)
        requires
            self.callable(),
        ensures
            call_ensures(self.default_fn(), (), r),
    {
        (self.default)()
    }

    /// The value that resolving the variable against `env` produces, without
    /// touching the cache.
    fn lazy(&self, env: &Env) -> (v: T)
        requires
            self.callable(),
        ensures
            lazy_value(*self, env@, v),
    {
        if let Some(raw) = env.get(self.key) {
            if let Some(text) = utf8_str(raw) {
                proof {
                    lemma_str_chars_from_bytes(text, raw@);
                    assert(self.parser().requires((text,)));
                }
                let parsed = (self.parse)(text);
                assert(call_ensures(self.parser(), (text,), parsed));
                match parsed {
                    Ok(p) => {
                        return p;
                    },
                    Err(_) => {
                        let d = (self.default)();
                        return d;
                    },
                }
            }
        }
        (self.default)()
    }

    /// Returns the cached value, resolving it first if needed: a set
    /// variable that parses gives the parsed value, otherwise the typed
    /// default is used.
    pub fn resolve(&mut self, env: &Env) -> (r: &T)
        requires
            old(self).callable(),
        ensures
            resolve_outcome(*old(self), *final(self), env@),
            final(self).cached() == Some(*r),
    {
        if self.value.is_none() {
            let v = self.lazy(env);
            self.value = Some(v);
        }
        self.value.as_ref().unwrap()
    }
}

/// What parsing the text `input` with the parser of `before` and recording
/// the result leads to, for some outcome of the parser.
pub open spec fn str_outcome<T, E: Display, P: Fn(&str) -> Result<T, E>, D>(
    before: Var<T, E, P, D>,
    after: Var<T, E, P, D>,
    input: Seq<char>,
    r: Result<(), ParseError>,
) -> bool {
    exists|s: &str, parsed: Result<T, E>|
        s@ == input && #[trigger] call_ensures(before.parser(), (s,), parsed) && parse_outcome(
            before.cached(),
            after.cached(),
            before.spec_key(),
            input,
            parsed,
            r,
        )
}

/// What setting a variable from the raw bytes `input` leads to: valid UTF-8
/// is parsed as text; anything else is refused with the lossily decoded
/// input, and the cache is left alone.
pub open spec fn bytes_outcome<T, E: Display, P: Fn(&str) -> Result<T, E>, D>(
    before: Var<T, E, P, D>,
    after: Var<T, E, P, D>,
    input: Seq<u8>,
    r: Result<(), ParseError>,
) -> bool {
    if valid_utf8(input) {
        str_outcome(before, after, decode_utf8(input), r)
    } else {
        &&& after.cached() == before.cached()
        &&& r matches Err(pe) && pe@ == (ParseErrorView {
            name: before.spec_key(),
            value: lossy_utf8(input),
            message: invalid_unicode_message(),
        })
    }
}

/// What setting a variable from an environment leads to: a set variable is
/// parsed from its raw value; an unset one fills an empty cache with the
/// typed default and succeeds.
pub open spec fn env_outcome<T, E: Display, P: Fn(&str) -> Result<T, E>, D: Fn() -> T>(
    before: Var<T, E, P, D>,
    after: Var<T, E, P, D>,
    env: Map<Seq<char>, Seq<u8>>,
    r: Result<(), ParseError>,
) -> bool {
    if env.contains_key(before.spec_key()) {
        bytes_outcome(before, after, env[before.spec_key()], r)
    } else {
        &&& r is Ok
        &&& before.cached() is Some ==> after.cached() == before.cached()
        &&& before.cached() is None ==> exists|d: T|
            #[trigger] call_ensures(before.default_fn(), (), d) && after.cached() == Some(d)
    }
}

/// The value that lazily resolving `var` against `env` may produce: the
/// parsed value when the variable is set to valid Unicode that parses, and
/// the typed default otherwise.
pub open spec fn lazy_value<T, E, P: Fn(&str) -> Result<T, E>, D: Fn() -> T>(
    var: Var<T, E, P, D>,
    env: Map<Seq<char>, Seq<u8>>,
    v: T,
) -> bool {
    let key = var.spec_key();
    if env.contains_key(key) && valid_utf8(env[key]) {
        exists|s: &str, parsed: Result<T, E>|
            s@ == decode_utf8(env[key]) && #[trigger] call_ensures(var.parser(), (s,), parsed) && (
            match parsed {
                Ok(p) => v == p,
                Err(_) => call_ensures(var.default_fn(), (), v),
            })
    } else {
        call_ensures(var.default_fn(), (), v)
    }
}

/// What resolving (dereferencing) a variable does: a cached value is kept;
/// an empty cache is filled with the lazily resolved value.
pub open spec fn resolve_outcome<T, E, P: Fn(&str) -> Result<T, E>, D: Fn() -> T>(
    before: Var<T, E, P, D>,
    after: Var<T, E, P, D>,
    env: Map<Seq<char>, Seq<u8>>,
) -> bool {
    &&& after.same_config(before)
    &&& before.cached() is Some ==> after.cached() == before.cached()
    &&& before.cached() is None ==> (after.cached() matches Some(v) && lazy_value(before, env, v))
}

impl<T, E: Display, P: Fn(&str) -> Result<T, E>, D: Fn() -> T> Var<T, E, P, D> {
    /// Records the result of parsing `s`: a parsed value fills an empty
    /// cache, and a parse failure becomes a [`ParseError`] that carries the
    /// key, the input and the text of the parser's error.
    pub fn record_parse(&mut self, s: &str, parsed: Result<T, E>) -> (r: Result<(), ParseError>)
        ensures
            final(self).same_config(*old(self)),
            parse_outcome(old(self).cached(), final(self).cached(), old(self).spec_key(), s@, parsed, r),
    {
        match parsed {
            Ok(v) => {
                let _ = self.set(v);
                Ok(())
            },
            Err(e) => Err(ParseError { name: self.key, value: owned(s), message: e.to_string() }),
        }
    }

    /// Parses `s` with the registered parser and caches the result. A
    /// successful parse leaves an already filled cache alone.
    pub fn set_from_str(&mut self, s: &str) -> (r: Result<(), ParseError>)
        requires
            old(self).callable(),
        ensures
            final(self).same_config(*old(self)),
            str_outcome(*old(self), *final(self), s@, r),
    {
        let parsed = (self.parse)(s);
        let ghost before = *self;
        let r = self.record_parse(s, parsed);
        assert(call_ensures(before.parser(), (s,), parsed));
        r
    }

    /// Parses the raw bytes of an operating-system string: valid UTF-8 is
    /// handed to [`Self::set_from_str`], anything else is refused.
    pub fn set_from_os_str(&mut self, s: &[u8]) -> (r: Result<(), ParseError>)
        requires
            old(self).callable(),
        ensures
            final(self).same_config(*old(self)),
            bytes_outcome(*old(self), *final(self), s@, r),
    {
        match utf8_str(s) {
            Some(text) => {
                proof {
                    lemma_str_chars_from_bytes(text, s@);
                }
                self.set_from_str(text)
            },
            None => Err(
                ParseError {
                    name: self.key,
                    value: utf8_lossy(s),
                    message: owned("value contains invalid unicode"),
                },
            ),
        }
    }

    /// Reads the variable from `env`: a set variable goes through
    /// [`Self::set_from_os_str`]; an unset one caches the typed default.
    pub fn set_from_env(&mut self, env: &Env) -> (r: Result<(), ParseError>)
        requires
            old(self).callable(),
        ensures
            final(self).same_config(*old(self)),
            env_outcome(*old(self), *final(self), env@, r),
    {
        match env.get(self.key) {
            Some(v) => self.set_from_os_str(v),
            None => {
                let d = (self.default)();
                let _ = self.set(d);
                Ok(())
            },
        }
    }


}

/// Once a variable holds a value, nothing changes it: neither parsing a
/// string, nor parsing raw bytes, nor reading the environment, nor
/// resolving.
pub proof fn law_cached_value_is_final<T, E: Display, P: Fn(&str) -> Result<T, E>, D: Fn() -> T>(
    before: Var<T, E, P, D>,
    after: Var<T, E, P, D>,
    text: Seq<char>,
    bytes: Seq<u8>,
    env: Map<Seq<char>, Seq<u8>>,
    r: Result<(), ParseError>,
)
    requires
        before.cached() is Some,
    ensures
        str_outcome(before, after, text, r) ==> after.cached() == before.cached(),
        bytes_outcome(before, after, bytes, r) ==> after.cached() == before.cached(),
        env_outcome(before, after, env, r) ==> after.cached() == before.cached(),
        resolve_outcome(before, after, env) ==> after.cached() == before.cached(),
{
}

/// A rejected value leaves the cache as it was, whatever it held.
pub proof fn law_rejection_keeps_cache<T, E: Display, P: Fn(&str) -> Result<T, E>, D: Fn() -> T>(
    before: Var<T, E, P, D>,
    after: Var<T, E, P, D>,
    text: Seq<char>,
    bytes: Seq<u8>,
    env: Map<Seq<char>, Seq<u8>>,
    r: Result<(), ParseError>,
)
    requires
        r is Err,
    ensures
        str_outcome(before, after, text, r) ==> after.cached() == before.cached(),
        bytes_outcome(before, after, bytes, r) ==> after.cached() == before.cached(),
        env_outcome(before, after, env, r) ==> after.cached() == before.cached(),
{
}

/// Resolving is stable: after one resolution the variable holds a value,
/// and resolving again (against any environment) keeps it.
pub proof fn law_resolve_is_stable<T, E, P: Fn(&str) -> Result<T, E>, D: Fn() -> T>(
    a: Var<T, E, P, D>,
    b: Var<T, E, P, D>,
    c: Var<T, E, P, D>,
    env1: Map<Seq<char>, Seq<u8>>,
    env2: Map<Seq<char>, Seq<u8>>,
)
    requires
        resolve_outcome(a, b, env1),
        resolve_outcome(b, c, env2),
    ensures
        b.cached() is Some,
        c.cached() == b.cached(),
{
}

/// A successful validation of a fresh variable fixes what dereferencing
/// returns: the value the parser produced for the validated text.
pub proof fn law_validated_value_is_served<T, E: Display, P: Fn(&str) -> Result<T, E>, D: Fn() -> T>(
    fresh: Var<T, E, P, D>,
    validated: Var<T, E, P, D>,
    resolved: Var<T, E, P, D>,
    text: Seq<char>,
    env: Map<Seq<char>, Seq<u8>>,
)
    requires
        fresh.cached() is None,
        str_outcome(fresh, validated, text, Ok(())),
        validated.same_config(fresh),
        resolve_outcome(validated, resolved, env),
    ensures
        resolved.cached() == validated.cached(),
        exists|s: &str, v: T|
            s@ == text && #[trigger] call_ensures(fresh.parser(), (s,), Ok::<T, E>(v))
                && resolved.cached() == Some(v),
{
    let (s, parsed) = choose|s: &str, parsed: Result<T, E>|
        s@ == text && #[trigger] call_ensures(fresh.parser(), (s,), parsed) && parse_outcome(
            fresh.cached(),
            validated.cached(),
            fresh.spec_key(),
            text,
            parsed,
            Ok(()),
        );
    match parsed {
        Ok(v) => {
            assert(call_ensures(fresh.parser(), (s,), Ok::<T, E>(v)));
        },
        Err(_) => {},
    }
}

/// A variable whose value is not Unicode, or that the parser rejects,
/// resolves to its typed default.
pub proof fn law_unparsable_resolves_to_default<T, E, P: Fn(&str) -> Result<T, E>, D: Fn() -> T>(
    before: Var<T, E, P, D>,
    after: Var<T, E, P, D>,
    env: Map<Seq<char>, Seq<u8>>,
)
    requires
        before.cached() is None,
        env.contains_key(before.spec_key()),
        !valid_utf8(env[before.spec_key()]) || forall|s: &str, parsed: Result<T, E>|
            s@ == decode_utf8(env[before.spec_key()]) && #[trigger] call_ensures(before.parser(), (s,), parsed)
                ==> parsed is Err,
        resolve_outcome(before, after, env),
    ensures
        after.cached() matches Some(v) && call_ensures(before.default_fn(), (), v),
{
    let key = before.spec_key();
    if valid_utf8(env[key]) {
        let v = after.cached()->0;
        let (s, parsed) = choose|s: &str, parsed: Result<T, E>|
            s@ == decode_utf8(env[key]) && #[trigger] call_ensures(before.parser(), (s,), parsed) && (
            match parsed {
                Ok(p) => v == p,
                Err(_) => call_ensures(before.default_fn(), (), v),
            });
        assert(parsed is Err);
    }
}

/// An unset variable resolves to its typed default.
pub proof fn law_unset_resolves_to_default<T, E, P: Fn(&str) -> Result<T, E>, D: Fn() -> T>(
    before: Var<T, E, P, D>,
    after: Var<T, E, P, D>,
    env: Map<Seq<char>, Seq<u8>>,
)
    requires
        before.cached() is None,
        !env.contains_key(before.spec_key()),
        resolve_outcome(before, after, env),
    ensures
        after.cached() matches Some(v) && call_ensures(before.default_fn(), (), v),
{
}

/// Reading a set variable from the environment is setting it from its raw
/// value: [`Var::set_from_env`] may return and leave exactly what
/// [`Var::set_from_os_str`] on the variable's bytes may.
pub proof fn law_env_read_is_raw_set<T, E: Display, P: Fn(&str) -> Result<T, E>, D: Fn() -> T>(
    before: Var<T, E, P, D>,
    after: Var<T, E, P, D>,
    env: Map<Seq<char>, Seq<u8>>,
    r: Result<(), ParseError>,
)
    requires
        env.contains_key(before.spec_key()),
    ensures
        env_outcome(before, after, env, r) <==> bytes_outcome(before, after, env[before.spec_key()], r),
{
}

} // verus!
