//! The description of a registered environment variable: its key, help
//! text, default representation, possible values and validator.
//!
//! An [`Item`] is what a library registers and what a binary walks to
//! validate input eagerly or to explain the variable to users.
use vstd::prelude::*;

verus! {

/// The view of an optional string slice.
pub open spec fn opt_str_view(o: Option<&str>) -> Option<Seq<char>> {
    match o {
        Some(s) => Some(s@),
        None => None,
    }
}

/// The view of an optional owned string.
pub open spec fn opt_string_view(o: Option<String>) -> Option<Seq<char>> {
    match o {
        Some(s) => Some(s@),
        None => None,
    }
}

/// An error returned by a validator. It carries the message that
/// explains why the value was rejected.
pub struct SetError {
    message: String,
}

impl SetError {
    /// The message of the error.
    pub closed spec fn spec_message(&self) -> Seq<char> {
        self.message@
    }

    /// The error that carries `message`.
    pub closed spec fn from_message(message: String) -> SetError {
        SetError { message }
    }

    /// The error built from `message` carries it.
    pub proof fn lemma_from_message(message: String)
        ensures
            SetError::from_message(message).spec_message() == message@,
    {
    }

    /// Creates a [`SetError`] with the given message.
    pub fn new(message: String) -> (r: Self)
        ensures
            r.spec_message() == message@,
            r == SetError::from_message(message),
    {
        SetError { message }
    }

    /// The message of the error, as it is shown to users.
    pub fn message(&self) -> (r: &str)
        ensures
            r@ == self.spec_message(),
    {
        self.message.as_str()
    }
}

/// One variant of an environment variable, for user feedback.
#[derive(Clone, Copy)]
pub struct PossibleValue {
    name: &'static str,
    help: Option<&'static str>,
}

/// The abstract content of a [`PossibleValue`].
pub struct PossibleValueView {
    pub name: Seq<char>,
    pub help: Option<Seq<char>>,
}

impl View for PossibleValue {
    type V = PossibleValueView;

    closed spec fn view(&self) -> PossibleValueView {
        PossibleValueView { name: self.name@, help: opt_str_view(self.help) }
    }
}

/// The views of a sequence of possible values.
pub open spec fn possible_values_view(s: Seq<PossibleValue>) -> Seq<PossibleValueView> {
    s.map_values(|p: PossibleValue| p@)
}

impl PossibleValue {
    /// Creates a [`PossibleValue`] for the `name` variant, without help text.
    pub fn new(name: &'static str) -> (r: Self)
        ensures
            r@ == (PossibleValueView { name: name@, help: None }),
    {
        PossibleValue { name, help: None }
    }

    /// Sets the description of the variant.
    pub fn with_help(self, help: &'static str) -> (r: Self)
        ensures
            r@ == (PossibleValueView { name: self@.name, help: Some(help@) }),
    {
        PossibleValue { name: self.name, help: Some(help) }
    }

    /// The name set when the possible value was constructed.
    pub fn name(&self) -> (r: &'static str)
        ensures
            r@ == self@.name,
    {
        self.name
    }

    /// The help text set via [`Self::with_help`], if any.
    pub fn help(&self) -> (r: Option<&'static str>)
        ensures
            opt_str_view(r) == self@.help,
    {
        self.help
    }
}

/// A description of an environment variable.
///
/// `V` is the validator: a function that parses (and caches) a value given
/// as the bytes of an operating-system string.
pub struct Item<V> {
    key: &'static str,
    help: Option<&'static str>,
    default_value: Option<String>,
    validator: Option<V>,
    possible_values: Option<Vec<PossibleValue>>,
}

/// The abstract content of an [`Item`], validator aside.
pub struct ItemView {
    pub key: Seq<char>,
    pub help: Option<Seq<char>>,
    pub default_value: Option<Seq<char>>,
    pub possible_values: Option<Seq<PossibleValueView>>,
}

impl<V> View for Item<V> {
    type V = ItemView;

    closed spec fn view(&self) -> ItemView {
        ItemView {
            key: self.key@,
            help: opt_str_view(self.help),
            default_value: opt_string_view(self.default_value),
            possible_values: match self.possible_values {
                Some(v) => Some(possible_values_view(v@)),
                None => None,
            },
        }
    }
}

/// What running the validator `validator` (if any) on `input` may return.
pub open spec fn validation_result<V: Fn(&[u8]) -> Result<(), SetError>>(
    validator: Option<V>,
    input: &[u8],
    r: Result<(), SetError>,
) -> bool {
    match validator {
        None => r is Ok,
        Some(f) => call_ensures(f, (input,), r),
    }
}

impl<V> Item<V> {
    /// The registered validator, if any.
    pub closed spec fn validator(&self) -> Option<V> {
        self.validator
    }

    /// The registered default value, if any.
    pub closed spec fn default_string(&self) -> Option<String> {
        self.default_value
    }

    /// Creates an [`Item`] for the environment variable named `key`.
    pub fn new(key: &'static str) -> (r: Self)
        ensures
            r@ == (ItemView { key: key@, help: None, default_value: None, possible_values: None }),
            r.validator() is None,
    {
        Item { key, help: None, default_value: None, validator: None, possible_values: None }
    }

    /// Sets the short, one-line, description of the environment variable.
    pub fn with_help(self, v: &'static str) -> (r: Self)
        ensures
            r@ == (ItemView { help: Some(v@), ..self@ }),
            r.validator() == self.validator(),
    {
        Item { help: Some(v), ..self }
    }

    /// Sets the value to be used when no value is provided by the user:
    /// whatever `f` returns.
    pub fn with_default_value<D: Fn() -> Option<String>>(self, f: D) -> (r: Self)
        requires
            f.requires(()),
        ensures
            call_ensures(f, (), r.default_string()),
            r@ == (ItemView { default_value: opt_string_view(r.default_string()), ..self@ }),
            r.validator() == self.validator(),
    {
        let d = f();
        Item { default_value: d, ..self }
    }

    /// Sets the validator that runs on supplied values.
    pub fn with_validator(self, f: V) -> (r: Self)
        ensures
            r@ == self@,
            r.validator() == Some(f),
    {
        Item { validator: Some(f), ..self }
    }

    /// Sets the possible values that the validator accepts.
    pub fn with_possible_values(self, v: Vec<PossibleValue>) -> (r: Self)
        ensures
            r@ == (ItemView { possible_values: Some(possible_values_view(v@)), ..self@ }),
            r.validator() == self.validator(),
    {
        Item { possible_values: Some(v), ..self }
    }

    /// The name of the environment variable.
    pub fn key(&self) -> (r: &'static str)
        ensures
            r@ == self@.key,
    {
        self.key
    }

    /// The help text set via [`Self::with_help`], if any.
    pub fn help(&self) -> (r: Option<&'static str>)
        ensures
            opt_str_view(r) == self@.help,
    {
        self.help
    }

    /// The default value set via [`Self::with_default_value`], if any.
    pub fn default_value(&self) -> (r: Option<String>)
        ensures
            opt_string_view(r) == self@.default_value,
    {
        match &self.default_value {
            Some(s) => Some(s.clone()),
            None => None,
        }
    }

    /// The possible values set via [`Self::with_possible_values`], if any.
    pub fn possible_values(&self) -> (r: Option<&[PossibleValue]>)
        ensures
            match r {
                Some(s) => self@.possible_values == Some(possible_values_view(s@)),
                None => self@.possible_values is None,
            },
    {
        match &self.possible_values {
            Some(v) => Some(v.as_slice()),
            None => None,
        }
    }

    /// A copy of the validator, for value parsers that outlive the item.
    pub(crate) fn validator_copy(&self) -> (r: Option<V>)
        where V: Copy
        ensures
            r == self.validator(),
    {
        match &self.validator {
            Some(f) => Some(*f),
            None => None,
        }
    }

    /// Whether the validator, if any, accepts every input.
    pub open spec fn validator_callable(&self) -> bool
        where V: Fn(&[u8]) -> Result<(), SetError>
    {
        self.validator() matches Some(f) ==> forall|v: &[u8]| #[trigger] f.requires((v,))
    }

    /// Runs the registered validator on `v`; without a validator every
    /// value is accepted.
    pub fn validate(&self, v: &[u8]) -> (r: Result<(), SetError>)
        where V: Fn(&[u8]) -> Result<(), SetError>
        requires
            self.validator_callable(),
        ensures
            validation_result(self.validator(), v, r),
    {
        match &self.validator {
            Some(f) => f(v),
            None => Ok(()),
        }
    }
}

} // verus!
