//! Eager validation of every registered variable and the consistency check
//! between registrations of the same variable.
use vstd::prelude::*;
use vstd::string::StringSliceAdditionalSpecFns;
use crate::env::Env;
use crate::registry::{
    opt_str_view, opt_string_view, possible_values_view, validation_result, Item, ItemView,
    PossibleValue, PossibleValueView, SetError,
};
use crate::text::{owned, push_str, str_eq};

verus! {

/// The views of a sequence of items.
pub open spec fn items_view<V>(items: Seq<Item<V>>) -> Seq<ItemView> {
    items.map_values(|it: Item<V>| it@)
}

/// No entry before `j` has the key of entry `j`: it is the first
/// registration of its variable.
pub open spec fn is_first(views: Seq<ItemView>, j: int) -> bool {
    forall|i: int| 0 <= i < j ==> #[trigger] views[i].key != views[j].key
}

/// Two registrations describe a variable the same way: same help text, same
/// default value, same possible values.
pub open spec fn same_description(a: ItemView, b: ItemView) -> bool {
    &&& a.help == b.help
    &&& a.default_value == b.default_value
    &&& a.possible_values == b.possible_values
}

/// Entry `j` repeats an earlier registration of its variable with a
/// different description.
pub open spec fn conflicts_at(views: Seq<ItemView>, j: int) -> bool {
    exists|i: int|
        0 <= i < j && is_first(views, i) && #[trigger] views[i].key == views[j].key
            && !same_description(views[i], views[j])
}

/// No registration conflicts with an earlier one.
pub open spec fn consistent(views: Seq<ItemView>) -> bool {
    forall|j: int| 0 <= j < views.len() ==> !#[trigger] conflicts_at(views, j)
}

/// The message with which a conflicting registration of `name` is reported.
pub open spec fn conflict_message(name: Seq<char>) -> Seq<char> {
    "conflicting registrations for environment variable '"@ + name
        + "': two or more libraries registered it with different configurations"@
}

/// Two libraries registered the same variable with different descriptions.
pub struct ConflictError {
    name: &'static str,
}

impl ConflictError {
    /// The name of the variable registered twice.
    pub closed spec fn spec_name(&self) -> Seq<char> {
        self.name@
    }

    /// The name of the variable registered twice.
    pub fn name(&self) -> (r: &'static str)
        ensures
            r@ == self.spec_name(),
    {
        self.name
    }

    /// The message that reports the conflict.
    pub fn message(&self) -> (r: String)
        ensures
            r@ == conflict_message(self.spec_name()),
    {
        let mut m = owned("conflicting registrations for environment variable '");
        push_str(&mut m, self.name);
        push_str(&mut m, "': two or more libraries registered it with different configurations");
        m
    }
}

/// The view of an optional list of possible values.
pub open spec fn opt_possible_values_view(o: Option<&[PossibleValue]>) -> Option<
    Seq<PossibleValueView>,
> {
    match o {
        Some(s) => Some(possible_values_view(s@)),
        None => None,
    }
}

/// Optional strings are equal.
fn opt_str_eq(a: Option<&str>, b: Option<&str>) -> (r: bool)
    ensures
        r == (opt_str_view(a) == opt_str_view(b)),
{
    match (a, b) {
        (None, None) => true,
        (Some(x), Some(y)) => str_eq(x, y),
        _ => false,
    }
}

/// Compares two lists of possible values by their observable fields:
/// both absent, or both present with pairwise equal names and help texts.
/// An absent list ("unrestricted") differs from an empty one.
pub fn possible_values_equivalent(a: Option<&[PossibleValue]>, b: Option<&[PossibleValue]>) -> (r:
    bool)
    ensures
        r == (opt_possible_values_view(a) == opt_possible_values_view(b)),
{
    match (a, b) {
        (None, None) => true,
        (Some(x), Some(y)) => {
            if x.len() != y.len() {
                assert(possible_values_view(x@).len() != possible_values_view(y@).len());
                return false;
            }
            let n = x.len();
            let mut i: usize = 0;
            while i < n
                invariant
                    a == Some(x),
                    b == Some(y),
                    n == x@.len(),
                    n == y@.len(),
                    i <= n,
                    forall|k: int| 0 <= k < i ==> #[trigger] x@[k]@ == y@[k]@,
                decreases n - i,
            {
                let same = str_eq(x[i].name(), y[i].name()) && opt_str_eq(x[i].help(), y[i].help());
                if !same {
                    assert(x@[i as int]@ != y@[i as int]@);
                    assert(possible_values_view(x@)[i as int] != possible_values_view(y@)[i as int]);
                    assert(opt_possible_values_view(a) == Some(possible_values_view(x@)));
                    assert(opt_possible_values_view(b) == Some(possible_values_view(y@)));
                    return false;
                }
                i = i + 1;
            }
            assert(possible_values_view(x@) =~= possible_values_view(y@));
            true
        },
        _ => false,
    }
}

/// Two items describe their variable the same way.
fn same_item_description<V>(a: &Item<V>, b: &Item<V>) -> (r: bool)
    ensures
        r == same_description(a@, b@),
{
    let da = a.default_value();
    let db = b.default_value();
    let same_default = match (&da, &db) {
        (None, None) => true,
        (Some(x), Some(y)) => str_eq(x.as_str(), y.as_str()),
        _ => false,
    };
    opt_str_eq(a.help(), b.help()) && same_default && possible_values_equivalent(
        a.possible_values(),
        b.possible_values(),
    )
}

/// The index of the first entry that has the key of entry `j` (which is
/// `j` itself when `j` is the first registration).
fn first_with_key<V>(items: &[Item<V>], j: usize) -> (i: usize)
    requires
        j < items@.len(),
    ensures
        i <= j,
        items_view(items@)[i as int].key == items_view(items@)[j as int].key,
        is_first(items_view(items@), i as int),
{
    let ghost views = items_view(items@);
    let mut i: usize = 0;
    while i < j && !str_eq(items[i].key(), items[j].key())
        invariant
            i <= j,
            j < items@.len(),
            views == items_view(items@),
            forall|k: int| 0 <= k < i ==> #[trigger] views[k].key != views[j as int].key,
        decreases j - i,
    {
        i = i + 1;
    }
    i
}

/// The first entry that conflicts with an earlier registration of its
/// variable, if any.
pub open spec fn first_conflict(views: Seq<ItemView>) -> Option<int> {
    if exists|j: int| 0 <= j < views.len() && #[trigger] conflicts_at(views, j) {
        Some(
            choose|j: int|
                0 <= j < views.len() && #[trigger] conflicts_at(views, j) && forall|k: int|
                    0 <= k < j ==> !conflicts_at(views, k),
        )
    } else {
        None
    }
}

/// Checks that every variable registered more than once is registered with
/// the same help text, default value and possible values each time. The
/// first registration that differs from the first registration of its
/// variable is reported.
pub fn check_consistency<V>(items: &[Item<V>]) -> (r: Result<(), ConflictError>)
    ensures
        r is Ok <==> consistent(items_view(items@)),
        r matches Err(e) ==> exists|j: int|
            0 <= j < items@.len() && conflicts_at(items_view(items@), j) && (forall|k: int|
                0 <= k < j ==> !#[trigger] conflicts_at(items_view(items@), k))
                && e.spec_name() == items_view(items@)[j].key,
{
    let ghost views = items_view(items@);
    let n = items.len();
    let mut j: usize = 0;
    while j < n
        invariant
            n == items@.len(),
            views == items_view(items@),
            j <= n,
            forall|k: int| 0 <= k < j ==> !#[trigger] conflicts_at(views, k),
        decreases n - j,
    {
        let i = first_with_key(items, j);
        if i < j && !same_item_description(&items[i], &items[j]) {
            assert(conflicts_at(views, j as int));
            return Err(ConflictError { name: items[j].key() });
        }
        assert(!conflicts_at(views, j as int)) by {
            if conflicts_at(views, j as int) {
                let i2 = choose|i2: int|
                    0 <= i2 < j && is_first(views, i2) && #[trigger] views[i2].key
                        == views[j as int].key && !same_description(views[i2], views[j as int]);
                if i2 < i {
                    assert(views[i2].key != views[i as int].key);
                } else if i < i2 {
                    assert(views[i as int].key != views[i2].key);
                }
            }
        }
        j = j + 1;
    }
    Ok(())
}

/// The raw value that eager validation hands to the validator of entry `j`:
/// only the first registration of a variable is validated, with the value
/// from the environment, or else the registered default; a variable with
/// neither is left to be resolved lazily.
pub open spec fn validation_input(
    views: Seq<ItemView>,
    env: Map<Seq<char>, Seq<u8>>,
    j: int,
) -> Option<Seq<u8>> {
    if !is_first(views, j) {
        None
    } else if env.contains_key(views[j].key) {
        Some(env[views[j].key])
    } else {
        match views[j].default_value {
            Some(d) => Some(vstd::utf8::encode_utf8(d)),
            None => None,
        }
    }
}

/// `r` is a possible result of validating `input` (nothing to validate
/// counts as success) with the validator of `item`.
pub open spec fn validated_as<V: Fn(&[u8]) -> Result<(), SetError>>(
    item: Item<V>,
    input: Option<Seq<u8>>,
    r: Result<(), SetError>,
) -> bool {
    match input {
        None => r is Ok,
        Some(b) => exists|v: &[u8]| v@ == b && #[trigger] validation_result(item.validator(), v, r),
    }
}

/// The errors among a sequence of validation results, in order.
pub open spec fn errors_of(results: Seq<Result<(), SetError>>) -> Seq<SetError>
    decreases results.len(),
{
    if results.len() == 0 {
        Seq::empty()
    } else {
        let rest = errors_of(results.drop_last());
        match results.last() {
            Ok(_) => rest,
            Err(e) => rest.push(e),
        }
    }
}

/// One or more environment variables that could not be parsed.
pub struct ValidationErrors {
    /// One error per registered variable whose validator rejected its value.
    pub errors: Vec<SetError>,
}

/// The report of a list of error messages: a header line, then one line per
/// error.
pub open spec fn validation_report(messages: Seq<Seq<char>>) -> Seq<char>
    decreases messages.len(),
{
    if messages.len() == 0 {
        "Environment variable validation failed:\n"@
    } else {
        validation_report(messages.drop_last()) + "  - "@ + messages.last() + "\n"@
    }
}

impl ValidationErrors {
    /// The messages of the errors, in order.
    pub open spec fn messages(&self) -> Seq<Seq<char>> {
        self.errors@.map_values(|e: SetError| e.spec_message())
    }

    /// The report shown to users.
    pub fn to_string(&self) -> (r: String)
        ensures
            r@ == validation_report(self.messages()),
    {
        let mut out = owned("Environment variable validation failed:\n");
        let n = self.errors.len();
        let mut i: usize = 0;
        while i < n
            invariant
                n == self.errors@.len(),
                i <= n,
                out@ == validation_report(self.messages().take(i as int)),
            decreases n - i,
        {
            push_str(&mut out, "  - ");
            push_str(&mut out, self.errors[i].message());
            push_str(&mut out, "\n");
            assert(self.messages().take(i + 1).drop_last() == self.messages().take(i as int));
            i = i + 1;
        }
        assert(self.messages().take(n as int) == self.messages());
        out
    }
}

/// Whether entry `j` is the first registration of its variable.
pub fn first_registration<V>(items: &[Item<V>], j: usize) -> (r: bool)
    requires
        j < items@.len(),
    ensures
        r == is_first(items_view(items@), j as int),
{
    let i = first_with_key(items, j);
    assert(i < j ==> !is_first(items_view(items@), j as int));
    i == j
}

/// Every validator accepts every input.
pub open spec fn validators_callable<V: Fn(&[u8]) -> Result<(), SetError>>(
    items: Seq<Item<V>>,
) -> bool {
    forall|i: int| 0 <= i < items.len() ==> #[trigger] items[i].validator_callable()
}

/// What eager validation against `env` may give: each registration is
/// validated with its input ([`validation_input`]), and the rejections,
/// in order, are the errors; there are none exactly on success.
pub open spec fn eager_outcome<V: Fn(&[u8]) -> Result<(), SetError>>(
    items: Seq<Item<V>>,
    env: Map<Seq<char>, Seq<u8>>,
    r: Result<(), ValidationErrors>,
) -> bool {
    exists|results: Seq<Result<(), SetError>>|
        {
            &&& results.len() == items.len()
            &&& forall|j: int|
                0 <= j < items.len() ==> #[trigger] validated_as(
                    items[j],
                    validation_input(items_view(items), env, j),
                    results[j],
                )
            &&& if errors_of(results).len() == 0 {
                r is Ok
            } else {
                r matches Err(ve) && ve.errors@ == errors_of(results)
            }
        }
}

/// Registration `j` is the first that conflicts with an earlier one.
pub open spec fn is_first_conflict(views: Seq<ItemView>, j: int) -> bool {
    &&& 0 <= j < views.len()
    &&& conflicts_at(views, j)
    &&& forall|k: int| 0 <= k < j ==> !#[trigger] conflicts_at(views, k)
}

/// Eagerly validates (and so caches) every registered variable against
/// `env`. The first registration of each variable is validated with its
/// value from the environment, or else its default value; a variable with
/// neither is skipped. Every rejection is collected, in registration
/// order.
pub fn set_all_from_env<V: Fn(&[u8]) -> Result<(), SetError>>(items: &[Item<V>], env: &Env) -> (r:
    Result<(), ValidationErrors>)
    requires
        consistent(items_view(items@)),
        validators_callable(items@),
    ensures
        eager_outcome(items@, env@, r),
{
    let ghost views = items_view(items@);
    let ghost mut results: Seq<Result<(), SetError>> = Seq::empty();
    let mut errors: Vec<SetError> = Vec::new();
    let n = items.len();
    let mut j: usize = 0;
    while j < n
        invariant
            n == items@.len(),
            views == items_view(items@),
            validators_callable(items@),
            j <= n,
            results.len() == j,
            forall|k: int|
                0 <= k < j ==> #[trigger] validated_as(
                    items@[k],
                    validation_input(views, env@, k),
                    results[k],
                ),
            errors@ == errors_of(results),
        decreases n - j,
    {
        let item = &items[j];
        assert(item.validator_callable());
        let ghost input = validation_input(views, env@, j as int);
        let result = if first_registration(items, j) {
            match env.get(item.key()) {
                Some(v) => {
                    let res = item.validate(v);
                    assert(validated_as(items@[j as int], input, res));
                    res
                },
                None => match item.default_value() {
                    Some(repr) => {
                        let bytes = repr.as_str().as_bytes();
                        let res = item.validate(bytes);
                        assert(validated_as(items@[j as int], input, res));
                        res
                    },
                    None => Ok(()),
                },
            }
        } else {
            Ok(())
        };
        let ghost old_results = results;
        proof {
            results = results.push(result);
            assert(results.drop_last() == old_results);
            assert forall|k: int| 0 <= k < j + 1 implies #[trigger] validated_as(
                items@[k],
                validation_input(views, env@, k),
                results[k],
            ) by {
                if k < j {
                    assert(results[k] == old_results[k]);
                }
            }
        }
        match result {
            Ok(()) => {},
            Err(e) => {
                errors.push(e);
            },
        }
        j = j + 1;
    }
    if errors.len() == 0 {
        Ok(())
    } else {
        Err(ValidationErrors { errors })
    }
}

/// Why the registered variables could not be validated.
pub enum RegistryError {
    /// Two registrations of one variable disagree.
    Conflict(ConflictError),
    /// Some values were rejected.
    Invalid(ValidationErrors),
}

/// The outcome of eager validation inside a registry result: a conflict
/// stands for no validation at all.
pub open spec fn validation_part(r: Result<(), RegistryError>) -> Result<(), ValidationErrors> {
    match r {
        Err(RegistryError::Invalid(ve)) => Err(ve),
        _ => Ok(()),
    }
}

/// Checks the registrations, then validates every registered variable
/// against `env`: conflicting registrations are reported (naming the first
/// conflicting variable) and nothing is validated; otherwise this is
/// [`set_all_from_env`].
pub fn set_all_from_env_checked<V: Fn(&[u8]) -> Result<(), SetError>>(items: &[Item<V>], env: &Env) -> (r:
    Result<(), RegistryError>)
    requires
        validators_callable(items@),
    ensures
        (r matches Err(RegistryError::Conflict(_))) <==> !consistent(items_view(items@)),
        r matches Err(RegistryError::Conflict(e)) ==> exists|j: int|
            is_first_conflict(items_view(items@), j) && e.spec_name() == #[trigger] items_view(items@)[j].key,
        consistent(items_view(items@)) ==> eager_outcome(items@, env@, validation_part(r)),
{
    match check_consistency(items) {
        Err(e) => Err(RegistryError::Conflict(e)),
        Ok(()) => match set_all_from_env(items, env) {
            Ok(()) => Ok(()),
            Err(ve) => Err(RegistryError::Invalid(ve)),
        },
    }
}

/// Every entry has a first registration of its variable at or before it.
pub proof fn lemma_first_registration_exists(views: Seq<ItemView>, j: int)
    requires
        0 <= j < views.len(),
    ensures
        exists|i: int| 0 <= i <= j && is_first(views, i) && #[trigger] views[i].key == views[j].key,
    decreases j,
{
    if is_first(views, j) {
        assert(views[j].key == views[j].key);
    } else {
        let i = choose|i: int| 0 <= i < j && #[trigger] views[i].key == views[j].key;
        lemma_first_registration_exists(views, i);
        let i2 = choose|i2: int| 0 <= i2 <= i && is_first(views, i2) && #[trigger] views[i2].key
            == views[i].key;
        assert(views[i2].key == views[j].key);
    }
}

/// Eager validation fails exactly when some validator rejected its input,
/// and it reports the rejections and nothing else, in order.
pub proof fn law_errors_are_the_rejections(results: Seq<Result<(), SetError>>)
    ensures
        errors_of(results).len() == 0 <==> forall|k: int| 0 <= k < results.len() ==> #[trigger] results[k] is Ok,
        errors_of(results).len() <= results.len(),
    decreases results.len(),
{
    if results.len() > 0 {
        law_errors_are_the_rejections(results.drop_last());
        if errors_of(results).len() == 0 {
            assert forall|k: int| 0 <= k < results.len() implies #[trigger] results[k] is Ok by {
                if k < results.len() - 1 {
                    assert(results.drop_last()[k] == results[k]);
                }
            }
        } else {
            if forall|k: int| 0 <= k < results.len() ==> #[trigger] results[k] is Ok {
                assert forall|k: int| 0 <= k < results.drop_last().len() implies #[trigger] results.drop_last()[k] is Ok by {
                    assert(results.drop_last()[k] == results[k]);
                }
                assert(results[results.len() - 1] is Ok);
            }
        }
    }
}

/// A variable registered several times is validated only through its
/// first registration.
pub proof fn law_repeated_registration_not_validated(
    views: Seq<ItemView>,
    env: Map<Seq<char>, Seq<u8>>,
    i: int,
    j: int,
)
    requires
        0 <= i < j < views.len(),
        views[i].key == views[j].key,
    ensures
        validation_input(views, env, j) is None,
{
    assert(!is_first(views, j));
}

/// Registrations that repeat a variable with the same description as its
/// first registration are consistent.
pub proof fn law_identical_repetitions_are_consistent(views: Seq<ItemView>)
    requires
        forall|i: int, j: int|
            0 <= i < j < views.len() && #[trigger] views[i].key == #[trigger] views[j].key
                ==> same_description(views[i], views[j]),
    ensures
        consistent(views),
{
    assert forall|j: int| 0 <= j < views.len() implies !#[trigger] conflicts_at(views, j) by {
        if conflicts_at(views, j) {
            let i = choose|i: int|
                0 <= i < j && is_first(views, i) && #[trigger] views[i].key == views[j].key
                    && !same_description(views[i], views[j]);
            assert(same_description(views[i], views[j]));
        }
    }
}

/// Eager validation hands the first registration of a variable that is
/// set in the environment the environment's value, whether or not a
/// default value is registered.
pub proof fn law_environment_value_is_validated(views: Seq<ItemView>, env: Map<Seq<char>, Seq<u8>>, j: int)
    requires
        0 <= j < views.len(),
        is_first(views, j),
        env.contains_key(views[j].key),
    ensures
        validation_input(views, env, j) == Some(env[views[j].key]),
{
}

/// The registered default is validated only for a variable that is unset
/// in the environment; an unset variable without a default, and every
/// repeated registration, is not validated at all.
pub proof fn law_default_only_when_unset(views: Seq<ItemView>, env: Map<Seq<char>, Seq<u8>>, j: int)
    requires
        0 <= j < views.len(),
    ensures
        validation_input(views, env, j) is Some ==> is_first(views, j),
        validation_input(views, env, j) is Some && !env.contains_key(views[j].key) ==> (
        views[j].default_value is Some && validation_input(views, env, j) == Some(
            vstd::utf8::encode_utf8(views[j].default_value->0),
        )),
        is_first(views, j) && !env.contains_key(views[j].key) && views[j].default_value is Some
            ==> validation_input(views, env, j) == Some(vstd::utf8::encode_utf8(views[j].default_value->0)),
        !env.contains_key(views[j].key) && views[j].default_value is None ==> validation_input(
            views,
            env,
            j,
        ) is None,
{
}

/// A variable registered again with a different help text, default value
/// or list of possible values than its first registration is a conflict,
/// so the registrations are not consistent.
pub proof fn law_differing_registrations_conflict(views: Seq<ItemView>, i: int, j: int)
    requires
        0 <= i < j < views.len(),
        is_first(views, i),
        views[i].key == views[j].key,
        views[i].help != views[j].help || views[i].default_value != views[j].default_value
            || views[i].possible_values != views[j].possible_values,
    ensures
        conflicts_at(views, j),
        !consistent(views),
{
    assert(views[i].key == views[j].key);
    assert(conflicts_at(views, j));
}

/// What a rejection is, for one validation result.
pub open spec fn rejection(r: Result<(), SetError>) -> Option<SetError> {
    match r {
        Ok(()) => None,
        Err(e) => Some(e),
    }
}

/// The errors collected from validation results are exactly the
/// rejections, each once, in the order of the results.
pub proof fn law_errors_are_all_rejections_in_order(results: Seq<Result<(), SetError>>)
    ensures
        errors_of(results) == results.filter_map(|r: Result<(), SetError>| rejection(r)),
    decreases results.len(),
{
    if results.len() > 0 {
        law_errors_are_all_rejections_in_order(results.drop_last());
        let rest = results.drop_last().filter_map(|r: Result<(), SetError>| rejection(r));
        match results.last() {
            Ok(()) => {},
            Err(e) => {
                assert(errors_of(results) =~= rest + seq![e]);
            },
        }
    }
}

} // verus!
