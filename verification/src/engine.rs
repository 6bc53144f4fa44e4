//! The boundary to the external crates: the locale parser and the runtime
//! formatting engine.
//!
//! Everything here is a declaration or a thin wrapper around one outside
//! call; the library's own logic stays in the other modules and is verified
//! against the contracts stated here.

use vstd::prelude::*;

use fluent_bundle::FluentArgs;
use fluent_bundle::FluentError;
use fluent_bundle::FluentResource;
use intl_memoizer::concurrent::IntlLangMemoizer;
use unic_langid::LanguageIdentifier;

use crate::diag::EngineErrorKind;

verus! {

#[verifier::external_type_specification]
#[verifier::external_body]
pub struct ExLanguageIdentifier(LanguageIdentifier);

#[verifier::external_type_specification]
#[verifier::external_body]
pub struct ExFluentResource(FluentResource);

#[verifier::external_type_specification]
#[verifier::external_body]
pub struct ExIntlLangMemoizer(IntlLangMemoizer);


#[verifier::external_type_specification]
#[verifier::external_body]
#[verifier::reject_recursive_types(R)]
#[verifier::reject_recursive_types(M)]
pub struct ExFluentBundle<R, M>(fluent_bundle::bundle::FluentBundle<R, M>);

#[verifier::external_type_specification]
#[verifier::external_body]
pub struct ExFluentArgs<'a>(FluentArgs<'a>);

/// The formatting engine around one set of parsed resources; its memoizer
/// is the lock-guarded one, so a finished bundle can be shared across
/// threads for read-only resolution.
pub type Engine = fluent_bundle::bundle::FluentBundle<FluentResource, IntlLangMemoizer>;

/// The engine's argument map with owned contents.
pub type EngineArgs = FluentArgs<'static>;

/// One value bound in the engine's argument map: a string or a number.
pub ghost enum ArgVal {
    S(Seq<char>),
    I(int),
}

/// What the argument map holds: each bound name and its value.
pub uninterp spec fn args_model(args: EngineArgs) -> Map<Seq<char>, ArgVal>;

/// The resources the engine holds, in the order they were added.
pub uninterp spec fn engine_resources(engine: Engine) -> Seq<FluentResource>;

/// What the engine's lookup-and-format of one identifier returns: nothing
/// when the engine knows no such entry, else the formatted text and the
/// engine's own errors, each tagged by its variant. A function of the
/// engine's value and the call's arguments alone; the engine's stored
/// bidi-isolation flag does not matter, since every call sets it first.
pub uninterp spec fn format_output(
    engine: Engine,
    id: Seq<char>,
    attribute: Option<Seq<char>>,
    args: Map<Seq<char>, ArgVal>,
    use_isolating: bool,
) -> Option<(Seq<char>, Seq<(EngineErrorKind, Seq<char>)>)>;

/// The contents of the engine's tagged errors.
pub open spec fn tagged_pair_views(s: Seq<(EngineErrorKind, String)>) -> Seq<
    (EngineErrorKind, Seq<char>),
> {
    s.map_values(|p: (EngineErrorKind, String)| (p.0, p.1@))
}

/// Whether the text is a well-formed locale identifier, as the external
/// locale parser accepts it.
pub uninterp spec fn is_valid_lang_tag(s: Seq<char>) -> bool;

/// Relies on `unic_langid::LanguageIdentifier`'s `FromStr`: parsing is a
/// deterministic function of the text, succeeding exactly on well-formed
/// locale identifiers.
#[verifier::external_body]
pub(crate) fn parse_language(language: &str) -> (r: Option<LanguageIdentifier>)
    ensures
        r is Some <==> is_valid_lang_tag(language@),
{
    language.parse().ok()
}

/// Relies on `FluentBundle::new_concurrent`, which builds an empty bundle
/// for the given locale list, holding no resources.
#[verifier::external_body]
pub(crate) fn new_engine(language: LanguageIdentifier) -> (r: Engine)
    ensures
        engine_resources(r) == Seq::<FluentResource>::empty(),
{
    let mut locales = Vec::new();
    locales.push(language);
    fluent_bundle::concurrent::FluentBundle::new_concurrent(locales)
}

/// Relies on `FluentBundle::add_resource_overriding`, which appends the
/// resource to the bundle's resource list after registering every one of
/// its entries, replacing colliding ids.
#[verifier::external_body]
pub(crate) fn engine_add_resource(engine: &mut Engine, resource: FluentResource)
    ensures
        engine_resources(*final(engine)) == engine_resources(*old(engine)).push(resource),
{
    engine.add_resource_overriding(resource);
}

/// Relies on `FluentArgs::new`, which builds an empty argument map.
#[verifier::external_body]
pub(crate) fn args_new() -> (r: EngineArgs)
    ensures
        args_model(r) =~= Map::empty(),
{
    FluentArgs::new()
}

/// Relies on `FluentArgs::set`, which binds the key to the string value,
/// replacing any earlier binding of the same key.
#[verifier::external_body]
pub(crate) fn args_set_str(args: &mut EngineArgs, key: String, value: String)
    ensures
        args_model(*final(args)) == args_model(*old(args)).insert(key@, ArgVal::S(value@)),
{
    args.set(key, value);
}

/// The integer the engine actually stores for `n`: fluent keeps numbers as
/// 64-bit floats, so the stored value is `n` rounded to the nearest
/// representable one — `n` itself whenever it fits in 53 bits.
pub uninterp spec fn stored_int_of(n: int) -> int;

/// Relies on `FluentArgs::set`, which binds the key to the numeric value,
/// replacing any earlier binding of the same key, and on fluent's numeric
/// conversion, which keeps the integer as a 64-bit float: the value stored
/// is `stored_int_of(value)`, equal to `value` itself on the exactly
/// representable range of about nine quintillion either way of zero.
#[verifier::external_body]
pub(crate) fn args_set_int(args: &mut EngineArgs, key: String, value: i64)
    ensures
        args_model(*final(args)) == args_model(*old(args)).insert(
            key@,
            ArgVal::I(stored_int_of(value as int)),
        ),
        (-0x20_0000_0000_0000 <= value && value <= 0x20_0000_0000_0000) ==> args_model(
            *final(args),
        ) == args_model(*old(args)).insert(key@, ArgVal::I(value as int)),
{
    args.set(key, value);
}

/// The ISO 8601 rendering (`%Y-%m-%d`) of a calendar date, or nothing for
/// numbers that name no date; a function of the three numbers alone.
pub uninterp spec fn iso_date_of(year: int, month: int, day: int) -> Option<Seq<char>>;

/// Relies on `chrono::NaiveDate`: `from_ymd_opt` accepts exactly the valid
/// calendar dates, and `format("%Y-%m-%d")` renders one deterministically.
#[verifier::external_body]
pub(crate) fn iso_date_string(year: i32, month: u32, day: u32) -> (r: Option<String>)
    ensures
        match r {
            Some(s) => iso_date_of(year as int, month as int, day as int) == Some(s@),
            None => iso_date_of(year as int, month as int, day as int) is None,
        },
{
    let date = chrono::NaiveDate::from_ymd_opt(year, month, day)?;
    Some(date.format("%Y-%m-%d").to_string())
}

/// Relies on `FluentBundle::set_use_isolating`, `get_message`,
/// `FluentMessage::get_attribute` and `value`, and `format_pattern`: the
/// engine's own lookup of the identifier, and the locale-aware formatting
/// of its pattern with the bound arguments. Lookup and formatting read the
/// engine's entries and locales and the arguments, all deterministic, so
/// the result is the function `format_output` of the engine's value and
/// the call's arguments; the call touches nothing in the engine but the
/// bidi-isolation flag, which the named function ignores.
#[verifier::external_body]
pub(crate) fn engine_format(
    engine: &mut Engine,
    id: &str,
    attribute: Option<&str>,
    args: &EngineArgs,
    use_isolating: bool,
) -> (r: Option<(String, Vec<(EngineErrorKind, String)>)>)
    ensures
        ({
            let out = format_output(
                *old(engine),
                id@,
                match attribute {
                    Some(a) => Some(a@),
                    None => None,
                },
                args_model(*args),
                use_isolating,
            );
            &&& match r {
                Some((text, tagged)) => out == Some((text@, tagged_pair_views(tagged@))),
                None => out is None,
            }
            &&& format_output(
                *final(engine),
                id@,
                match attribute {
                    Some(a) => Some(a@),
                    None => None,
                },
                args_model(*args),
                use_isolating,
            ) == out
            &&& engine_resources(*final(engine)) == engine_resources(*old(engine))
        }),
{
    engine.set_use_isolating(use_isolating);
    let message = engine.get_message(id)?;
    let pattern = match attribute {
        Some(a) => message.get_attribute(a)?.value(),
        None => message.value()?,
    };
    let mut errors = Vec::new();
    let text = engine.format_pattern(pattern, Some(args), &mut errors);
    let tag = |e: &FluentError| match e {
        FluentError::Overriding { .. } => EngineErrorKind::Overriding,
        FluentError::ParserError(_) => EngineErrorKind::Parser,
        FluentError::ResolverError(_) => EngineErrorKind::Resolver,
    };
    Some((text.to_string(), errors.iter().map(|e| (tag(e), e.to_string())).collect()))
}

} // verus!
