//! Translation files: Fluent messages for one locale, read from text with
//! `fluent_bundle`.
//!
//! See <https://projectfluent.org> for a description of the syntax of Fluent files.

use vstd::prelude::*;

use fluent_bundle::bundle::FluentBundle;
use fluent_bundle::FluentResource;
use intl_memoizer::concurrent::IntlLangMemoizer;
use unic_langid::LanguageIdentifier;
use vstd::string::StringExecFns;

verus! {

#[verifier::external_type_specification]
#[verifier::external_body]
pub struct ExFluentResource(FluentResource);

#[verifier::external_type_specification]
#[verifier::external_body]
pub struct ExLanguageIdentifier(LanguageIdentifier);

#[verifier::external_type_specification]
#[verifier::external_body]
pub struct ExIntlLangMemoizer(IntlLangMemoizer);

#[verifier::external_type_specification]
#[verifier::external_body]
#[verifier::reject_recursive_types(R)]
#[verifier::reject_recursive_types(M)]
pub struct ExFluentBundle<R, M>(FluentBundle<R, M>);

/// How many syntax errors `fluent_bundle`'s parser reports for a Fluent source text.
pub uninterp spec fn fluent_parse_errors(text: Seq<char>) -> nat;

/// The ids under which `fluent_bundle` files the messages and terms that its parser
/// reads from a Fluent source text, in the order they are written (a term's id without
/// its leading `-`); entries in error are not among them.
pub uninterp spec fn fluent_entry_ids(text: Seq<char>) -> Seq<Seq<char>>;

/// The ids of the messages and terms a resource holds, in order.
pub uninterp spec fn resource_entry_ids(r: FluentResource) -> Seq<Seq<char>>;

/// The ids a bundle has entries for: messages, terms and functions.
pub uninterp spec fn bundle_entry_ids(b: FluentBundle<FluentResource, IntlLangMemoizer>) -> Set<Seq<char>>;

/// How many of `ids`, added in order to a bundle that has the ids `taken`, find their id
/// taken (by the bundle or by an earlier one of them).
pub open spec fn overridden_count(taken: Set<Seq<char>>, ids: Seq<Seq<char>>) -> nat
    decreases ids.len(),
{
    if ids.len() == 0 {
        0
    } else {
        (if taken.contains(ids[0]) {
            1nat
        } else {
            0nat
        }) + overridden_count(taken.insert(ids[0]), ids.drop_first())
    }
}

/// `fluent_bundle::FluentResource::try_new`: parses a Fluent source text. The resource
/// comes back whether or not the text has errors (the entries in error are left out of
/// it), with the number of errors the parser reported.
#[verifier::external_body]
fn parse_resource(text: String) -> (r: (FluentResource, usize))
    ensures
        r.1 == fluent_parse_errors(text@),
        resource_entry_ids(r.0) == fluent_entry_ids(text@),
{
    match FluentResource::try_new(text) {
        Ok(res) => (res, 0),
        Err((res, errors)) => (res, errors.len()),
    }
}

/// `fluent_bundle::concurrent::FluentBundle::new_concurrent`: an empty bundle whose locale
/// fallback chain is `locales`; the first one decides the plural rules.
#[verifier::external_body]
fn new_bundle(locales: Vec<LanguageIdentifier>) -> (r: FluentBundle<FluentResource, IntlLangMemoizer>)
    ensures
        bundle_entry_ids(r) == Set::<Seq<char>>::empty(),
{
    FluentBundle::new_concurrent(locales)
}

/// `fluent_bundle::bundle::FluentBundle::add_resource`: adds the resource's messages and
/// terms to the bundle in order; an entry whose id the bundle already has is left out and
/// reported. Gives the number of entries left out.
#[verifier::external_body]
fn add_resource(bundle: &mut FluentBundle<FluentResource, IntlLangMemoizer>, resource: FluentResource) -> (r: usize)
    ensures
        bundle_entry_ids(*final(bundle)) == bundle_entry_ids(*old(bundle)).union(resource_entry_ids(resource).to_set()),
        r == overridden_count(bundle_entry_ids(*old(bundle)), resource_entry_ids(resource)),
{
    match bundle.add_resource(resource) {
        Ok(()) => 0,
        Err(errors) => errors.len(),
    }
}

/// Why a translation file could not be made.
#[derive(Debug, Clone, Copy, PartialEq, Eq, Structural)]
pub enum TranslationError {
    /// The list of locales is empty: there is no language to take the plural rules from.
    NoLocales,
}

/// The messages of a translation file for one locale.
pub struct TranslationFile {
    /// The messages, with the file's locale fallback chain.
    pub bundle: FluentBundle<FluentResource, IntlLangMemoizer>,
    /// How many syntax errors the text had; the entries in error are left out.
    pub parse_errors: usize,
    /// How many messages or terms were left out because their id was taken.
    pub overridden: usize,
}

/// Loads translations from a string. The first element in `locales` should be the
/// language this file represents, and decides the plural rules; the others are fallbacks
/// for date and time formatting. Fails exactly when `locales` is empty; otherwise the
/// text's messages and terms are added to a new bundle (a repeated id keeps its first
/// entry), and its syntax errors counted and skipped.
pub fn translation_from_str(locales: Vec<LanguageIdentifier>, text: &str) -> (r: Result<TranslationFile, TranslationError>)
    ensures
        (r is Err) <==> locales@.len() == 0,
        r matches Err(e) ==> e == TranslationError::NoLocales,
        r matches Ok(file) ==> file.parse_errors == fluent_parse_errors(text@) && bundle_entry_ids(file.bundle)
            == fluent_entry_ids(text@).to_set() && file.overridden == overridden_count(
            Set::<Seq<char>>::empty(),
            fluent_entry_ids(text@),
        ),
{
    if locales.len() == 0 {
        return Err(TranslationError::NoLocales);
    }
    let mut source = String::new();
    source.append(text);
    proof {
        assert(source@ =~= text@);
    }
    let (resource, parse_errors) = parse_resource(source);
    let mut bundle = new_bundle(locales);
    let overridden = add_resource(&mut bundle, resource);
    proof {
        assert(Set::<Seq<char>>::empty().union(fluent_entry_ids(text@).to_set()) =~= fluent_entry_ids(text@).to_set());
    }
    Ok(TranslationFile { bundle, parse_errors, overridden })
}

} // verus!
