//! Message catalogs: one Fluent bundle per locale, built from the text of a
//! localization file, and the arguments that messages are formatted with.

use vstd::prelude::*;

use crate::language_id::LanguageId;

verus! {

#[verifier::external_type_specification]
#[verifier::external_body]
pub struct ExFluentResource(fluent::FluentResource);

#[verifier::external_type_specification]
#[verifier::external_body]
#[verifier::reject_recursive_types(R)]
#[verifier::reject_recursive_types(M)]
pub struct ExFluentBundle<R, M>(fluent::bundle::FluentBundle<R, M>);

#[verifier::external_type_specification]
#[verifier::external_body]
pub struct ExIntlLangMemoizer(intl_memoizer::concurrent::IntlLangMemoizer);

/// A bundle that can be shared between threads.
pub type Bundle = fluent::bundle::FluentBundle<
    fluent::FluentResource,
    intl_memoizer::concurrent::IntlLangMemoizer,
>;

/// Whether the Fluent parser accepts a text without reporting an error.
pub uninterp spec fn ftl_parses(source: Seq<char>) -> bool;

/// What Fluent makes of a message: in a bundle for `locale` that holds the
/// entries of `source`, the value of message `id` formatted with `args`, when
/// the message exists, has a value and formats without error.
pub uninterp spec fn fluent_format(
    locale: Seq<char>,
    source: Seq<char>,
    id: Seq<char>,
    args: Option<Seq<(Seq<char>, Seq<char>)>>,
) -> Option<Seq<char>>;

/// Relies on `FluentResource::try_new` of fluent-bundle, which reports an
/// error exactly when the parser of the text does.
#[verifier::external_body]
fn parse_resource(source: &String) -> (r: Option<fluent::FluentResource>)
    ensures
        r is Some <==> ftl_parses(source@),
{
    fluent::FluentResource::try_new(source.clone()).ok()
}

/// Relies on `FluentBundle::new_concurrent` of fluent-bundle, given the
/// identifier that unic-langid parses back from the normalized tag: an empty
/// bundle for that locale.
#[verifier::external_body]
fn new_bundle(tag: &str) -> (r: Bundle) {
    Bundle::new_concurrent(tag.parse().into_iter().collect())
}

/// Relies on `FluentBundle::add_resource_overriding` of fluent-bundle, which
/// adds every entry of the resource and cannot fail.
#[verifier::external_body]
fn add_resource(bundle: &mut Bundle, resource: fluent::FluentResource) {
    bundle.add_resource_overriding(resource)
}

/// Named arguments for a message, in the order they were added.
pub struct LocalizationArgs {
    args: Vec<(String, String)>,
}

impl View for LocalizationArgs {
    type V = Seq<(Seq<char>, Seq<char>)>;

    closed spec fn view(&self) -> Seq<(Seq<char>, Seq<char>)> {
        self.args@.map_values(|p: (String, String)| (p.0@, p.1@))
    }
}

/// The arguments handed to Fluent, if any.
pub open spec fn args_view(args: Option<&LocalizationArgs>) -> Option<Seq<(Seq<char>, Seq<char>)>> {
    match args {
        Some(a) => Some(a@),
        None => None,
    }
}

impl LocalizationArgs {
    /// No arguments.
    pub fn new() -> (r: LocalizationArgs)
        ensures
            r@ == Seq::<(Seq<char>, Seq<char>)>::empty(),
    {
        let r = LocalizationArgs { args: Vec::new() };
        assert(r@ =~= Seq::<(Seq<char>, Seq<char>)>::empty());
        r
    }

    /// Adds the argument `name` with the text `value`.
    pub fn add_arg(&mut self, name: String, value: String)
        ensures
            final(self)@ == old(self)@.push((name@, value@)),
    {
        let ghost pair = (name@, value@);
        self.args.push((name, value));
        assert(self@ =~= old(self)@.push(pair));
    }
}

/// What a catalog was built from: its locale and the text of its source.
pub struct CatalogView {
    pub locale: Seq<char>,
    pub source: Seq<char>,
}

/// The compiled messages of one locale.
///
/// A catalog is only made by `build`, which puts into a new bundle for the
/// locale the entries of a source text that parsed without error; the ghost
/// fields record that locale and that text.
pub struct Catalog {
    bundle: Bundle,
    locale: Ghost<Seq<char>>,
    source: Ghost<Seq<char>>,
}

impl View for Catalog {
    type V = CatalogView;

    closed spec fn view(&self) -> CatalogView {
        CatalogView { locale: self.locale@, source: self.source@ }
    }
}

/// Relies on `FluentBundle::get_message`, `FluentMessage::value` and
/// `FluentBundle::format_pattern` of fluent-bundle: the message's value
/// formatted with the arguments, unless the message is missing, has no value,
/// or formatting reports an error.
#[verifier::external_body]
fn format_in_bundle(catalog: &Catalog, id: &str, args: Option<&LocalizationArgs>) -> (r: Option<
    String,
>)
    ensures
        r is Some <==> fluent_format(catalog@.locale, catalog@.source, id@, args_view(args)) is Some,
        r is Some ==> r->0@ == fluent_format(
            catalog@.locale,
            catalog@.source,
            id@,
            args_view(args),
        )->0,
{
    let fluent_args = args.map(
        |a| a.args.iter().map(|(k, v)| (k.as_str(), v.as_str())).collect::<fluent::FluentArgs>(),
    );
    let message = catalog.bundle.get_message(id)?;
    let mut errors = vec![];
    let text = catalog.bundle.format_pattern(message.value()?, fluent_args.as_ref(), &mut errors);
    if errors.is_empty() {
        Some(text.into_owned())
    } else {
        None
    }
}

impl Catalog {
    /// Builds the catalog of `locale` from a source text; fails exactly when the
    /// text does not parse.
    pub fn build(locale: &LanguageId, source: &String) -> (r: Option<Catalog>)
        ensures
            r is Some <==> ftl_parses(source@),
            r is Some ==> r->0@ == (CatalogView { locale: locale@, source: source@ }),
    {
        match parse_resource(source) {
            Some(resource) => {
                let mut bundle = new_bundle(locale.as_str());
                add_resource(&mut bundle, resource);
                Some(Catalog { bundle, locale: Ghost(locale@), source: Ghost(source@) })
            },
            None => None,
        }
    }

    /// Formats message `id` with `args`; nothing when the message is missing,
    /// has no value, or does not format cleanly.
    pub fn format(&self, id: &str, args: Option<&LocalizationArgs>) -> (r: Option<String>)
        ensures
            r is Some <==> fluent_format(self@.locale, self@.source, id@, args_view(args)) is Some,
            r is Some ==> r->0@ == fluent_format(
                self@.locale,
                self@.source,
                id@,
                args_view(args),
            )->0,
    {
        format_in_bundle(self, id, args)
    }
}

} // verus!
