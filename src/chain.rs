//! The resolution chain: the locales to try for a lookup, in order.

use vstd::prelude::*;

use crate::language_id::{clone_ids, tags, LanguageId};
use crate::locale::{Locale, LocaleDefaultFallback, LocaleFallbackMap};

verus! {

/// The fallbacks configured for `locale`; none when it has no entry.
pub open spec fn fallbacks_of(
    fallbacks: Map<Seq<char>, Seq<Seq<char>>>,
    locale: Seq<char>,
) -> Seq<Seq<char>> {
    if fallbacks.dom().contains(locale) {
        fallbacks[locale]
    } else {
        Seq::empty()
    }
}

/// The default fallback as a sequence of zero or one locale.
pub open spec fn default_part(default: Option<Seq<char>>) -> Seq<Seq<char>> {
    match default {
        Some(d) => seq![d],
        None => Seq::empty(),
    }
}

/// The chain for a locale: the locale itself, then its fallbacks in their
/// configured order, then the default fallback.
pub open spec fn chain_of(
    locale: Seq<char>,
    fallbacks: Map<Seq<char>, Seq<Seq<char>>>,
    default: Option<Seq<char>>,
) -> Seq<Seq<char>> {
    seq![locale] + fallbacks_of(fallbacks, locale) + default_part(default)
}

/// Builds the resolution chain: the active locale, then its fallbacks in order,
/// then the default fallback. Nothing is sorted or removed.
pub fn get_resolution_chain(
    locale: &Locale,
    fallback_map: &LocaleFallbackMap,
    default_fallback: &LocaleDefaultFallback,
) -> (r: Vec<LanguageId>)
    ensures
        tags(r@) == chain_of(locale@, fallback_map@, default_fallback@),
{
    let current = locale.get();
    let mut chain: Vec<LanguageId> = Vec::new();
    chain.push(current.clone());
    assert(tags(chain@) =~= seq![locale@]);
    if let Some(fallbacks) = fallback_map.get(current) {
        let mut copy = clone_ids(fallbacks);
        let ghost before = chain@;
        chain.append(&mut copy);
        assert(tags(chain@) =~= tags(before) + tags(fallbacks@));
    }
    let ghost middle = chain@;
    assert(tags(middle) =~= seq![locale@] + fallbacks_of(fallback_map@, locale@));
    if let Some(default) = default_fallback.get() {
        chain.push(default);
        assert(tags(chain@) =~= tags(middle).push(default_fallback@->0));
    }
    assert(tags(chain@) =~= chain_of(locale@, fallback_map@, default_fallback@));
    chain
}

/// The chain starts with the requested locale. Without an entry for it in the
/// fallback map, the only element after it, if any, is the default fallback.
/// With an entry, the entry's fallbacks follow it in their stored order, and the
/// default fallback, when set, comes last.
pub proof fn lemma_chain_order(
    locale: Seq<char>,
    fallbacks: Map<Seq<char>, Seq<Seq<char>>>,
    default: Option<Seq<char>>,
)
    ensures
        chain_of(locale, fallbacks, default)[0] == locale,
        !fallbacks.dom().contains(locale) ==> chain_of(locale, fallbacks, default).drop_first()
            == default_part(default),
        fallbacks.dom().contains(locale) ==> chain_of(locale, fallbacks, default).subrange(
            1,
            1 + fallbacks[locale].len() as int,
        ) == fallbacks[locale],
        chain_of(locale, fallbacks, default).len() == 1 + fallbacks_of(fallbacks, locale).len()
            + default_part(default).len(),
        default is Some ==> chain_of(locale, fallbacks, default).last() == default->0,
{
    let c = chain_of(locale, fallbacks, default);
    let f = fallbacks_of(fallbacks, locale);
    assert(c.drop_first() =~= f + default_part(default));
    assert(c.subrange(1, 1 + f.len() as int) =~= f);
}

/// The resolution chain kept for the current configuration.
pub struct LocaleResolutionChain {
    chain: Vec<LanguageId>,
}

impl View for LocaleResolutionChain {
    type V = Seq<Seq<char>>;

    closed spec fn view(&self) -> Seq<Seq<char>> {
        tags(self.chain@)
    }
}

impl LocaleResolutionChain {
    /// The chain for the given configuration.
    pub fn new(
        locale: &Locale,
        fallback_map: &LocaleFallbackMap,
        default_fallback: &LocaleDefaultFallback,
    ) -> (r: LocaleResolutionChain)
        ensures
            r@ == chain_of(locale@, fallback_map@, default_fallback@),
    {
        LocaleResolutionChain { chain: get_resolution_chain(locale, fallback_map, default_fallback) }
    }

    /// The locales of the chain, in order.
    pub fn chain(&self) -> (r: &Vec<LanguageId>)
        ensures
            tags(r@) == self@,
    {
        &self.chain
    }
}

/// The chain of the current configuration, by its other name.
pub type LocaleChain = LocaleResolutionChain;

/// Rebuilds the chain when the configuration changed, and leaves it as it is
/// otherwise.
pub fn update_resolution_chain(
    resolution_chain: &mut LocaleResolutionChain,
    changed: bool,
    locale: &Locale,
    fallback_map: &LocaleFallbackMap,
    default_fallback: &LocaleDefaultFallback,
)
    ensures
        changed ==> final(resolution_chain)@ == chain_of(
            locale@,
            fallback_map@,
            default_fallback@,
        ),
        !changed ==> final(resolution_chain)@ == old(resolution_chain)@,
{
    if changed {
        resolution_chain.chain = get_resolution_chain(locale, fallback_map, default_fallback);
    }
}

} // verus!
