//! The locale configuration: the active locale, the fallbacks of each locale,
//! and the default fallback.

use vstd::prelude::*;

use crate::language_id::{contains_id, tags, LanguageId};
use crate::locale_map::LocaleMap;

verus! {

/// The currently active locale.
pub struct Locale {
    id: LanguageId,
}

impl View for Locale {
    type V = Seq<char>;

    closed spec fn view(&self) -> Seq<char> {
        self.id@
    }
}

impl Locale {
    /// A locale set to `locale`.
    pub fn new(locale: LanguageId) -> (r: Locale)
        ensures
            r@ == locale@,
    {
        Locale { id: locale }
    }

    /// Changes the active locale.
    pub fn set(&mut self, locale: LanguageId)
        ensures
            final(self)@ == locale@,
    {
        self.id = locale;
    }

    /// The active locale.
    pub fn get(&self) -> (r: &LanguageId)
        ensures
            r@ == self@,
    {
        &self.id
    }
}

/// The locale to fall back to last, if any.
pub struct LocaleDefaultFallback {
    id: Option<LanguageId>,
}

impl View for LocaleDefaultFallback {
    type V = Option<Seq<char>>;

    closed spec fn view(&self) -> Option<Seq<char>> {
        match self.id {
            Some(l) => Some(l@),
            None => None,
        }
    }
}

impl LocaleDefaultFallback {
    /// A default fallback set to `locale`.
    pub fn new(locale: Option<LanguageId>) -> (r: LocaleDefaultFallback)
        ensures
            r@ == (match locale {
                Some(l) => Some(l@),
                None => None::<Seq<char>>,
            }),
    {
        LocaleDefaultFallback { id: locale }
    }

    /// Changes the default fallback.
    pub fn set(&mut self, locale: Option<LanguageId>)
        ensures
            final(self)@ == (match locale {
                Some(l) => Some(l@),
                None => None::<Seq<char>>,
            }),
    {
        self.id = locale;
    }

    /// The default fallback.
    pub fn get(&self) -> (r: Option<LanguageId>)
        ensures
            r is Some <==> self@ is Some,
            r is Some ==> r->0@ == self@->0,
    {
        match &self.id {
            Some(l) => Some(l.clone()),
            None => None,
        }
    }
}

/// For each locale, the locales to try after it, first to last.
pub struct LocaleFallbackMap {
    map: LocaleMap<Vec<LanguageId>>,
}

impl View for LocaleFallbackMap {
    type V = Map<Seq<char>, Seq<Seq<char>>>;

    closed spec fn view(&self) -> Map<Seq<char>, Seq<Seq<char>>> {
        Map::new(|k: Seq<char>| self.map@.dom().contains(k), |k: Seq<char>| tags(self.map@[k]))
    }
}

/// The list after adding `fallback` to `list` unless it is already there.
pub open spec fn with_fallback(list: Seq<Seq<char>>, fallback: Seq<char>) -> Seq<Seq<char>> {
    if list.contains(fallback) {
        list
    } else {
        list.push(fallback)
    }
}

impl LocaleFallbackMap {
    /// A map with no fallbacks.
    pub fn new() -> (r: LocaleFallbackMap)
        ensures
            r@ == Map::<Seq<char>, Seq<Seq<char>>>::empty(),
    {
        let r = LocaleFallbackMap { map: LocaleMap::new() };
        assert(r@ =~= Map::<Seq<char>, Seq<Seq<char>>>::empty());
        r
    }

    /// Sets the fallbacks of `locale`, tried first to last, and returns the
    /// list that was there before.
    pub fn insert(&mut self, locale: LanguageId, fallbacks: Vec<LanguageId>) -> (r: Option<
        Vec<LanguageId>,
    >)
        ensures
            final(self)@ == old(self)@.insert(locale@, tags(fallbacks@)),
            r is Some <==> old(self)@.dom().contains(locale@),
            r is Some ==> tags(r->0@) == old(self)@[locale@],
    {
        let ghost k = locale@;
        let ghost v = tags(fallbacks@);
        let r = self.map.insert(locale, fallbacks);
        assert(self@ =~= old(self)@.insert(k, v));
        r
    }

    /// Adds `fallback` at the end of the fallbacks of `locale`, unless it is
    /// already one of them.
    pub fn add_fallback(&mut self, locale: LanguageId, fallback: LanguageId)
        ensures
            final(self)@ == old(self)@.insert(
                locale@,
                if old(self)@.dom().contains(locale@) {
                    with_fallback(old(self)@[locale@], fallback@)
                } else {
                    seq![fallback@]
                },
            ),
    {
        let ghost k = locale@;
        let ghost f = fallback@;
        match self.map.remove(&locale) {
            Some(mut list) => {
                if !contains_id(&list, &fallback) {
                    let ghost before = list@;
                    list.push(fallback);
                    assert(tags(list@) =~= tags(before).push(f));
                }
                self.map.insert(locale, list);
            },
            None => {
                let mut list: Vec<LanguageId> = Vec::new();
                list.push(fallback);
                assert(tags(list@) =~= seq![f]);
                self.map.insert(locale, list);
            },
        }
        assert(self@ =~= old(self)@.insert(
            k,
            if old(self)@.dom().contains(k) {
                with_fallback(old(self)@[k], f)
            } else {
                seq![f]
            },
        ));
    }

    /// The fallbacks of `locale`, if it has an entry.
    pub fn get(&self, locale: &LanguageId) -> (r: Option<&Vec<LanguageId>>)
        ensures
            r is Some <==> self@.dom().contains(locale@),
            r is Some ==> tags(r->0@) == self@[locale@],
    {
        self.map.get(locale)
    }
}

} // verus!
