//! The locale settings shared by all domains, the registry of domains, and the
//! step that brings every domain in line with changes of the settings and of
//! the sources.

use vstd::prelude::*;

use crate::catalog::{args_view, LocalizationArgs};
use crate::chain::{chain_of, get_resolution_chain};
use crate::isolation::strip_isolation;
use crate::language_id::{tags, LanguageId};
use crate::locale::{with_fallback, Locale, LocaleDefaultFallback, LocaleFallbackMap};
use crate::localization::{
    after_events, first_success, lookup_error, reconciled, registered_store, requested_paths,
    Localization, LocalizationError, LocalizationView, SourceEvent, SourceHandle, handle_paths,
    lemma_after_events_keeps_folder,
};

verus! {

/// The settings as values, with a change flag for the locale, one for the
/// fallback map and one for the default fallback.
pub struct LocaleSettingsView {
    pub locale: Seq<char>,
    pub fallbacks: Map<Seq<char>, Seq<Seq<char>>>,
    pub default: Option<Seq<char>>,
    pub locale_changed: bool,
    pub fallbacks_changed: bool,
    pub default_changed: bool,
}

impl LocaleSettingsView {
    /// The chain that the settings give.
    pub open spec fn chain(self) -> Seq<Seq<char>> {
        chain_of(self.locale, self.fallbacks, self.default)
    }

    /// Whether anything changed since the last step.
    pub open spec fn changed(self) -> bool {
        self.locale_changed || self.fallbacks_changed || self.default_changed
    }

    /// The same settings with no change pending.
    pub open spec fn settled(self) -> LocaleSettingsView {
        LocaleSettingsView {
            locale_changed: false,
            fallbacks_changed: false,
            default_changed: false,
            ..self
        }
    }
}

/// The active locale, the fallback map and the default fallback, each with a
/// flag that a setter raises and a step lowers.
pub struct LocaleSettings {
    locale: Locale,
    fallback_map: LocaleFallbackMap,
    default_fallback: LocaleDefaultFallback,
    locale_changed: bool,
    fallbacks_changed: bool,
    default_changed: bool,
}

impl View for LocaleSettings {
    type V = LocaleSettingsView;

    closed spec fn view(&self) -> LocaleSettingsView {
        LocaleSettingsView {
            locale: self.locale@,
            fallbacks: self.fallback_map@,
            default: self.default_fallback@,
            locale_changed: self.locale_changed,
            fallbacks_changed: self.fallbacks_changed,
            default_changed: self.default_changed,
        }
    }
}

impl LocaleSettings {
    /// Settings with no change pending.
    pub fn new(
        locale: Locale,
        fallback_map: LocaleFallbackMap,
        default_fallback: LocaleDefaultFallback,
    ) -> (r: LocaleSettings)
        ensures
            r@ == (LocaleSettingsView {
                locale: locale@,
                fallbacks: fallback_map@,
                default: default_fallback@,
                locale_changed: false,
                fallbacks_changed: false,
                default_changed: false,
            }),
    {
        LocaleSettings {
            locale,
            fallback_map,
            default_fallback,
            locale_changed: false,
            fallbacks_changed: false,
            default_changed: false,
        }
    }

    /// Changes the active locale.
    pub fn set_locale(&mut self, locale: LanguageId)
        ensures
            final(self)@ == (LocaleSettingsView {
                locale: locale@,
                locale_changed: true,
                ..old(self)@
            }),
    {
        self.locale.set(locale);
        self.locale_changed = true;
    }

    /// Replaces the fallbacks of `locale`.
    pub fn set_fallbacks(&mut self, locale: LanguageId, fallbacks: Vec<LanguageId>)
        ensures
            final(self)@ == (LocaleSettingsView {
                fallbacks: old(self)@.fallbacks.insert(locale@, tags(fallbacks@)),
                fallbacks_changed: true,
                ..old(self)@
            }),
    {
        self.fallback_map.insert(locale, fallbacks);
        self.fallbacks_changed = true;
    }

    /// Adds a fallback at the end of the fallbacks of `locale`, unless it is
    /// already one of them.
    pub fn add_fallback(&mut self, locale: LanguageId, fallback: LanguageId)
        ensures
            final(self)@ == (LocaleSettingsView {
                fallbacks: old(self)@.fallbacks.insert(
                    locale@,
                    if old(self)@.fallbacks.dom().contains(locale@) {
                        with_fallback(old(self)@.fallbacks[locale@], fallback@)
                    } else {
                        seq![fallback@]
                    },
                ),
                fallbacks_changed: true,
                ..old(self)@
            }),
    {
        self.fallback_map.add_fallback(locale, fallback);
        self.fallbacks_changed = true;
    }

    /// Changes the default fallback.
    pub fn set_default_fallback(&mut self, locale: Option<LanguageId>)
        ensures
            final(self)@ == (LocaleSettingsView {
                default: match locale {
                    Some(l) => Some(l@),
                    None => None::<Seq<char>>,
                },
                default_changed: true,
                ..old(self)@
            }),
    {
        self.default_fallback.set(locale);
        self.default_changed = true;
    }

    /// The active locale.
    pub fn locale(&self) -> (r: &Locale)
        ensures
            r@ == self@.locale,
    {
        &self.locale
    }

    /// The fallback map.
    pub fn fallback_map(&self) -> (r: &LocaleFallbackMap)
        ensures
            r@ == self@.fallbacks,
    {
        &self.fallback_map
    }

    /// The default fallback.
    pub fn default_fallback(&self) -> (r: &LocaleDefaultFallback)
        ensures
            r@ == self@.default,
    {
        &self.default_fallback
    }

    /// Whether anything changed since the last step.
    pub fn is_changed(&self) -> (r: bool)
        ensures
            r == self@.changed(),
    {
        self.locale_changed || self.fallbacks_changed || self.default_changed
    }

    /// The resolution chain of the current settings.
    pub fn chain(&self) -> (r: Vec<LanguageId>)
        ensures
            tags(r@) == self@.chain(),
    {
        get_resolution_chain(&self.locale, &self.fallback_map, &self.default_fallback)
    }

    fn settle(&mut self)
        ensures
            final(self)@ == old(self)@.settled(),
    {
        self.locale_changed = false;
        self.fallbacks_changed = false;
        self.default_changed = false;
    }
}

/// Reconciles a store with the chain of the settings when the settings changed
/// since the last step; returns the handles requested.
pub fn update_localization_on_locale_change(
    localization: &mut Localization,
    settings: &LocaleSettings,
) -> (requested: Vec<SourceHandle>)
    requires
        old(localization).wf(),
    ensures
        final(localization).wf(),
        settings@.changed() ==> final(localization)@ == reconciled(
            old(localization)@,
            settings@.chain(),
        ),
        settings@.changed() ==> handle_paths(requested@) == requested_paths(
            old(localization)@.folder,
            old(localization)@.known,
            settings@.chain(),
        ),
        !settings@.changed() ==> final(localization)@ == old(localization)@,
        !settings@.changed() ==> requested@.len() == 0,
{
    if settings.is_changed() {
        localization.reconcile(settings.chain())
    } else {
        Vec::new()
    }
}

/// Applies the events of the asset provider to a store, in order.
pub fn update_localization_on_asset_change(
    localization: &mut Localization,
    events: &Vec<SourceEvent>,
)
    requires
        old(localization).wf(),
    ensures
        final(localization).wf(),
        final(localization)@ == after_events(old(localization)@, events@),
{
    localization.update_on_asset_changes(events);
}

/// The index of a registered domain.
pub type DomainId = usize;

/// Whether some domain has this folder.
pub open spec fn has_folder(domains: Seq<LocalizationView>, folder: Seq<char>) -> bool {
    exists|i: int| 0 <= i < domains.len() && domains[i].folder == folder
}

/// The domains after registering `folder` with the given chain: unchanged when
/// the folder is already registered, one new store at the end otherwise.
pub open spec fn after_register(
    domains: Seq<LocalizationView>,
    folder: Seq<char>,
    chain: Seq<Seq<char>>,
) -> Seq<LocalizationView> {
    if has_folder(domains, folder) {
        domains
    } else {
        domains.push(registered_store(folder, chain))
    }
}

/// The handles that reconciling each domain with `chain` requests, domain
/// after domain.
pub open spec fn requests_of(domains: Seq<LocalizationView>, chain: Seq<Seq<char>>) -> Seq<
    Seq<char>,
>
    decreases domains.len(),
{
    if domains.len() == 0 {
        Seq::empty()
    } else {
        requests_of(domains.drop_last(), chain) + requested_paths(
            domains.last().folder,
            domains.last().known,
            chain,
        )
    }
}

/// One domain after a step: reconciled with the chain when the settings
/// changed, then updated with the events.
pub open spec fn stepped(
    d: LocalizationView,
    changed: bool,
    chain: Seq<Seq<char>>,
    events: Seq<SourceEvent>,
) -> LocalizationView {
    after_events(if changed { reconciled(d, chain) } else { d }, events)
}

/// The domains of the registry, each with its own store.
pub struct LocalizationRegistry {
    domains: Vec<Localization>,
}

impl View for LocalizationRegistry {
    type V = Seq<LocalizationView>;

    closed spec fn view(&self) -> Seq<LocalizationView> {
        self.domains@.map_values(|d: Localization| d@)
    }
}

impl LocalizationRegistry {
    /// Every store is consistent and no two have the same folder.
    pub closed spec fn wf(&self) -> bool {
        &&& forall|i: int| 0 <= i < self.domains@.len() ==> #[trigger] self.domains@[i].wf()
        &&& forall|i: int, j: int|
            0 <= i < self.domains@.len() && 0 <= j < self.domains@.len() && i != j
                ==> self.domains@[i]@.folder != self.domains@[j]@.folder
    }

    /// A registry with no domain.
    pub fn new() -> (r: LocalizationRegistry)
        ensures
            r.wf(),
            r@ == Seq::<LocalizationView>::empty(),
    {
        let r = LocalizationRegistry { domains: Vec::new() };
        assert(r@ =~= Seq::<LocalizationView>::empty());
        r
    }

    /// The number of domains.
    pub fn len(&self) -> (r: usize)
        ensures
            r == self@.len(),
    {
        self.domains.len()
    }

    /// The store of a domain, if the index names one.
    pub fn domain(&self, id: DomainId) -> (r: Option<&Localization>)
        requires
            self.wf(),
        ensures
            r is Some <==> id < self@.len(),
            r is Some ==> r->0@ == self@[id as int] && r->0.wf(),
    {
        if id < self.domains.len() {
            Some(&self.domains[id])
        } else {
            None
        }
    }

    /// Registers the folder of a domain, with the chain of the settings.
    /// Registering a folder that is already registered changes nothing and
    /// requests nothing; otherwise a new store requests the source of every
    /// locale of the chain. Returns the domain's index and the handles
    /// requested.
    pub fn register_domain(&mut self, folder: String, settings: &LocaleSettings) -> (r: (
        DomainId,
        Vec<SourceHandle>,
    ))
        requires
            old(self).wf(),
        ensures
            final(self).wf(),
            final(self)@ == after_register(old(self)@, folder@, settings@.chain()),
            r.0 < final(self)@.len(),
            final(self)@[r.0 as int].folder == folder@,
            forall|j: int|
                0 <= j < final(self)@.len() && #[trigger] final(self)@[j].folder == folder@ ==> j
                    == r.0,
            has_folder(old(self)@, folder@) ==> r.1@.len() == 0,
            !has_folder(old(self)@, folder@) ==> handle_paths(r.1@) == requested_paths(folder@, Set::empty(), settings@.chain()),
    {
        let mut i: usize = 0;
        while i < self.domains.len()
            invariant
                i <= self.domains@.len(),
                forall|j: int| 0 <= j < i ==> self.domains@[j]@.folder != folder@,
                self.wf(),
                self@ == old(self)@,
            decreases self.domains.len() - i,
        {
            if self.domains[i].has_folder(&folder) {
                assert(self@[i as int] == self.domains@[i as int]@);
                return (i, Vec::new());
            }
            i = i + 1;
        }
        proof {
            if has_folder(self@, folder@) {
                let j = choose|j: int| 0 <= j < self@.len() && self@[j].folder == folder@;
                assert(self.domains@[j]@.folder == folder@);
            }
        }
        let ghost f = folder@;
        let (store, requested) = Localization::register(folder, settings.chain());
        let ghost before = self.domains@;
        self.domains.push(store);
        assert(self@ =~= old(self)@.push(registered_store(f, settings@.chain())));
        assert forall|a: int, b: int|
            0 <= a < self.domains@.len() && 0 <= b < self.domains@.len() && a != b implies self.domains@[a]@.folder
            != self.domains@[b]@.folder by {
            if a < before.len() && b < before.len() {
                assert(self.domains@[a] == before[a]);
                assert(self.domains@[b] == before[b]);
            }
        }
        (self.domains.len() - 1, requested)
    }

    /// Looks a message up in a domain.
    pub fn resolve(&self, id: DomainId, message_id: &str, args: Option<&LocalizationArgs>) -> (r:
        Result<String, LocalizationError>)
        requires
            self.wf(),
        ensures
            id >= self@.len() ==> r == Err::<String, LocalizationError>(
                LocalizationError::UnknownDomain,
            ),
            id < self@.len() ==> (r is Ok <==> first_success(
                self@[id as int].chain,
                self@[id as int].catalogs,
                message_id@,
                args_view(args),
            ) is Some),
            id < self@.len() && r is Ok ==> r->Ok_0@ == strip_isolation(
                first_success(
                    self@[id as int].chain,
                    self@[id as int].catalogs,
                    message_id@,
                    args_view(args),
                )->0,
            ),
            id < self@.len() && r is Err ==> r->Err_0 == lookup_error(
                self@[id as int].chain,
                self@[id as int].catalogs,
            ),
    {
        if id < self.domains.len() {
            self.domains[id].resolve(message_id, args)
        } else {
            Err(LocalizationError::UnknownDomain)
        }
    }

    /// One step of the reactor. When the settings changed, the chain is
    /// rebuilt and every domain reconciled with it, before the events are
    /// applied to every domain in order; then the change flags are lowered.
    /// Returns the handles that the reconciliations requested.
    pub fn step(&mut self, settings: &mut LocaleSettings, events: &Vec<SourceEvent>) -> (requested:
        Vec<SourceHandle>)
        requires
            old(self).wf(),
        ensures
            final(self).wf(),
            final(settings)@ == old(settings)@.settled(),
            final(self)@.len() == old(self)@.len(),
            forall|i: int|
                0 <= i < old(self)@.len() ==> #[trigger] final(self)@[i] == stepped(
                    old(self)@[i],
                    old(settings)@.changed(),
                    old(settings)@.chain(),
                    events@,
                ),
            old(settings)@.changed() ==> handle_paths(requested@) == requests_of(
                old(self)@,
                old(settings)@.chain(),
            ),
            !old(settings)@.changed() ==> requested@.len() == 0,
    {
        let ghost changed = settings@.changed();
        let ghost c = settings@.chain();
        let ghost start = self@;
        let mut rest: Vec<Localization> = Vec::new();
        std::mem::swap(&mut self.domains, &mut rest);
        let ghost all = rest@;
        let total: usize = rest.len();
        let mut done: Vec<Localization> = Vec::new();
        let mut requested: Vec<SourceHandle> = Vec::new();
        let mut k: usize = 0;
        while rest.len() > 0
            invariant
                k + rest@.len() == all.len(),
                rest@ == all.skip(k as int),
                done@.len() == k,
                start == all.map_values(|d: Localization| d@),
                c == old(settings)@.chain(),
                changed == old(settings)@.changed(),
                settings@ == old(settings)@,
                forall|i: int| 0 <= i < all.len() ==> #[trigger] all[i].wf(),
                forall|i: int| 0 <= i < k ==> #[trigger] done@[i].wf(),
                forall|i: int|
                    0 <= i < k ==> #[trigger] done@[i]@ == stepped(all[i]@, changed, c, events@),
                forall|i: int| 0 <= i < k ==> #[trigger] done@[i]@.folder == all[i]@.folder,
                all.len() == total,
                changed ==> handle_paths(requested@) == requests_of(
                    start.take(k as int),
                    c,
                ),
                !changed ==> requested@.len() == 0,
            decreases rest.len(),
        {
            let mut d = rest.remove(0);
            assert(d == all[k as int]);
            proof {
                lemma_after_events_keeps_folder(
                    if changed { reconciled(d@, c) } else { d@ },
                    events@,
                );
                assert(all.skip(k as int).drop_first() =~= all.skip(k + 1));
                assert(start.take(k + 1).drop_last() =~= start.take(k as int));
                assert(start.take(k + 1).last() == all[k as int]@);
            }
            let ghost before = requested@;
            let mut more = update_localization_on_locale_change(&mut d, settings);
            let ghost added = more@;
            requested.append(&mut more);
            assert(requested@ == before + added);
            assert(handle_paths(requested@) =~= handle_paths(before) + handle_paths(added));
            update_localization_on_asset_change(&mut d, events);
            done.push(d);
            k = k + 1;
        }
        std::mem::swap(&mut self.domains, &mut done);
        settings.settle();
        proof {
            assert(start.take(all.len() as int) =~= start);
            assert forall|a: int, b: int|
                0 <= a < self.domains@.len() && 0 <= b < self.domains@.len() && a != b implies self.domains@[a]@.folder
                != self.domains@[b]@.folder by {
                assert(self.domains@[a]@.folder == all[a]@.folder);
                assert(self.domains@[b]@.folder == all[b]@.folder);
            }
        }
        requested
    }
}

/// Registering a domain a second time leaves the registry as the first
/// registration left it.
pub proof fn lemma_register_idempotent(
    domains: Seq<LocalizationView>,
    folder: Seq<char>,
    chain: Seq<Seq<char>>,
)
    ensures
        after_register(after_register(domains, folder, chain), folder, chain) == after_register(
            domains,
            folder,
            chain,
        ),
        has_folder(after_register(domains, folder, chain), folder),
{
    let once = after_register(domains, folder, chain);
    if !has_folder(domains, folder) {
        assert(once[domains.len() as int].folder == folder);
    }
}

} // verus!
