//! The catalog store of one localization domain: which locales are requested,
//! the handle of each one's source, the catalog of each loaded locale, and the
//! lookup of messages along the resolution chain.

use vstd::prelude::*;
use vstd::string::StrSliceExecFns;
use vstd::string::StringExecFns;

use crate::catalog::{args_view, ftl_parses, fluent_format, Catalog, LocalizationArgs};
use crate::isolation::{strip_isolation, strip_isolation_marks};
use crate::language_id::{contains_id, tags, LanguageId};
use crate::locale_map::LocaleMap;

verus! {

/// The separator between the folder and the file name, when one is needed.
pub open spec fn folder_prefix(folder: Seq<char>) -> Seq<char> {
    if folder.len() == 0 || folder.last() == '/' {
        folder
    } else {
        folder.push('/')
    }
}

/// The path of the localization file of a locale: `<folder>/<tag>.ftl`.
pub open spec fn ftl_path(folder: Seq<char>, tag: Seq<char>) -> Seq<char> {
    folder_prefix(folder) + tag + seq!['.', 'f', 't', 'l']
}

/// Different locales of one folder have different paths.
pub proof fn lemma_ftl_path_injective(folder: Seq<char>, a: Seq<char>, b: Seq<char>)
    requires
        ftl_path(folder, a) == ftl_path(folder, b),
    ensures
        a == b,
{
    let p = folder_prefix(folder);
    let pa = ftl_path(folder, a);
    assert(pa.len() == p.len() + a.len() + 4);
    assert(ftl_path(folder, b).len() == p.len() + b.len() + 4);
    assert(a.len() == b.len());
    assert(a =~= pa.subrange(p.len() as int, p.len() + a.len() as int));
    assert(b =~= ftl_path(folder, b).subrange(p.len() as int, p.len() + b.len() as int));
}

/// Builds the path of the localization file of `locale` in `folder`.
pub fn get_ftl_path(folder: &str, locale: &LanguageId) -> (r: String)
    ensures
        r@ == ftl_path(folder@, locale@),
{
    let mut path = String::from_str(folder);
    let n: usize = folder.unicode_len();
    if n > 0 && folder.get_char(n - 1) != '/' {
        path.append("/");
        proof {
            reveal_strlit("/");
        }
    }
    assert(path@ == folder_prefix(folder@));
    path.append(locale.as_str());
    path.append(".ftl");
    proof {
        reveal_strlit(".ftl");
    }
    assert(path@ =~= ftl_path(folder@, locale@));
    path
}

/// A reference to the source of a locale's catalog, as handed to the asset
/// provider: the path of the localization file.
pub struct SourceHandle {
    path: String,
}

impl View for SourceHandle {
    type V = Seq<char>;

    closed spec fn view(&self) -> Seq<char> {
        self.path@
    }
}

impl SourceHandle {
    /// The handle of the file at `path`.
    pub fn new(path: String) -> (r: SourceHandle)
        ensures
            r@ == path@,
    {
        SourceHandle { path }
    }

    /// The path of the file.
    pub fn path(&self) -> (r: &str)
        ensures
            r@ == self@,
    {
        self.path.as_str()
    }

    /// Whether two handles name the same file.
    pub fn same_as(&self, other: &SourceHandle) -> (r: bool)
        ensures
            r == (self@ == other@),
    {
        self.path == other.path
    }
}

/// The paths of a sequence of handles, in order.
pub open spec fn handle_paths(s: Seq<SourceHandle>) -> Seq<Seq<char>> {
    s.map_values(|h: SourceHandle| h@)
}

impl Clone for SourceHandle {
    fn clone(&self) -> (r: SourceHandle)
        ensures
            r@ == self@,
    {
        SourceHandle { path: self.path.clone() }
    }
}

/// Why a lookup failed along the whole chain.
#[derive(Debug, PartialEq, Eq, Clone, Copy, Structural)]
pub enum LocalizationError {
    /// Some locale of the chain has a catalog, but none of them formats the
    /// message.
    NotFound,
    /// No locale of the chain has a catalog yet.
    NoCatalogLoaded,
    /// The domain asked for is not registered.
    UnknownDomain,
}

/// The state of a store: its folder, the locales whose sources were requested,
/// the source text of each locale's catalog, and the resolution chain.
pub struct LocalizationView {
    pub folder: Seq<char>,
    pub known: Set<Seq<char>>,
    pub catalogs: Map<Seq<char>, Seq<char>>,
    pub chain: Seq<Seq<char>>,
}

/// The locales of `chain` that are neither in `known` nor earlier in the
/// chain, in chain order.
pub open spec fn fresh_locales(known: Set<Seq<char>>, chain: Seq<Seq<char>>) -> Seq<Seq<char>>
    decreases chain.len(),
{
    if chain.len() == 0 {
        Seq::empty()
    } else {
        let rest = fresh_locales(known, chain.drop_last());
        if known.contains(chain.last()) || chain.drop_last().contains(chain.last()) {
            rest
        } else {
            rest.push(chain.last())
        }
    }
}

/// The handles requested for the fresh locales of a chain.
pub open spec fn requested_paths(
    folder: Seq<char>,
    known: Set<Seq<char>>,
    chain: Seq<Seq<char>>,
) -> Seq<Seq<char>> {
    fresh_locales(known, chain).map_values(|l: Seq<char>| ftl_path(folder, l))
}

/// A store after reconciling it with a new chain: exactly the chain's locales
/// are known, the catalogs of the others are dropped, and the chain is replaced.
pub open spec fn reconciled(v: LocalizationView, chain: Seq<Seq<char>>) -> LocalizationView {
    LocalizationView {
        folder: v.folder,
        known: chain.to_set(),
        catalogs: v.catalogs.restrict(chain.to_set()),
        chain,
    }
}

/// After reconciling with a chain, the known locales are exactly the chain's
/// locales, whatever the store held before, and every catalog left belongs to
/// one of them.
pub proof fn lemma_reconcile_converges(v: LocalizationView, chain: Seq<Seq<char>>)
    ensures
        forall|l: Seq<char>| reconciled(v, chain).known.contains(l) <==> chain.contains(l),
        forall|l: Seq<char>| #[trigger]
            reconciled(v, chain).catalogs.dom().contains(l) ==> chain.contains(l),
        reconciled(v, chain).chain == chain,
{
}

/// A store after the source of `locale` delivered `text`: a catalog of a
/// known locale is replaced when the text parses, and kept as it was otherwise.
pub open spec fn after_source_ready(
    v: LocalizationView,
    locale: Seq<char>,
    text: Seq<char>,
) -> LocalizationView {
    if v.known.contains(locale) && ftl_parses(text) {
        LocalizationView { catalogs: v.catalogs.insert(locale, text), ..v }
    } else {
        v
    }
}

/// A text that does not parse changes nothing: the catalog that was there,
/// if any, stays, and so does every lookup against it.
pub proof fn lemma_malformed_source_keeps_store(
    v: LocalizationView,
    locale: Seq<char>,
    text: Seq<char>,
)
    requires
        !ftl_parses(text),
    ensures
        after_source_ready(v, locale, text) == v,
        after_source_ready(v, locale, text).catalogs == v.catalogs,
{
}

/// A store after the source of `locale` was removed: its catalog is dropped.
pub open spec fn after_source_removed(v: LocalizationView, locale: Seq<char>) -> LocalizationView {
    LocalizationView { catalogs: v.catalogs.remove(locale), ..v }
}

/// The known locale whose handle is `handle`, if any.
pub open spec fn handle_owner(v: LocalizationView, handle: Seq<char>) -> Option<Seq<char>> {
    if exists|l: Seq<char>| v.known.contains(l) && ftl_path(v.folder, l) == handle {
        Some(choose|l: Seq<char>| v.known.contains(l) && ftl_path(v.folder, l) == handle)
    } else {
        None
    }
}

/// The text of the first locale of the chain whose catalog formats the message.
pub open spec fn first_success(
    chain: Seq<Seq<char>>,
    catalogs: Map<Seq<char>, Seq<char>>,
    id: Seq<char>,
    args: Option<Seq<(Seq<char>, Seq<char>)>>,
) -> Option<Seq<char>>
    decreases chain.len(),
{
    if chain.len() == 0 {
        None
    } else if catalogs.dom().contains(chain[0]) && fluent_format(
        chain[0],
        catalogs[chain[0]],
        id,
        args,
    ) is Some {
        fluent_format(chain[0], catalogs[chain[0]], id, args)
    } else {
        first_success(chain.drop_first(), catalogs, id, args)
    }
}

/// Whether some locale of the chain has a catalog.
pub open spec fn any_loaded(chain: Seq<Seq<char>>, catalogs: Map<Seq<char>, Seq<char>>) -> bool {
    exists|i: int| 0 <= i < chain.len() && catalogs.dom().contains(chain[i])
}

/// The error of a lookup that no locale of the chain satisfied.
pub open spec fn lookup_error(
    chain: Seq<Seq<char>>,
    catalogs: Map<Seq<char>, Seq<char>>,
) -> LocalizationError {
    if any_loaded(chain, catalogs) {
        LocalizationError::NotFound
    } else {
        LocalizationError::NoCatalogLoaded
    }
}

/// The catalog store of one localization folder.
pub struct Localization {
    folder: String,
    handle_map: LocaleMap<SourceHandle>,
    bundle_map: LocaleMap<Catalog>,
    resolution_chain: Vec<LanguageId>,
}

impl View for Localization {
    type V = LocalizationView;

    closed spec fn view(&self) -> LocalizationView {
        LocalizationView {
            folder: self.folder@,
            known: self.handle_map@.dom(),
            catalogs: Map::new(
                |l: Seq<char>| self.bundle_map@.dom().contains(l),
                |l: Seq<char>| self.bundle_map@[l].source,
            ),
            chain: tags(self.resolution_chain@),
        }
    }
}

impl Localization {
    /// The store is consistent: each handle is the path of its locale's file,
    /// and each catalog belongs to a known locale and was built for it.
    pub closed spec fn wf(&self) -> bool {
        &&& forall|l: Seq<char>| #[trigger]
            self.handle_map@.dom().contains(l) ==> self.handle_map@[l] == ftl_path(self.folder@, l)
        &&& forall|l: Seq<char>| #[trigger]
            self.bundle_map@.dom().contains(l) ==> self.handle_map@.dom().contains(l)
                && self.bundle_map@[l].locale == l
    }

    /// A catalog exists only for a locale whose source was requested.
    pub proof fn lemma_catalogs_are_known(&self)
        requires
            self.wf(),
        ensures
            forall|l: Seq<char>| #[trigger] self@.catalogs.dom().contains(l) ==> self@.known.contains(l),
    {
    }

    /// A store for `folder` with the given chain, no requested source and no
    /// catalog.
    pub fn new(folder: String, resolution_chain: Vec<LanguageId>) -> (r: Localization)
        ensures
            r.wf(),
            r@ == (LocalizationView {
                folder: folder@,
                known: Set::empty(),
                catalogs: Map::empty(),
                chain: tags(resolution_chain@),
            }),
    {
        let r = Localization {
            folder,
            handle_map: LocaleMap::new(),
            bundle_map: LocaleMap::new(),
            resolution_chain,
        };
        assert(r@.known =~= Set::empty());
        assert(r@.catalogs =~= Map::empty());
        r
    }

    /// The folder of the store.
    pub fn folder(&self) -> (r: &str)
        ensures
            r@ == self@.folder,
    {
        self.folder.as_str()
    }

    /// Whether the store is the one of `folder`.
    pub fn has_folder(&self, folder: &String) -> (r: bool)
        ensures
            r == (self@.folder == folder@),
    {
        self.folder == *folder
    }

    /// The current resolution chain.
    pub fn resolution_chain(&self) -> (r: &Vec<LanguageId>)
        ensures
            tags(r@) == self@.chain,
    {
        &self.resolution_chain
    }

    /// The locales whose sources were requested, each once.
    pub fn known_locales(&self) -> (r: Vec<LanguageId>)
        ensures
            forall|l: Seq<char>| tags(r@).contains(l) <==> self@.known.contains(l),
    {
        self.handle_map.keys()
    }

    /// The handle of a locale's source, if it was requested.
    pub fn handle(&self, locale: &LanguageId) -> (r: Option<&SourceHandle>)
        requires
            self.wf(),
        ensures
            r is Some <==> self@.known.contains(locale@),
            r is Some ==> r->0@ == ftl_path(self@.folder, locale@),
    {
        self.handle_map.get(locale)
    }

    /// The catalog of a locale, if one is loaded.
    pub fn lookup_bundle(&self, locale: &LanguageId) -> (r: Option<&Catalog>)
        requires
            self.wf(),
        ensures
            r is Some <==> self@.catalogs.dom().contains(locale@),
            r is Some ==> r->0@.locale == locale@ && r->0@.source == self@.catalogs[locale@],
    {
        self.bundle_map.get(locale)
    }
}


impl Localization {
    /// Brings the store in line with a new chain: requests the source of every
    /// locale of the chain that was not known, drops the handle and catalog of
    /// every known locale that left the chain, and replaces the chain. Returns
    /// the handles requested, in chain order, each once.
    pub fn reconcile(&mut self, new_chain: Vec<LanguageId>) -> (requested: Vec<SourceHandle>)
        requires
            old(self).wf(),
        ensures
            final(self).wf(),
            final(self)@ == reconciled(old(self)@, tags(new_chain@)),
            handle_paths(requested@) == requested_paths(
                old(self)@.folder,
                old(self)@.known,
                tags(new_chain@),
            ),
    {
        let ghost v0 = self@;
        let ghost chain = tags(new_chain@);
        let ghost new_set = chain.to_set();
        let ghost old_catalogs = self.bundle_map@;
        let handle_keys = self.handle_map.keys();
        let mut requested: Vec<SourceHandle> = Vec::new();
        let mut i: usize = 0;
        while i < new_chain.len()
            invariant
                i <= new_chain.len(),
                chain == tags(new_chain@),
                self.wf(),
                self.folder@ == v0.folder,
                self.bundle_map@ == old_catalogs,
                self.resolution_chain@ == old(self).resolution_chain@,
                forall|l: Seq<char>| #[trigger]
                    self.handle_map@.dom().contains(l) <==> (v0.known.contains(l)
                        || chain.take(i as int).contains(l)),
                handle_paths(requested@) == requested_paths(
                    v0.folder,
                    v0.known,
                    chain.take(i as int),
                ),
            decreases new_chain.len() - i,
        {
            let ghost before = requested@;
            let ghost l = new_chain@[i as int]@;
            proof {
                assert(chain.take(i + 1).drop_last() =~= chain.take(i as int));
                assert(chain.take(i + 1).last() == l);
            }
            if !self.handle_map.contains_key(&new_chain[i]) {
                let handle = SourceHandle { path: get_ftl_path(self.folder.as_str(), &new_chain[i]) };
                requested.push(handle.clone());
                self.handle_map.insert(new_chain[i].clone(), handle);
                assert(handle_paths(requested@) =~= handle_paths(before).push(ftl_path(v0.folder, l)));
            }
            assert(handle_paths(requested@) =~= requested_paths(
                v0.folder,
                v0.known,
                chain.take(i + 1),
            ));
            i = i + 1;
        }
        assert(chain.take(new_chain.len() as int) =~= chain);
        let ghost added = self.handle_map@.dom();
        let mut j: usize = 0;
        while j < handle_keys.len()
            invariant
                j <= handle_keys.len(),
                chain == tags(new_chain@),
                new_set == chain.to_set(),
                forall|l: Seq<char>| tags(handle_keys@).contains(l) <==> v0.known.contains(l),
                forall|l: Seq<char>| #[trigger] added.contains(l) <==> (v0.known.contains(l)
                    || chain.contains(l)),
                self.wf(),
                self.folder@ == v0.folder,
                forall|l: Seq<char>| #[trigger]
                    self.handle_map@.dom().contains(l) <==> (added.contains(l) && (new_set.contains(
                        l,
                    ) || !tags(handle_keys@).take(j as int).contains(l))),
                forall|l: Seq<char>| #[trigger]
                    self.bundle_map@.dom().contains(l) <==> (old_catalogs.dom().contains(l) && (
                    new_set.contains(l) || !tags(handle_keys@).take(j as int).contains(l))),
                forall|l: Seq<char>| #[trigger]
                    self.bundle_map@.dom().contains(l) ==> self.bundle_map@[l] == old_catalogs[l],
            decreases handle_keys.len() - j,
        {
            let ghost k = handle_keys@[j as int]@;
            proof {
                let t = tags(handle_keys@).take(j as int);
                assert(tags(handle_keys@).take(j + 1) =~= t.push(k));
                assert forall|l: Seq<char>| #[trigger] t.push(k).contains(l) <==> (t.contains(l) || l
                    == k) by {
                    if t.push(k).contains(l) {
                        let x = choose|x: int| 0 <= x < t.push(k).len() && t.push(k)[x] == l;
                        if x < t.len() {
                            assert(t[x] == l);
                        }
                    }
                    if t.contains(l) {
                        let x = choose|x: int| 0 <= x < t.len() && t[x] == l;
                        assert(t.push(k)[x] == l);
                    }
                    if l == k {
                        assert(t.push(k)[t.len() as int] == l);
                    }
                }
            }
            if !contains_id(&new_chain, &handle_keys[j]) {
                self.handle_map.remove(&handle_keys[j]);
                self.bundle_map.remove(&handle_keys[j]);
            }
            j = j + 1;
        }
        assert(tags(handle_keys@).take(handle_keys.len() as int) =~= tags(handle_keys@));
        self.resolution_chain = new_chain;
        proof {
            assert(self@.known =~= new_set);
            assert(self@.catalogs =~= v0.catalogs.restrict(new_set));
        }
        requested
    }
}


/// A notification from the asset provider about the source behind a handle.
pub enum SourceEvent {
    /// The source was loaded for the first time, with this text.
    Created { handle: SourceHandle, text: String },
    /// The source changed, and now holds this text.
    Modified { handle: SourceHandle, text: String },
    /// The source is gone.
    Removed { handle: SourceHandle },
}

/// A store after an event: the event is applied to the known locale that owns
/// its handle, and ignored when no known locale does.
pub open spec fn after_event(v: LocalizationView, event: SourceEvent) -> LocalizationView {
    match event {
        SourceEvent::Created { handle, text } | SourceEvent::Modified { handle, text } => {
            match handle_owner(v, handle@) {
                Some(l) => after_source_ready(v, l, text@),
                None => v,
            }
        },
        SourceEvent::Removed { handle } => {
            match handle_owner(v, handle@) {
                Some(l) => after_source_removed(v, l),
                None => v,
            }
        },
    }
}

/// Events change catalogs only: the folder, the known locales and the chain
/// stay.
pub proof fn lemma_after_events_keeps_folder(v: LocalizationView, events: Seq<SourceEvent>)
    ensures
        after_events(v, events).folder == v.folder,
        after_events(v, events).known == v.known,
        after_events(v, events).chain == v.chain,
    decreases events.len(),
{
    if events.len() > 0 {
        lemma_after_events_keeps_folder(v, events.drop_last());
    }
}

/// A store after a sequence of events, applied in order.
pub open spec fn after_events(v: LocalizationView, events: Seq<SourceEvent>) -> LocalizationView
    decreases events.len(),
{
    if events.len() == 0 {
        v
    } else {
        after_event(after_events(v, events.drop_last()), events.last())
    }
}

/// The store of a newly registered folder: the sources of every locale of the
/// chain are requested, and no catalog is loaded.
pub open spec fn registered_store(folder: Seq<char>, chain: Seq<Seq<char>>) -> LocalizationView {
    LocalizationView { folder, known: chain.to_set(), catalogs: Map::empty(), chain }
}

impl Localization {
    /// Creates the store of a folder and requests the source of every locale of
    /// the chain; returns the store and the handles requested, in chain order,
    /// each once.
    pub fn register(folder: String, resolution_chain: Vec<LanguageId>) -> (r: (
        Localization,
        Vec<SourceHandle>,
    ))
        ensures
            r.0.wf(),
            r.0@ == registered_store(folder@, tags(resolution_chain@)),
            handle_paths(r.1@) == requested_paths(
                folder@,
                Set::empty(),
                tags(resolution_chain@),
            ),
    {
        let mut store = Localization::new(folder, Vec::new());
        let requested = store.reconcile(resolution_chain);
        assert(store@.catalogs =~= Map::empty());
        (store, requested)
    }

    /// Takes the text delivered for `locale`: when the locale is known and the
    /// text parses, its catalog is built and replaces any earlier one; a text
    /// that does not parse leaves the earlier catalog in place.
    pub fn on_source_ready(&mut self, locale: &LanguageId, text: &String)
        requires
            old(self).wf(),
        ensures
            final(self).wf(),
            final(self)@ == after_source_ready(old(self)@, locale@, text@),
    {
        if self.handle_map.contains_key(locale) {
            if let Some(catalog) = Catalog::build(locale, text) {
                self.bundle_map.insert(locale.clone(), catalog);
                assert(self@.catalogs =~= old(self)@.catalogs.insert(locale@, text@));
            }
        }
    }

    /// Drops the catalog of `locale`; its handle stays.
    pub fn on_source_removed(&mut self, locale: &LanguageId)
        requires
            old(self).wf(),
        ensures
            final(self).wf(),
            final(self)@ == after_source_removed(old(self)@, locale@),
    {
        self.bundle_map.remove(locale);
        assert(self@.catalogs =~= old(self)@.catalogs.remove(locale@));
    }

    /// The known locale whose handle is `handle`, if any.
    pub fn locale_of_handle(&self, handle: &SourceHandle) -> (r: Option<LanguageId>)
        requires
            self.wf(),
        ensures
            r is Some <==> handle_owner(self@, handle@) is Some,
            r is Some ==> r->0@ == handle_owner(self@, handle@)->0,
    {
        proof {
            self.handle_map.lemma_keys();
        }
        let n: usize = self.handle_map.len();
        let mut i: usize = 0;
        while i < n
            invariant
                i <= n,
                n == self.handle_map.len_spec(),
                self.wf(),
                forall|j: int|
                    0 <= j < i ==> self.handle_map@[#[trigger] self.handle_map.key_at_spec(j)]
                        != handle@,
            decreases n - i,
        {
            if self.handle_map.value_at(i).same_as(handle) {
                let l = self.handle_map.key_at(i).clone();
                proof {
                    let owner = choose|m: Seq<char>|
                        self@.known.contains(m) && ftl_path(self@.folder, m) == handle@;
                    lemma_ftl_path_injective(self@.folder, owner, l@);
                }
                return Some(l);
            }
            i = i + 1;
        }
        proof {
            if exists|m: Seq<char>| self@.known.contains(m) && ftl_path(self@.folder, m) == handle@ {
                let m = choose|m: Seq<char>|
                    self@.known.contains(m) && ftl_path(self@.folder, m) == handle@;
                let j = choose|j: int| 0 <= j < self.handle_map.len_spec() && self.handle_map.key_at_spec(j) == m;
                assert(self.handle_map@[self.handle_map.key_at_spec(j)] != handle@);
            }
        }
        None
    }

    /// Applies an event of the asset provider to the locale that owns its
    /// handle; an event for a handle that no known locale owns, such as a late
    /// answer for a locale that already left the chain, changes nothing.
    pub fn update_on_asset_change(&mut self, event: &SourceEvent)
        requires
            old(self).wf(),
        ensures
            final(self).wf(),
            final(self)@ == after_event(old(self)@, *event),
    {
        match event {
            SourceEvent::Created { handle, text } | SourceEvent::Modified { handle, text } => {
                if let Some(locale) = self.locale_of_handle(handle) {
                    self.on_source_ready(&locale, text);
                }
            },
            SourceEvent::Removed { handle } => {
                if let Some(locale) = self.locale_of_handle(handle) {
                    self.on_source_removed(&locale);
                }
            },
        }
    }

    /// Applies events in order.
    pub fn update_on_asset_changes(&mut self, events: &Vec<SourceEvent>)
        requires
            old(self).wf(),
        ensures
            final(self).wf(),
            final(self)@ == after_events(old(self)@, events@),
    {
        let mut i: usize = 0;
        while i < events.len()
            invariant
                i <= events.len(),
                self.wf(),
                self@ == after_events(old(self)@, events@.take(i as int)),
            decreases events.len() - i,
        {
            proof {
                assert(events@.take(i + 1).drop_last() =~= events@.take(i as int));
            }
            self.update_on_asset_change(&events[i]);
            i = i + 1;
        }
        assert(events@.take(events.len() as int) =~= events@);
    }
}


impl Localization {
    /// Looks a message up along the chain: the first locale with a catalog that
    /// formats the message gives the result, with its isolation marks removed;
    /// a catalog that lacks the message or fails to format it is skipped.
    pub fn resolve(&self, message_id: &str, args: Option<&LocalizationArgs>) -> (r: Result<
        String,
        LocalizationError,
    >)
        requires
            self.wf(),
        ensures
            r is Ok <==> first_success(self@.chain, self@.catalogs, message_id@, args_view(args)) is Some,
            r is Ok ==> r->Ok_0@ == strip_isolation(
                first_success(self@.chain, self@.catalogs, message_id@, args_view(args))->0,
            ),
            r is Err ==> r->Err_0 == lookup_error(self@.chain, self@.catalogs),
    {
        let ghost chain = self@.chain;
        let ghost catalogs = self@.catalogs;
        let ghost a = args_view(args);
        let mut loaded = false;
        let mut i: usize = 0;
        assert(chain.skip(0) =~= chain);
        while i < self.resolution_chain.len()
            invariant
                i <= self.resolution_chain.len(),
                self.wf(),
                chain == self@.chain,
                catalogs == self@.catalogs,
                a == args_view(args),
                first_success(chain, catalogs, message_id@, a) == first_success(
                    chain.skip(i as int),
                    catalogs,
                    message_id@,
                    a,
                ),
                loaded <==> exists|j: int| 0 <= j < i && catalogs.dom().contains(chain[j]),
            decreases self.resolution_chain.len() - i,
        {
            let locale = &self.resolution_chain[i];
            let ghost l = locale@;
            proof {
                assert(chain[i as int] == l);
                assert(chain.skip(i as int)[0] == l);
                assert(chain.skip(i as int).drop_first() =~= chain.skip(i + 1));
            }
            if let Some(catalog) = self.bundle_map.get(locale) {
                loaded = true;
                if let Some(text) = catalog.format(message_id, args) {
                    return Ok(strip_isolation_marks(text.as_str()));
                }
            }
            i = i + 1;
        }
        proof {
            assert(chain.skip(chain.len() as int).len() == 0);
        }
        if loaded {
            Err(LocalizationError::NotFound)
        } else {
            Err(LocalizationError::NoCatalogLoaded)
        }
    }

    /// Looks a message up without arguments.
    pub fn try_get_message(&self, message_id: &str) -> (r: Result<String, LocalizationError>)
        requires
            self.wf(),
        ensures
            r is Ok <==> first_success(self@.chain, self@.catalogs, message_id@, None) is Some,
            r is Ok ==> r->Ok_0@ == strip_isolation(
                first_success(self@.chain, self@.catalogs, message_id@, None)->0,
            ),
            r is Err ==> r->Err_0 == lookup_error(self@.chain, self@.catalogs),
    {
        self.resolve(message_id, None)
    }

    /// Looks a message up with named arguments.
    pub fn try_format_message(&self, message_id: &str, args: LocalizationArgs) -> (r: Result<
        String,
        LocalizationError,
    >)
        requires
            self.wf(),
        ensures
            r is Ok <==> first_success(self@.chain, self@.catalogs, message_id@, Some(args@)) is Some,
            r is Ok ==> r->Ok_0@ == strip_isolation(
                first_success(self@.chain, self@.catalogs, message_id@, Some(args@))->0,
            ),
            r is Err ==> r->Err_0 == lookup_error(self@.chain, self@.catalogs),
    {
        self.resolve(message_id, Some(&args))
    }
}

/// The walk along the chain is first-success: when every locale before
/// position `k` either has no catalog or does not format the message, and the
/// catalog of the locale at `k` formats it, the result is that catalog's text.
/// A catalog that lacks the message does not stop the walk.
pub proof fn lemma_first_success_skips_misses(
    chain: Seq<Seq<char>>,
    catalogs: Map<Seq<char>, Seq<char>>,
    id: Seq<char>,
    args: Option<Seq<(Seq<char>, Seq<char>)>>,
    k: int,
)
    requires
        0 <= k < chain.len(),
        forall|j: int|
            0 <= j < k ==> !(catalogs.dom().contains(chain[j]) && #[trigger] fluent_format(
                chain[j],
                catalogs[chain[j]],
                id,
                args,
            ) is Some),
        catalogs.dom().contains(chain[k]),
        fluent_format(chain[k], catalogs[chain[k]], id, args) is Some,
    ensures
        first_success(chain, catalogs, id, args) == fluent_format(
            chain[k],
            catalogs[chain[k]],
            id,
            args,
        ),
    decreases k,
{
    if k > 0 {
        let rest = chain.drop_first();
        assert forall|j: int|
            0 <= j < k - 1 implies !(catalogs.dom().contains(rest[j]) && #[trigger] fluent_format(
                rest[j],
                catalogs[rest[j]],
                id,
                args,
            ) is Some) by {
            assert(rest[j] == chain[j + 1]);
        }
        assert(rest[k - 1] == chain[k]);
        assert(!(catalogs.dom().contains(chain[0]) && fluent_format(
            chain[0],
            catalogs[chain[0]],
            id,
            args,
        ) is Some));
        lemma_first_success_skips_misses(rest, catalogs, id, args, k - 1);
    }
}

/// Resolution looks only at the locales that have a catalog: two chains whose
/// locales with catalogs come in the same order give the same result, however
/// many locales without a catalog stand between them.
pub proof fn lemma_first_success_ignores_unloaded(
    c1: Seq<Seq<char>>,
    c2: Seq<Seq<char>>,
    catalogs: Map<Seq<char>, Seq<char>>,
    id: Seq<char>,
    args: Option<Seq<(Seq<char>, Seq<char>)>>,
)
    requires
        c1.filter(|l: Seq<char>| catalogs.dom().contains(l)) == c2.filter(
            |l: Seq<char>| catalogs.dom().contains(l),
        ),
    ensures
        first_success(c1, catalogs, id, args) == first_success(c2, catalogs, id, args),
{
    lemma_first_success_of_filter(c1, catalogs, id, args);
    lemma_first_success_of_filter(c2, catalogs, id, args);
}

proof fn lemma_first_success_of_filter(
    c: Seq<Seq<char>>,
    catalogs: Map<Seq<char>, Seq<char>>,
    id: Seq<char>,
    args: Option<Seq<(Seq<char>, Seq<char>)>>,
)
    ensures
        first_success(c, catalogs, id, args) == first_success(
            c.filter(|l: Seq<char>| catalogs.dom().contains(l)),
            catalogs,
            id,
            args,
        ),
    decreases c.len(),
{
    let p = |l: Seq<char>| catalogs.dom().contains(l);
    if c.len() > 0 {
        let rest = c.drop_first();
        lemma_first_success_of_filter(rest, catalogs, id, args);
        assert(c =~= seq![c[0]] + rest);
        rest.lemma_filter_prepend(c[0], p);
        if p(c[0]) {
            assert(c.filter(p) =~= seq![c[0]] + rest.filter(p));
            assert((seq![c[0]] + rest.filter(p))[0] == c[0]);
            assert((seq![c[0]] + rest.filter(p)).drop_first() =~= rest.filter(p));
        } else {
            assert(c.filter(p) =~= rest.filter(p));
        }
    }
}

} // verus!
