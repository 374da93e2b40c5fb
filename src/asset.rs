//! Assets that exist in one file per locale, such as images with text: the
//! handles of the files that the resolution chain needs.

use vstd::prelude::*;
use vstd::string::StringExecFns;

use crate::chain::LocaleResolutionChain;
use crate::language_id::{contains_id, tags, LanguageId};
use crate::locale_map::LocaleMap;
use crate::localization::{fresh_locales, handle_paths, SourceHandle};

verus! {

/// The path of a locale's file: `<folder>/<tag>.<extension>`.
pub open spec fn asset_path(folder: Seq<char>, tag: Seq<char>, extension: Seq<char>) -> Seq<char> {
    folder + seq!['/'] + tag + seq!['.'] + extension
}

/// The paths requested for the fresh locales of a chain.
pub open spec fn requested_asset_paths(
    folder: Seq<char>,
    extension: Seq<char>,
    known: Set<Seq<char>>,
    chain: Seq<Seq<char>>,
) -> Seq<Seq<char>> {
    fresh_locales(known, chain).map_values(|l: Seq<char>| asset_path(folder, l, extension))
}

/// A localized asset as values: its folder, its extension, and the locales
/// whose files were requested.
pub struct LocalizedAssetView {
    pub folder: Seq<char>,
    pub extension: Seq<char>,
    pub known: Set<Seq<char>>,
}

/// An asset with one file per locale, and the handles of the files requested.
pub struct LocalizedAsset {
    folder_path: String,
    extension: String,
    handle_map: LocaleMap<SourceHandle>,
}

impl View for LocalizedAsset {
    type V = LocalizedAssetView;

    closed spec fn view(&self) -> LocalizedAssetView {
        LocalizedAssetView {
            folder: self.folder_path@,
            extension: self.extension@,
            known: self.handle_map@.dom(),
        }
    }
}

impl LocalizedAsset {
    /// Each handle is the path of its locale's file.
    pub closed spec fn wf(&self) -> bool {
        forall|l: Seq<char>| #[trigger]
            self.handle_map@.dom().contains(l) ==> self.handle_map@[l] == asset_path(
                self.folder_path@,
                l,
                self.extension@,
            )
    }

    /// An asset of the folder, with files of the extension, and no file
    /// requested yet.
    pub fn new(folder_path: String, extension: String) -> (r: LocalizedAsset)
        ensures
            r.wf(),
            r@ == (LocalizedAssetView {
                folder: folder_path@,
                extension: extension@,
                known: Set::empty(),
            }),
    {
        let r = LocalizedAsset { folder_path, extension, handle_map: LocaleMap::new() };
        assert(r@.known =~= Set::empty());
        r
    }

    /// The path of the file of `locale_id`.
    pub fn get_asset_path(&self, locale_id: &LanguageId) -> (r: String)
        ensures
            r@ == asset_path(self@.folder, locale_id@, self@.extension),
    {
        let mut path = self.folder_path.clone();
        path.append("/");
        path.append(locale_id.as_str());
        path.append(".");
        path.append(self.extension.as_str());
        proof {
            reveal_strlit("/");
            reveal_strlit(".");
        }
        assert(path@ =~= asset_path(self@.folder, locale_id@, self@.extension));
        path
    }

    /// The handle of a locale's file, if it was requested.
    pub fn handle(&self, locale_id: &LanguageId) -> (r: Option<&SourceHandle>)
        requires
            self.wf(),
        ensures
            r is Some <==> self@.known.contains(locale_id@),
            r is Some ==> r->0@ == asset_path(self@.folder, locale_id@, self@.extension),
    {
        self.handle_map.get(locale_id)
    }

    /// Keeps the handles of exactly the locales of the chain: drops the others
    /// and requests the files of the new ones, which it returns in chain order,
    /// each once.
    pub fn update_on_locale_change(&mut self, chain: &Vec<LanguageId>) -> (requested: Vec<
        SourceHandle,
    >)
        requires
            old(self).wf(),
        ensures
            final(self).wf(),
            final(self)@ == (LocalizedAssetView { known: tags(chain@).to_set(), ..old(self)@ }),
            handle_paths(requested@) == requested_asset_paths(
                old(self)@.folder,
                old(self)@.extension,
                old(self)@.known,
                tags(chain@),
            ),
    {
        let ghost v0 = self@;
        let ghost c = tags(chain@);
        let ghost new_set = c.to_set();
        let loaded = self.handle_map.keys();
        let mut requested: Vec<SourceHandle> = Vec::new();
        let mut i: usize = 0;
        while i < chain.len()
            invariant
                i <= chain.len(),
                c == tags(chain@),
                self.wf(),
                self@.folder == v0.folder,
                self@.extension == v0.extension,
                forall|l: Seq<char>| #[trigger]
                    self.handle_map@.dom().contains(l) <==> (v0.known.contains(l) || c.take(
                        i as int,
                    ).contains(l)),
                handle_paths(requested@) == requested_asset_paths(
                    v0.folder,
                    v0.extension,
                    v0.known,
                    c.take(i as int),
                ),
            decreases chain.len() - i,
        {
            let ghost before = requested@;
            let ghost l = chain@[i as int]@;
            proof {
                assert(c.take(i + 1).drop_last() =~= c.take(i as int));
                assert(c.take(i + 1).last() == l);
            }
            if !self.handle_map.contains_key(&chain[i]) {
                let handle = SourceHandle::new(self.get_asset_path(&chain[i]));
                requested.push(handle.clone());
                self.handle_map.insert(chain[i].clone(), handle);
                assert(handle_paths(requested@) =~= handle_paths(before).push(
                    asset_path(v0.folder, l, v0.extension),
                ));
            }
            assert(handle_paths(requested@) =~= requested_asset_paths(
                v0.folder,
                v0.extension,
                v0.known,
                c.take(i + 1),
            ));
            i = i + 1;
        }
        assert(c.take(chain.len() as int) =~= c);
        let ghost added = self.handle_map@.dom();
        let mut j: usize = 0;
        while j < loaded.len()
            invariant
                j <= loaded.len(),
                c == tags(chain@),
                new_set == c.to_set(),
                forall|l: Seq<char>| tags(loaded@).contains(l) <==> v0.known.contains(l),
                forall|l: Seq<char>| #[trigger] added.contains(l) <==> (v0.known.contains(l)
                    || c.contains(l)),
                self.wf(),
                self@.folder == v0.folder,
                self@.extension == v0.extension,
                forall|l: Seq<char>| #[trigger]
                    self.handle_map@.dom().contains(l) <==> (added.contains(l) && (new_set.contains(
                        l,
                    ) || !tags(loaded@).take(j as int).contains(l))),
            decreases loaded.len() - j,
        {
            let ghost k = loaded@[j as int]@;
            proof {
                let t = tags(loaded@).take(j as int);
                assert(tags(loaded@).take(j + 1) =~= t.push(k));
                assert forall|l: Seq<char>| #[trigger] t.push(k).contains(l) <==> (t.contains(l) || l
                    == k) by {
                    if t.push(k).contains(l) {
                        let x = choose|x: int| 0 <= x < t.push(k).len() && t.push(k)[x] == l;
                        if x < t.len() {
                            assert(t[x] == l);
                        }
                    }
                    if t.contains(l) {
                        let x = choose|x: int| 0 <= x < t.len() && t[x] == l;
                        assert(t.push(k)[x] == l);
                    }
                    if l == k {
                        assert(t.push(k)[t.len() as int] == l);
                    }
                }
            }
            if !contains_id(chain, &loaded[j]) {
                self.handle_map.remove(&loaded[j]);
            }
            j = j + 1;
        }
        assert(tags(loaded@).take(loaded.len() as int) =~= tags(loaded@));
        assert(self@.known =~= new_set);
        requested
    }
}

/// The handles that updating each asset with `chain` requests, asset after
/// asset.
pub open spec fn asset_requests_of(assets: Seq<LocalizedAssetView>, chain: Seq<Seq<char>>) -> Seq<
    Seq<char>,
>
    decreases assets.len(),
{
    if assets.len() == 0 {
        Seq::empty()
    } else {
        asset_requests_of(assets.drop_last(), chain) + requested_asset_paths(
            assets.last().folder,
            assets.last().extension,
            assets.last().known,
            chain,
        )
    }
}

/// Brings every localized asset in line with the resolution chain when it
/// changed, and leaves them as they are otherwise. Returns the handles
/// requested, asset after asset.
pub fn update_asset_on_locale_changes(
    assets: &mut Vec<LocalizedAsset>,
    resolution_chain: &LocaleResolutionChain,
    changed: bool,
) -> (requested: Vec<SourceHandle>)
    requires
        forall|i: int| 0 <= i < old(assets)@.len() ==> #[trigger] old(assets)@[i].wf(),
    ensures
        final(assets)@.len() == old(assets)@.len(),
        forall|i: int| 0 <= i < final(assets)@.len() ==> #[trigger] final(assets)@[i].wf(),
        forall|i: int|
            0 <= i < old(assets)@.len() ==> #[trigger] final(assets)@[i]@ == (if changed {
                LocalizedAssetView { known: resolution_chain@.to_set(), ..old(assets)@[i]@ }
            } else {
                old(assets)@[i]@
            }),
        !changed ==> requested@.len() == 0,
        changed ==> handle_paths(requested@) == asset_requests_of(
            old(assets)@.map_values(|a: LocalizedAsset| a@),
            resolution_chain@,
        ),
{
    let mut requested: Vec<SourceHandle> = Vec::new();
    if !changed {
        return requested;
    }
    assert(Seq::<LocalizedAssetView>::empty().take(0) =~= Seq::<LocalizedAssetView>::empty());
    let chain = resolution_chain.chain();
    let mut rest: Vec<LocalizedAsset> = Vec::new();
    std::mem::swap(assets, &mut rest);
    let ghost all = rest@;
    let ghost start = all.map_values(|a: LocalizedAsset| a@);
    let total: usize = rest.len();
    let mut done: Vec<LocalizedAsset> = Vec::new();
    let mut k: usize = 0;
    while rest.len() > 0
        invariant
            k + rest@.len() == all.len(),
            all.len() == total,
            rest@ == all.skip(k as int),
            done@.len() == k,
            tags(chain@) == resolution_chain@,
            forall|i: int| 0 <= i < all.len() ==> #[trigger] all[i].wf(),
            forall|i: int| 0 <= i < k ==> #[trigger] done@[i].wf(),
            forall|i: int|
                0 <= i < k ==> #[trigger] done@[i]@ == (LocalizedAssetView {
                    known: resolution_chain@.to_set(),
                    ..all[i]@
                }),
            start == all.map_values(|a: LocalizedAsset| a@),
            handle_paths(requested@) == asset_requests_of(start.take(k as int), resolution_chain@),
        decreases rest.len(),
    {
        let mut asset = rest.remove(0);
        assert(asset == all[k as int]);
        assert(all.skip(k as int).drop_first() =~= all.skip(k + 1));
        assert(start.take(k + 1).drop_last() =~= start.take(k as int));
        assert(start.take(k + 1).last() == all[k as int]@);
        let ghost before = requested@;
        let mut more = asset.update_on_locale_change(chain);
        let ghost added = more@;
        requested.append(&mut more);
        assert(requested@ == before + added);
        assert(handle_paths(requested@) =~= handle_paths(before) + handle_paths(added));
        done.push(asset);
        k = k + 1;
    }
    std::mem::swap(assets, &mut done);
    assert(start.take(total as int) =~= start);
    requested
}

} // verus!
