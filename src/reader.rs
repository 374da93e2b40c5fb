//! Reading a localized file: an asset path `dir/name.ext` stands for the files
//! `dir/name/<tag>.ext` of the locales of the chain, tried in chain order.

use vstd::prelude::*;

use crate::language_id::{tags, LanguageId};

verus! {

/// What `Path::parent` of std gives for a path.
pub uninterp spec fn path_parent(path: Seq<char>) -> Option<Seq<char>>;

/// What `Path::file_stem` of std gives for a path.
pub uninterp spec fn path_file_stem(path: Seq<char>) -> Option<Seq<char>>;

/// What `Path::extension` of std gives for a path.
pub uninterp spec fn path_extension(path: Seq<char>) -> Option<Seq<char>>;

/// What `Path::join` of std gives for a base and a part.
pub uninterp spec fn path_join(base: Seq<char>, part: Seq<char>) -> Seq<char>;

/// Relies on `Path::parent` of std: the path without its last component.
#[verifier::external_body]
fn parent_of(path: &str) -> (r: Option<String>)
    ensures
        r is Some <==> path_parent(path@) is Some,
        r is Some ==> r->0@ == path_parent(path@)->0,
{
    std::path::Path::new(path).parent().map(|p| p.to_string_lossy().into_owned())
}

/// Relies on `Path::file_stem` of std: the file name without its extension.
#[verifier::external_body]
fn file_stem_of(path: &str) -> (r: Option<String>)
    ensures
        r is Some <==> path_file_stem(path@) is Some,
        r is Some ==> r->0@ == path_file_stem(path@)->0,
{
    std::path::Path::new(path).file_stem().map(|p| p.to_string_lossy().into_owned())
}

/// Relies on `Path::extension` of std: the extension of the file name.
#[verifier::external_body]
fn extension_of(path: &str) -> (r: Option<String>)
    ensures
        r is Some <==> path_extension(path@) is Some,
        r is Some ==> r->0@ == path_extension(path@)->0,
{
    std::path::Path::new(path).extension().map(|p| p.to_string_lossy().into_owned())
}

/// Relies on `Path::join` of std: the part appended to the base.
#[verifier::external_body]
fn join_path(base: &str, part: &str) -> (r: String)
    ensures
        r@ == path_join(base@, part@),
{
    std::path::Path::new(base).join(part).to_string_lossy().into_owned()
}

/// The file of a locale for an asset path: the directory of the path, then
/// the file stem as a folder, then `<tag>.<extension>`; nothing for a path
/// without a parent, a file stem or an extension.
pub open spec fn localized_path_spec(tag: Seq<char>, path: Seq<char>) -> Option<Seq<char>> {
    if path_parent(path) is Some && path_file_stem(path) is Some && path_extension(path) is Some {
        Some(
            path_join(
                path_join(path_parent(path)->0, path_file_stem(path)->0),
                tag + seq!['.'] + path_extension(path)->0,
            ),
        )
    } else {
        None
    }
}

/// The next move while reading a localized file.
#[derive(Debug, PartialEq, Eq, Clone, Copy, Structural)]
pub enum ReadStep {
    /// Read the candidate at this position of the chain.
    Read(usize),
    /// The candidate at this position answered: hand its answer on.
    Done(usize),
    /// No candidate exists.
    NotFound,
}

/// Reads assets through the locale chain.
pub struct LocalizedAssetReader {
    locale_chain: Vec<LanguageId>,
}

impl LocalizedAssetReader {
    /// A reader for the chain.
    pub fn new(locale_chain: Vec<LanguageId>) -> (r: LocalizedAssetReader)
        ensures
            r.chain_spec() == tags(locale_chain@),
    {
        LocalizedAssetReader { locale_chain }
    }

    /// The chain of the reader.
    pub closed spec fn chain_spec(&self) -> Seq<Seq<char>> {
        tags(self.locale_chain@)
    }

    /// The file of `locale` for an asset path.
    pub fn localized_path(locale: &LanguageId, path: &str) -> (r: Option<String>)
        ensures
            r is Some <==> localized_path_spec(locale@, path@) is Some,
            r is Some ==> r->0@ == localized_path_spec(locale@, path@)->0,
    {
        let base = parent_of(path);
        let stem = file_stem_of(path);
        let extension = extension_of(path);
        match (base, stem, extension) {
            (Some(base), Some(stem), Some(extension)) => {
                let folder = join_path(base.as_str(), stem.as_str());
                let mut name = locale.to_string();
                proof {
                    reveal_strlit(".");
                }
                name.append(".");
                name.append(extension.as_str());
                assert(name@ =~= locale@ + seq!['.'] + extension@);
                Some(join_path(folder.as_str(), name.as_str()))
            },
            _ => None,
        }
    }

    /// The files of the chain's locales for an asset path, in chain order;
    /// nothing for a path without a parent, a file stem or an extension.
    pub fn localized_path_chain(&self, path: &str) -> (r: Option<Vec<String>>)
        ensures
            r is Some <==> (self.chain_spec().len() == 0 || localized_path_spec(
                self.chain_spec()[0],
                path@,
            ) is Some),
            r is Some ==> r->0@.len() == self.chain_spec().len() && forall|i: int|
                0 <= i < self.chain_spec().len() ==> localized_path_spec(
                    #[trigger] self.chain_spec()[i],
                    path@,
                ) == Some(r->0@[i]@),
    {
        let mut paths: Vec<String> = Vec::new();
        let mut i: usize = 0;
        while i < self.locale_chain.len()
            invariant
                i <= self.locale_chain@.len(),
                paths@.len() == i,
                forall|j: int|
                    0 <= j < i ==> localized_path_spec(
                        #[trigger] tags(self.locale_chain@)[j],
                        path@,
                    ) == Some(paths@[j]@),
                i > 0 ==> localized_path_spec(tags(self.locale_chain@)[0], path@) is Some,
            decreases self.locale_chain.len() - i,
        {
            match LocalizedAssetReader::localized_path(&self.locale_chain[i], path) {
                Some(p) => paths.push(p),
                None => {
                    proof {
                        // the parts of the path do not depend on the locale
                        assert(localized_path_spec(tags(self.locale_chain@)[0], path@) is None);
                    }
                    return None;
                },
            }
            i = i + 1;
        }
        Some(paths)
    }

    /// Where reading starts: the first candidate, if there is one.
    pub fn first_read_step(&self) -> (r: ReadStep)
        ensures
            self.chain_spec().len() == 0 ==> r == ReadStep::NotFound,
            self.chain_spec().len() > 0 ==> r == ReadStep::Read(0),
    {
        if self.locale_chain.len() == 0 {
            ReadStep::NotFound
        } else {
            ReadStep::Read(0)
        }
    }

    /// The move after reading candidate `attempt`: a missing file passes on to
    /// the next candidate, or ends the read as not found after the last one;
    /// any other answer, success or error, is handed on.
    pub fn next_read_step(&self, attempt: usize, missing: bool) -> (r: ReadStep)
        requires
            attempt < self.chain_spec().len(),
        ensures
            !missing ==> r == ReadStep::Done(attempt),
            missing && attempt + 1 < self.chain_spec().len() ==> r == ReadStep::Read(
                (attempt + 1) as usize,
            ),
            missing && attempt + 1 == self.chain_spec().len() ==> r == ReadStep::NotFound,
    {
        if !missing {
            ReadStep::Done(attempt)
        } else if attempt < self.locale_chain.len() - 1 {
            ReadStep::Read(attempt + 1)
        } else {
            ReadStep::NotFound
        }
    }
}

} // verus!
