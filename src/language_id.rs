//! Validated, normalized language identifiers.

use vstd::prelude::*;

verus! {

/// What `unic_langid` makes of a tag: the normalized form of the tag when it is
/// well formed, nothing otherwise.
pub uninterp spec fn langid_normalized(s: Seq<char>) -> Option<Seq<char>>;

/// Relies on `LanguageIdentifier::from_str` of unic-langid, which parses and
/// normalizes a tag, and on its `Display`, which writes the normalized tag.
#[verifier::external_body]
fn normalize_tag(s: &str) -> (r: Option<String>)
    ensures
        r is Some <==> langid_normalized(s@) is Some,
        r is Some ==> r->0@ == langid_normalized(s@)->0,
{
    s.parse::<unic_langid::LanguageIdentifier>().ok().map(|id| id.to_string())
}

/// The error of a tag that is not a well-formed language identifier.
#[derive(Debug, PartialEq, Eq, Clone, Copy, Structural)]
pub struct InvalidLanguageTag;

/// A language identifier such as `en-US`, held as its normalized tag.
///
/// Two identifiers are equal exactly when their normalized tags are equal.
#[derive(Debug)]
pub struct LanguageId {
    tag: String,
}

impl View for LanguageId {
    type V = Seq<char>;

    closed spec fn view(&self) -> Seq<char> {
        self.tag@
    }
}

/// The tags of a sequence of identifiers, in order.
pub open spec fn tags(s: Seq<LanguageId>) -> Seq<Seq<char>> {
    s.map_values(|l: LanguageId| l@)
}

impl LanguageId {
    /// Parses and normalizes a language tag.
    pub fn parse(s: &str) -> (r: Result<LanguageId, InvalidLanguageTag>)
        ensures
            r is Ok <==> langid_normalized(s@) is Some,
            r is Ok ==> r->Ok_0@ == langid_normalized(s@)->0,
    {
        match normalize_tag(s) {
            Some(tag) => Ok(LanguageId { tag }),
            None => Err(InvalidLanguageTag),
        }
    }

    /// The normalized tag.
    pub fn as_str(&self) -> (r: &str)
        ensures
            r@ == self@,
    {
        self.tag.as_str()
    }

    /// The normalized tag, as an owned string.
    pub fn to_string(&self) -> (r: String)
        ensures
            r@ == self@,
    {
        self.tag.clone()
    }

    /// Whether two identifiers have the same normalized tag.
    pub fn same_as(&self, other: &LanguageId) -> (r: bool)
        ensures
            r == (self@ == other@),
    {
        self.tag == other.tag
    }
}

impl Clone for LanguageId {
    fn clone(&self) -> (r: LanguageId)
        ensures
            r@ == self@,
    {
        LanguageId { tag: self.tag.clone() }
    }
}

impl PartialEq for LanguageId {
    fn eq(&self, other: &LanguageId) -> (r: bool) {
        self.tag == other.tag
    }
}

impl vstd::std_specs::cmp::PartialEqSpecImpl for LanguageId {
    open spec fn obeys_eq_spec() -> bool {
        true
    }

    open spec fn eq_spec(&self, other: &LanguageId) -> bool {
        self@ == other@
    }
}

/// Copies a sequence of identifiers.
pub fn clone_ids(ids: &Vec<LanguageId>) -> (r: Vec<LanguageId>)
    ensures
        tags(r@) == tags(ids@),
{
    let mut r: Vec<LanguageId> = Vec::new();
    let mut i: usize = 0;
    while i < ids.len()
        invariant
            i <= ids.len(),
            r.len() == i,
            tags(r@) == tags(ids@).take(i as int),
        decreases ids.len() - i,
    {
        let c = ids[i].clone();
        assert(c@ == ids@[i as int]@);
        let ghost before = r@;
        r.push(c);
        assert forall|j: int| 0 <= j < i + 1 implies tags(r@)[j] == tags(ids@).take(i + 1)[j] by {
            if j < i {
                assert(r@[j] == before[j]);
                assert(tags(before)[j] == tags(ids@).take(i as int)[j]);
            }
        }
        assert(tags(r@) =~= tags(ids@).take(i + 1));
        i = i + 1;
    }
    assert(tags(ids@).take(ids.len() as int) =~= tags(ids@));
    r
}

/// Whether `id` occurs in `ids`.
pub fn contains_id(ids: &Vec<LanguageId>, id: &LanguageId) -> (r: bool)
    ensures
        r == tags(ids@).contains(id@),
{
    let mut i: usize = 0;
    while i < ids.len()
        invariant
            i <= ids.len(),
            forall|j: int| 0 <= j < i ==> ids@[j]@ != id@,
        decreases ids.len() - i,
    {
        if ids[i].same_as(id) {
            assert(tags(ids@)[i as int] == id@);
            return true;
        }
        i = i + 1;
    }
    proof {
        if tags(ids@).contains(id@) {
            let j = choose|j: int| 0 <= j < tags(ids@).len() && tags(ids@)[j] == id@;
            assert(ids@[j]@ == id@);
        }
    }
    false
}

} // verus!
