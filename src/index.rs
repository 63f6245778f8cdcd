//! The title index: normalized page title → page id, kept in a
//! `hashbrown::HashMap`.
use vstd::prelude::*;

verus! {

/// Page title → page id of the pages of the main namespace.
#[verifier::external_body]
pub struct TitleIndex {
    map: hashbrown::HashMap<String, u32>,
}

/// The entries of a title index, titles as characters.
pub uninterp spec fn title_entries(index: TitleIndex) -> Map<Seq<char>, u32>;

pub open spec fn no_titles() -> Map<Seq<char>, u32> {
    Map::empty()
}

impl View for TitleIndex {
    type V = Map<Seq<char>, u32>;

    open spec fn view(&self) -> Map<Seq<char>, u32> {
        title_entries(*self)
    }
}

impl TitleIndex {
    /// Relies on `hashbrown::HashMap::new`: a map with no entries.
    #[verifier::external_body]
    pub(crate) fn new() -> (r: TitleIndex)
        ensures
            title_entries(r) == no_titles(),
    {
        TitleIndex { map: hashbrown::HashMap::new() }
    }

    /// Relies on `hashbrown::HashMap::insert`: the title maps to `id`
    /// afterwards, replacing an earlier id; other entries stay.
    #[verifier::external_body]
    pub(crate) fn insert(&mut self, title: String, id: u32)
        ensures
            title_entries(*final(self)) == title_entries(*old(self)).insert(title@, id),
    {
        self.map.insert(title, id);
    }

    /// Relies on `hashbrown::HashMap::get` with a `&str` key, which hashes and
    /// compares as the `String` keys do.
    #[verifier::external_body]
    pub(crate) fn get(&self, title: &str) -> (r: Option<u32>)
        ensures
            r == (if title_entries(*self).contains_key(title@) {
                Some(title_entries(*self)[title@])
            } else {
                None
            }),
    {
        self.map.get(title).copied()
    }

    /// Relies on `hashbrown::HashMap::iter`: every entry once, in an order
    /// that the map's hasher decides.
    #[verifier::external_body]
    pub(crate) fn entries(&self) -> (r: Vec<(String, u32)>)
        ensures
            forall|i: int, j: int| 0 <= i < j < r.len() ==> r@[i].0@ != r@[j].0@,
            forall|i: int|
                0 <= i < r.len() ==> title_entries(*self).contains_key(#[trigger] r@[i].0@)
                    && title_entries(*self)[r@[i].0@] == r@[i].1,
            forall|k: Seq<char>|
                title_entries(*self).contains_key(k) ==> exists|i: int| 0 <= i < r.len() && #[trigger] r@[i].0@ == k,
    {
        self.map.iter().map(|(k, v)| (k.clone(), *v)).collect()
    }
}

} // verus!
