//! The backend that keeps the relation in local memory, as two tables: one
//! from each item to its tags and one from each tag to its items. Emptied
//! entries are kept, so a tag that was attached once is known for good.

use vstd::prelude::*;
use crate::names::names;
use crate::relation::{IndexState, empty_state, tagged, untagged, tags_for, items_with, knows_tag, mirrored, lemma_tagged_mirrored, lemma_untagged_mirrored, lemma_tag_present, lemma_untag_absent};
use crate::table::SetTable;

verus! {

/// The in-memory index. Its view is the pair of mappings it stands for.
pub struct MemoryTagIndex {
    by_key: SetTable,
    by_tag: SetTable,
}

impl View for MemoryTagIndex {
    type V = IndexState;

    closed spec fn view(&self) -> IndexState {
        IndexState { tags_of: self.by_key@, items_of: self.by_tag@ }
    }
}

impl MemoryTagIndex {
    /// Both tables are well formed and mirror each other.
    pub closed spec fn wf(&self) -> bool {
        &&& self.by_key.wf()
        &&& self.by_tag.wf()
        &&& mirrored(self@)
    }

    /// In a well-formed index an item carries a tag exactly when the tag
    /// lists the item.
    pub proof fn lemma_mirrored(&self, item: Seq<char>, tag: Seq<char>)
        requires
            self.wf(),
        ensures
            mirrored(self@),
            tags_for(self@, item).contains(tag) <==> items_with(self@, tag).contains(item),
    {
    }

    /// The index in which nothing was ever tagged.
    pub fn new() -> (r: MemoryTagIndex)
        ensures
            r.wf(),
            r@ == empty_state(),
    {
        MemoryTagIndex { by_key: SetTable::new(), by_tag: SetTable::new() }
    }

    /// Acquires nothing: this backend needs no resource.
    pub fn start(&mut self)
        ensures
            *final(self) == *old(self),
    {
    }

    /// Releases nothing: this backend holds no resource.
    pub fn shutdown(&mut self)
        ensures
            *final(self) == *old(self),
    {
    }

    /// Gives the item `key` the tag `tag`, on both sides. Both become known.
    pub fn tag_item(&mut self, key: &str, tag: &str)
        requires
            old(self).wf(),
        ensures
            final(self).wf(),
            final(self)@ == tagged(old(self)@, key@, tag@),
            tags_for(old(self)@, key@).contains(tag@) ==> final(self)@ == old(self)@,
    {
        proof {
            lemma_tagged_mirrored(self@, key@, tag@);
            if tags_for(self@, key@).contains(tag@) {
                lemma_tag_present(self@, key@, tag@);
            }
        }
        self.by_key.add(key, tag);
        self.by_tag.add(tag, key);
    }

    /// The tags that the item `key` carries, each once; none for an item
    /// that is not known.
    pub fn retrieve_tags_for_item(&self, key: &str) -> (r: Vec<String>)
        requires
            self.wf(),
        ensures
            names(r@).no_duplicates(),
            names(r@).to_set() == tags_for(self@, key@),
            !self@.tags_of.dom().contains(key@) ==> r@.len() == 0,
    {
        self.by_key.members(key)
    }

    /// The items that carry `tag`, each once; none for a tag that is not
    /// known.
    pub fn retrieve_items_with_tag(&self, tag: &str) -> (r: Vec<String>)
        requires
            self.wf(),
        ensures
            names(r@).no_duplicates(),
            names(r@).to_set() == items_with(self@, tag@),
            !knows_tag(self@, tag@) ==> r@.len() == 0,
    {
        self.by_tag.members(tag)
    }

    /// Takes `tag` from the item `key`, on both sides. Nothing changes where
    /// the pair is not tagged; what is known stays known.
    pub fn untag_item(&mut self, key: &str, tag: &str)
        requires
            old(self).wf(),
        ensures
            final(self).wf(),
            final(self)@ == untagged(old(self)@, key@, tag@),
            !tags_for(old(self)@, key@).contains(tag@) ==> final(self)@ == old(self)@,
    {
        proof {
            lemma_untagged_mirrored(self@, key@, tag@);
            if !tags_for(self@, key@).contains(tag@) {
                lemma_untag_absent(self@, key@, tag@);
            }
        }
        self.by_key.discard(key, tag);
        self.by_tag.discard(tag, key);
    }

    /// Whether `tag` is known: it was attached once, whether or not any item
    /// still carries it.
    pub fn tag_exists(&self, tag: &str) -> (r: bool)
        requires
            self.wf(),
        ensures
            r == knows_tag(self@, tag@),
    {
        self.by_tag.contains_key(tag)
    }
}

impl Default for MemoryTagIndex {
    fn default() -> (r: MemoryTagIndex)
        ensures
            r.wf(),
            r@ == empty_state(),
    {
        MemoryTagIndex::new()
    }
}

} // verus!
