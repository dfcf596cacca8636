//! The mathematical model of the index: two mappings from a name to a set of
//! names, one keyed by item and one keyed by tag, and the laws that tagging
//! and untagging obey on them.

use vstd::prelude::*;

verus! {

/// A mapping from a name to the set of names filed under it.
pub type SetMap = Map<Seq<char>, Set<Seq<char>>>;

/// What is filed under `key`: nothing where the key is unknown.
pub open spec fn members_of(m: SetMap, key: Seq<char>) -> Set<Seq<char>> {
    if m.dom().contains(key) {
        m[key]
    } else {
        Set::empty()
    }
}

/// `m` with `member` filed under `key`; an unknown key becomes known.
pub open spec fn with_member(m: SetMap, key: Seq<char>, member: Seq<char>) -> SetMap {
    m.insert(key, members_of(m, key).insert(member))
}

/// `m` with `member` no longer filed under `key`. A known key stays known,
/// even with nothing left under it; an unknown key stays unknown.
pub open spec fn without_member(m: SetMap, key: Seq<char>, member: Seq<char>) -> SetMap {
    if m.dom().contains(key) {
        m.insert(key, m[key].remove(member))
    } else {
        m
    }
}

/// The state of an index that keeps emptied entries.
pub ghost struct IndexState {
    /// Item to the tags it carries.
    pub tags_of: SetMap,
    /// Tag to the items that carry it.
    pub items_of: SetMap,
}

/// The state in which nothing was ever tagged.
pub open spec fn empty_state() -> IndexState {
    IndexState { tags_of: Map::empty(), items_of: Map::empty() }
}

/// The tags that `item` carries in `s`.
pub open spec fn tags_for(s: IndexState, item: Seq<char>) -> Set<Seq<char>> {
    members_of(s.tags_of, item)
}

/// The items that carry `tag` in `s`.
pub open spec fn items_with(s: IndexState, tag: Seq<char>) -> Set<Seq<char>> {
    members_of(s.items_of, tag)
}

/// Whether `tag` is known in `s`: it was attached once, whatever became of it.
pub open spec fn knows_tag(s: IndexState, tag: Seq<char>) -> bool {
    s.items_of.dom().contains(tag)
}

/// The two mappings are mirror images: an item carries a tag exactly when the
/// tag lists the item.
pub open spec fn mirrored(s: IndexState) -> bool {
    forall|item: Seq<char>, tag: Seq<char>|
        #![trigger tags_for(s, item).contains(tag)]
        #![trigger items_with(s, tag).contains(item)]
        tags_for(s, item).contains(tag) <==> items_with(s, tag).contains(item)
}

/// `s` after `item` was given `tag`.
pub open spec fn tagged(s: IndexState, item: Seq<char>, tag: Seq<char>) -> IndexState {
    IndexState {
        tags_of: with_member(s.tags_of, item, tag),
        items_of: with_member(s.items_of, tag, item),
    }
}

/// `s` after `tag` was taken from `item`.
pub open spec fn untagged(s: IndexState, item: Seq<char>, tag: Seq<char>) -> IndexState {
    IndexState {
        tags_of: without_member(s.tags_of, item, tag),
        items_of: without_member(s.items_of, tag, item),
    }
}

/// One change to an index.
pub ghost enum Change {
    /// Give the item the tag.
    Tag { item: Seq<char>, tag: Seq<char> },
    /// Take the tag from the item.
    Untag { item: Seq<char>, tag: Seq<char> },
}

/// `s` after one change.
pub open spec fn changed(s: IndexState, c: Change) -> IndexState {
    match c {
        Change::Tag { item, tag } => tagged(s, item, tag),
        Change::Untag { item, tag } => untagged(s, item, tag),
    }
}

/// `s` after the changes of `cs`, first to last.
pub open spec fn replayed(s: IndexState, cs: Seq<Change>) -> IndexState
    decreases cs.len(),
{
    if cs.len() == 0 {
        s
    } else {
        changed(replayed(s, cs.drop_last()), cs.last())
    }
}

/// Tagging keeps the two mappings mirror images.
pub proof fn lemma_tagged_mirrored(s: IndexState, item: Seq<char>, tag: Seq<char>)
    requires
        mirrored(s),
    ensures
        mirrored(tagged(s, item, tag)),
{
    let n = tagged(s, item, tag);
    assert forall|i: Seq<char>, t: Seq<char>|
        tags_for(n, i).contains(t) <==> items_with(n, t).contains(i) by {
        assert(tags_for(s, i).contains(t) <==> items_with(s, t).contains(i));
        assert(tags_for(n, i).contains(t) <==> tags_for(s, i).contains(t) || (i == item && t
            == tag));
        assert(items_with(n, t).contains(i) <==> items_with(s, t).contains(i) || (i == item
            && t == tag));
    }
}

/// Untagging keeps the two mappings mirror images.
pub proof fn lemma_untagged_mirrored(s: IndexState, item: Seq<char>, tag: Seq<char>)
    requires
        mirrored(s),
    ensures
        mirrored(untagged(s, item, tag)),
{
    let n = untagged(s, item, tag);
    assert forall|i: Seq<char>, t: Seq<char>|
        tags_for(n, i).contains(t) <==> items_with(n, t).contains(i) by {
        assert(tags_for(s, i).contains(t) <==> items_with(s, t).contains(i));
        assert(tags_for(n, i).contains(t) <==> tags_for(s, i).contains(t) && !(i == item && t
            == tag));
        assert(items_with(n, t).contains(i) <==> items_with(s, t).contains(i) && !(i == item
            && t == tag));
    }
}

/// After any sequence of tagging and untagging from the empty index, an item
/// carries a tag exactly when the tag lists the item.
pub proof fn lemma_symmetry(cs: Seq<Change>, item: Seq<char>, tag: Seq<char>)
    ensures
        mirrored(replayed(empty_state(), cs)),
        tags_for(replayed(empty_state(), cs), item).contains(tag) <==> items_with(
            replayed(empty_state(), cs),
            tag,
        ).contains(item),
    decreases cs.len(),
{
    if cs.len() > 0 {
        let before = replayed(empty_state(), cs.drop_last());
        lemma_symmetry(cs.drop_last(), item, tag);
        match cs.last() {
            Change::Tag { item: i, tag: t } => lemma_tagged_mirrored(before, i, t),
            Change::Untag { item: i, tag: t } => lemma_untagged_mirrored(before, i, t),
        }
    }
}

/// Tagging a pair a second time changes nothing.
pub proof fn lemma_tag_twice(s: IndexState, item: Seq<char>, tag: Seq<char>)
    ensures
        tagged(tagged(s, item, tag), item, tag) == tagged(s, item, tag),
{
    let once = tagged(s, item, tag);
    let twice = tagged(once, item, tag);
    assert(members_of(once.tags_of, item).insert(tag) =~= members_of(once.tags_of, item));
    assert(members_of(once.items_of, tag).insert(item) =~= members_of(once.items_of, tag));
    assert(twice.tags_of =~= once.tags_of);
    assert(twice.items_of =~= once.items_of);
}

/// Untagging a pair that is not tagged changes nothing: no key becomes known
/// or unknown, and no set changes.
pub proof fn lemma_untag_absent(s: IndexState, item: Seq<char>, tag: Seq<char>)
    requires
        mirrored(s),
        !tags_for(s, item).contains(tag),
    ensures
        untagged(s, item, tag) == s,
{
    let n = untagged(s, item, tag);
    assert(!items_with(s, tag).contains(item));
    if s.tags_of.dom().contains(item) {
        assert(s.tags_of[item].remove(tag) =~= s.tags_of[item]);
    }
    if s.items_of.dom().contains(tag) {
        assert(s.items_of[tag].remove(item) =~= s.items_of[tag]);
    }
    assert(n.tags_of =~= s.tags_of);
    assert(n.items_of =~= s.items_of);
}

/// Tagging a pair that is tagged already changes nothing.
pub proof fn lemma_tag_present(s: IndexState, item: Seq<char>, tag: Seq<char>)
    requires
        mirrored(s),
        tags_for(s, item).contains(tag),
    ensures
        tagged(s, item, tag) == s,
{
    let n = tagged(s, item, tag);
    assert(items_with(s, tag).contains(item));
    assert(s.tags_of[item].insert(tag) =~= s.tags_of[item]);
    assert(s.items_of[tag].insert(item) =~= s.items_of[tag]);
    assert(n.tags_of =~= s.tags_of);
    assert(n.items_of =~= s.items_of);
}

/// No change makes a known item or a known tag unknown.
pub proof fn lemma_known_stays_known(s: IndexState, c: Change, name: Seq<char>)
    ensures
        s.tags_of.dom().contains(name) ==> changed(s, c).tags_of.dom().contains(name),
        s.items_of.dom().contains(name) ==> changed(s, c).items_of.dom().contains(name),
{
}

/// In the empty index every item has no tags and every tag has no items, and
/// untagging there leaves it empty.
pub proof fn lemma_unknown_is_empty(item: Seq<char>, tag: Seq<char>)
    ensures
        tags_for(empty_state(), item) == Set::<Seq<char>>::empty(),
        items_with(empty_state(), tag) == Set::<Seq<char>>::empty(),
        !knows_tag(empty_state(), tag),
        untagged(empty_state(), item, tag) == empty_state(),
{
}

/// Emptied entries are kept: a tag that was attached and then taken away
/// again is still known, and the pair is gone from both mappings.
pub proof fn lemma_emptied_tag_is_kept(s: IndexState, item: Seq<char>, tag: Seq<char>)
    ensures
        knows_tag(tagged(s, item, tag), tag),
        knows_tag(untagged(tagged(s, item, tag), item, tag), tag),
        !items_with(untagged(tagged(s, item, tag), item, tag), tag).contains(item),
        !tags_for(untagged(tagged(s, item, tag), item, tag), item).contains(tag),
{
}

} // verus!
