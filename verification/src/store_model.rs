//! The model of a shared set store as the remote backend sees it: under each
//! key a set of members, and a key exists exactly while its set is not
//! empty. Items and tags share the one key space. The laws here say what the
//! backend's command plans do to such a store.

use vstd::prelude::*;
use crate::relation::Change;

verus! {

/// What the store holds: the pairs of a key and a member of its set.
pub type StoreState = Set<(Seq<char>, Seq<char>)>;

/// One command to the store.
pub ghost enum Command {
    /// Put `member` into the set under `key`.
    Add { key: Seq<char>, member: Seq<char> },
    /// Take `member` out of the set under `key`.
    Remove { key: Seq<char>, member: Seq<char> },
    /// Ask for the members of the set under `key`.
    Members { key: Seq<char> },
    /// Ask whether `key` exists.
    Exists { key: Seq<char> },
}

/// The members of the set under `key`.
pub open spec fn store_members(s: StoreState, key: Seq<char>) -> Set<Seq<char>> {
    Set::new(|m: Seq<char>| s.contains((key, m)))
}

/// Whether `key` exists: the store drops a set when its last member leaves.
pub open spec fn store_exists(s: StoreState, key: Seq<char>) -> bool {
    exists|m: Seq<char>| s.contains((key, m))
}

/// The store after one command. Questions change nothing.
pub open spec fn applied(s: StoreState, c: Command) -> StoreState {
    match c {
        Command::Add { key, member } => s.insert((key, member)),
        Command::Remove { key, member } => s.remove((key, member)),
        Command::Members { .. } => s,
        Command::Exists { .. } => s,
    }
}

/// The store after the commands of `plan`, first to last.
pub open spec fn run(s: StoreState, plan: Seq<Command>) -> StoreState
    decreases plan.len(),
{
    if plan.len() == 0 {
        s
    } else {
        applied(run(s, plan.drop_last()), plan.last())
    }
}

/// The commands that tag `item` with `tag`: the tag into the item's set,
/// then the item into the tag's set.
pub open spec fn tag_plan(item: Seq<char>, tag: Seq<char>) -> Seq<Command> {
    seq![Command::Add { key: item, member: tag }, Command::Add { key: tag, member: item }]
}

/// The commands that take `tag` from `item`: the item out of the tag's set,
/// then the tag out of the item's set.
pub open spec fn untag_plan(item: Seq<char>, tag: Seq<char>) -> Seq<Command> {
    seq![Command::Remove { key: tag, member: item }, Command::Remove { key: item, member: tag }]
}

/// The commands that make one change.
pub open spec fn plan_of(c: Change) -> Seq<Command> {
    match c {
        Change::Tag { item, tag } => tag_plan(item, tag),
        Change::Untag { item, tag } => untag_plan(item, tag),
    }
}

/// The store after the plans of the changes of `cs` have run, first to last.
pub open spec fn store_after(s: StoreState, cs: Seq<Change>) -> StoreState
    decreases cs.len(),
{
    if cs.len() == 0 {
        s
    } else {
        run(store_after(s, cs.drop_last()), plan_of(cs.last()))
    }
}

/// The two directions agree: `b` is under `a` exactly when `a` is under `b`.
pub open spec fn symmetric(s: StoreState) -> bool {
    forall|a: Seq<char>, b: Seq<char>| #[trigger] s.contains((a, b)) <==> s.contains((b, a))
}

/// A plan of two commands runs the first, then the second.
pub proof fn lemma_run_two(s: StoreState, first: Command, second: Command)
    ensures
        run(s, seq![first, second]) == applied(applied(s, first), second),
{
    let plan = seq![first, second];
    assert(plan.drop_last() =~= seq![first]);
    assert(seq![first].drop_last() =~= Seq::<Command>::empty());
    reveal_with_fuel(run, 3);
}

/// What tagging leaves in the store: the pair in both directions, added to
/// what was there.
pub proof fn lemma_tag_plan_runs(s: StoreState, item: Seq<char>, tag: Seq<char>)
    ensures
        run(s, tag_plan(item, tag)) == s.insert((item, tag)).insert((tag, item)),
{
    lemma_run_two(
        s,
        Command::Add { key: item, member: tag },
        Command::Add { key: tag, member: item },
    );
}

/// What untagging leaves in the store: what was there but the pair, in
/// either direction.
pub proof fn lemma_untag_plan_runs(s: StoreState, item: Seq<char>, tag: Seq<char>)
    ensures
        run(s, untag_plan(item, tag)) == s.remove((tag, item)).remove((item, tag)),
{
    lemma_run_two(
        s,
        Command::Remove { key: tag, member: item },
        Command::Remove { key: item, member: tag },
    );
}

/// Once both commands of a tagging have run, the two directions agree again.
pub proof fn lemma_tag_plan_symmetric(s: StoreState, item: Seq<char>, tag: Seq<char>)
    requires
        symmetric(s),
    ensures
        symmetric(run(s, tag_plan(item, tag))),
{
    lemma_tag_plan_runs(s, item, tag);
    let n = run(s, tag_plan(item, tag));
    assert forall|a: Seq<char>, b: Seq<char>| #[trigger] n.contains((a, b)) <==> n.contains((b, a)) by {
        assert(s.contains((a, b)) <==> s.contains((b, a)));
    }
}

/// Once both commands of an untagging have run, the two directions agree
/// again.
pub proof fn lemma_untag_plan_symmetric(s: StoreState, item: Seq<char>, tag: Seq<char>)
    requires
        symmetric(s),
    ensures
        symmetric(run(s, untag_plan(item, tag))),
{
    lemma_untag_plan_runs(s, item, tag);
    let n = run(s, untag_plan(item, tag));
    assert forall|a: Seq<char>, b: Seq<char>| #[trigger] n.contains((a, b)) <==> n.contains((b, a)) by {
        assert(s.contains((a, b)) <==> s.contains((b, a)));
    }
}

/// After any sequence of completed taggings and untaggings on a store that
/// began empty, the tag is in the item's set exactly when the item is in the
/// tag's set.
pub proof fn lemma_store_symmetry(cs: Seq<Change>, item: Seq<char>, tag: Seq<char>)
    ensures
        symmetric(store_after(Set::empty(), cs)),
        store_members(store_after(Set::empty(), cs), item).contains(tag) <==> store_members(
            store_after(Set::empty(), cs),
            tag,
        ).contains(item),
    decreases cs.len(),
{
    let end = store_after(Set::empty(), cs);
    if cs.len() > 0 {
        let before = store_after(Set::empty(), cs.drop_last());
        lemma_store_symmetry(cs.drop_last(), item, tag);
        match cs.last() {
            Change::Tag { item: i, tag: t } => lemma_tag_plan_symmetric(before, i, t),
            Change::Untag { item: i, tag: t } => lemma_untag_plan_symmetric(before, i, t),
        }
    }
    assert(end.contains((item, tag)) <==> end.contains((tag, item)));
}

/// Between the two commands of a tagging the store holds one direction
/// only: where the pair is new and item and tag differ, the two directions
/// disagree until the second command has run.
pub proof fn lemma_half_tagged(s: StoreState, item: Seq<char>, tag: Seq<char>)
    requires
        symmetric(s),
        !s.contains((item, tag)),
        item != tag,
    ensures
        !symmetric(applied(s, tag_plan(item, tag)[0])),
{
    let half = applied(s, tag_plan(item, tag)[0]);
    assert(half.contains((item, tag)));
    assert(s.contains((item, tag)) <==> s.contains((tag, item)));
    assert(!half.contains((tag, item)));
}

/// Items and tags share one key space: tagging `a` with `b` leaves the store
/// as tagging `b` with `a` does.
pub proof fn lemma_tag_plan_has_no_direction(s: StoreState, a: Seq<char>, b: Seq<char>)
    ensures
        run(s, tag_plan(a, b)) == run(s, tag_plan(b, a)),
{
    lemma_tag_plan_runs(s, a, b);
    lemma_tag_plan_runs(s, b, a);
    assert(s.insert((a, b)).insert((b, a)) =~= s.insert((b, a)).insert((a, b)));
}

/// Running the tagging of a pair a second time changes nothing.
pub proof fn lemma_tag_plan_twice(s: StoreState, item: Seq<char>, tag: Seq<char>)
    ensures
        run(run(s, tag_plan(item, tag)), tag_plan(item, tag)) == run(s, tag_plan(item, tag)),
{
    let once = run(s, tag_plan(item, tag));
    lemma_tag_plan_runs(s, item, tag);
    lemma_tag_plan_runs(once, item, tag);
    assert(once.insert((item, tag)).insert((tag, item)) =~= once);
}

/// Untagging a pair that is not in the store changes nothing.
pub proof fn lemma_untag_plan_absent(s: StoreState, item: Seq<char>, tag: Seq<char>)
    requires
        symmetric(s),
        !store_members(s, item).contains(tag),
    ensures
        run(s, untag_plan(item, tag)) == s,
{
    lemma_untag_plan_runs(s, item, tag);
    assert(s.contains((item, tag)) <==> s.contains((tag, item)));
    assert(s.remove((tag, item)).remove((item, tag)) =~= s);
}

/// In the empty store no key exists and every set is empty, and an
/// untagging there leaves it empty.
pub proof fn lemma_empty_store(item: Seq<char>, tag: Seq<char>)
    ensures
        store_members(Set::empty(), item) == Set::<Seq<char>>::empty(),
        !store_exists(Set::empty(), tag),
        run(Set::empty(), untag_plan(item, tag)) == Set::<(Seq<char>, Seq<char>)>::empty(),
{
    let e = Set::<(Seq<char>, Seq<char>)>::empty();
    lemma_untag_plan_runs(e, item, tag);
    assert(store_members(e, item) =~= Set::<Seq<char>>::empty());
    assert(e.remove((tag, item)).remove((item, tag)) =~= e);
}

/// After a tagging the tag exists and each side lists the other.
pub proof fn lemma_tagged_exists(s: StoreState, item: Seq<char>, tag: Seq<char>)
    ensures
        store_exists(run(s, tag_plan(item, tag)), tag),
        store_members(run(s, tag_plan(item, tag)), tag).contains(item),
        store_members(run(s, tag_plan(item, tag)), item).contains(tag),
{
    lemma_tag_plan_runs(s, item, tag);
    assert(run(s, tag_plan(item, tag)).contains((tag, item)));
}

/// Emptied sets are dropped: where no other member is under the tag, the tag
/// no longer exists once it was given to an item and taken away again.
pub proof fn lemma_emptied_tag_is_gone(s: StoreState, item: Seq<char>, tag: Seq<char>)
    requires
        forall|m: Seq<char>| s.contains((tag, m)) ==> m == item,
    ensures
        !store_exists(run(run(s, tag_plan(item, tag)), untag_plan(item, tag)), tag),
{
    let mid = run(s, tag_plan(item, tag));
    lemma_tag_plan_runs(s, item, tag);
    lemma_untag_plan_runs(mid, item, tag);
    let end = run(mid, untag_plan(item, tag));
    assert forall|m: Seq<char>| !end.contains((tag, m)) by {
        if end.contains((tag, m)) {
            assert(mid.contains((tag, m)));
            assert(m != item);
            assert(s.contains((tag, m)) || (tag, m) == (item, tag));
        }
    }
}

} // verus!
