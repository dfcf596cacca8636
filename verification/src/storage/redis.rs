//! The backend that keeps the relation in a shared set store. It decides
//! which node to open and which commands make up each operation, and reads
//! the store's replies; opening the connection and sending the commands is
//! the caller's part. The store drops a set when its last member leaves, so
//! under this backend a tag that no item carries does not exist.

use vstd::prelude::*;
use crate::names::{names, all_distinct};
use crate::relation::Change;
use crate::store_model::{Command, StoreState, tag_plan, untag_plan, store_members, store_exists, store_after, lemma_store_symmetry};

verus! {

/// Why an operation of an index failed.
#[derive(Debug, Clone, Copy, PartialEq, Eq, Structural)]
pub enum IndexError {
    /// The configuration names no node to connect to.
    Configuration,
    /// The operation needs a started backend, and this one is not started.
    NotStarted,
    /// The store could not be reached, refused a command, or sent a reply
    /// that does not fit the command.
    Backend,
}

/// One command for the set store.
#[derive(Debug, PartialEq, Eq)]
pub enum SetCommand {
    /// Put `member` into the set under `key`.
    Add { key: String, member: String },
    /// Take `member` out of the set under `key`.
    Remove { key: String, member: String },
    /// Ask for the members of the set under `key`.
    Members { key: String },
    /// Ask whether `key` exists.
    Exists { key: String },
}

/// What came back for one command.
#[derive(Debug, PartialEq, Eq)]
pub enum SetReply {
    /// A change was carried out.
    Done,
    /// The members of a set.
    Members(Vec<String>),
    /// Whether a key exists.
    Exists(bool),
    /// The store could not be reached or reported an error.
    Failed,
}

impl View for SetCommand {
    type V = Command;

    open spec fn view(&self) -> Command {
        match self {
            SetCommand::Add { key, member } => Command::Add { key: key@, member: member@ },
            SetCommand::Remove { key, member } => Command::Remove { key: key@, member: member@ },
            SetCommand::Members { key } => Command::Members { key: key@ },
            SetCommand::Exists { key } => Command::Exists { key: key@ },
        }
    }
}

/// The commands that a list of commands stands for, in order.
pub open spec fn commands(plan: Seq<SetCommand>) -> Seq<Command> {
    plan.map_values(|c: SetCommand| c@)
}

/// The index over a shared set store: the configured nodes, and the address
/// of the node it was started on, if it is started. Only the first node is
/// ever used; the others are kept and never opened.
pub struct RedisTagIndex {
    cluster_nodes: Vec<String>,
    redis_conn: Option<String>,
}

impl RedisTagIndex {
    /// The configured node addresses, in order.
    pub closed spec fn nodes(&self) -> Seq<Seq<char>> {
        names(self.cluster_nodes@)
    }

    /// The address of the node that the index was started on; `None` while it
    /// is not started.
    pub closed spec fn opened(&self) -> Option<Seq<char>> {
        match self.redis_conn {
            Some(address) => Some(address@),
            None => None,
        }
    }

    /// Whether the index is started.
    pub open spec fn started(&self) -> bool {
        self.opened().is_some()
    }

    /// An index over the given nodes, not yet started. The list is taken as
    /// it is; an empty one is refused by `start`.
    pub fn new_from_redis_nodelist(cluster_nodes: Vec<String>) -> (r: RedisTagIndex)
        ensures
            r.nodes() == names(cluster_nodes@),
            !r.started(),
    {
        RedisTagIndex { cluster_nodes, redis_conn: None }
    }

    /// Whether the index is started.
    pub fn is_started(&self) -> (r: bool)
        ensures
            r == self.started(),
    {
        self.redis_conn.is_some()
    }

    /// Starts the index on the first configured node and returns that node's
    /// address, which the caller opens. With no node configured nothing
    /// changes and the configuration is reported as the error.
    pub fn start(&mut self) -> (r: Result<String, IndexError>)
        ensures
            final(self).nodes() == old(self).nodes(),
            old(self).nodes().len() == 0 ==> r == Err::<String, IndexError>(
                IndexError::Configuration,
            ) && final(self).opened() == old(self).opened(),
            old(self).nodes().len() > 0 ==> r.is_ok() && r.unwrap()@ == old(self).nodes()[0]
                && final(self).opened() == Some(old(self).nodes()[0]),
    {
        if self.cluster_nodes.len() == 0 {
            return Err(IndexError::Configuration);
        }
        let address = self.cluster_nodes[0].clone();
        self.redis_conn = Some(address.clone());
        Ok(address)
    }

    /// Takes note that the address handed out by `start` could not be opened:
    /// the index is stopped again, and the fault lies in the configuration.
    pub fn open_failed(&mut self) -> (r: IndexError)
        ensures
            final(self).nodes() == old(self).nodes(),
            !final(self).started(),
            r == IndexError::Configuration,
    {
        self.redis_conn = None;
        IndexError::Configuration
    }

    /// Stops the index. Stopping one that is not started changes nothing,
    /// and a stopped index can be started again.
    pub fn shutdown(&mut self)
        ensures
            final(self).nodes() == old(self).nodes(),
            !final(self).started(),
    {
        self.redis_conn = None;
    }

    /// The commands that give the item `key` the tag `tag`: the tag into the
    /// item's set, then the item into the tag's set. The two are separate
    /// commands; between them the store holds one direction only.
    pub fn tag_item(&self, key: &str, tag: &str) -> (r: Result<Vec<SetCommand>, IndexError>)
        ensures
            self.started() ==> r.is_ok() && commands(r.unwrap()@) == tag_plan(key@, tag@),
            !self.started() ==> r == Err::<Vec<SetCommand>, IndexError>(IndexError::NotStarted),
    {
        if self.redis_conn.is_none() {
            return Err(IndexError::NotStarted);
        }
        let mut plan: Vec<SetCommand> = Vec::new();
        plan.push(SetCommand::Add { key: key.to_owned(), member: tag.to_owned() });
        plan.push(SetCommand::Add { key: tag.to_owned(), member: key.to_owned() });
        assert(commands(plan@) =~= tag_plan(key@, tag@));
        Ok(plan)
    }

    /// The commands that take `tag` from the item `key`: the item out of the
    /// tag's set, then the tag out of the item's set.
    pub fn untag_item(&self, key: &str, tag: &str) -> (r: Result<Vec<SetCommand>, IndexError>)
        ensures
            self.started() ==> r.is_ok() && commands(r.unwrap()@) == untag_plan(key@, tag@),
            !self.started() ==> r == Err::<Vec<SetCommand>, IndexError>(IndexError::NotStarted),
    {
        if self.redis_conn.is_none() {
            return Err(IndexError::NotStarted);
        }
        let mut plan: Vec<SetCommand> = Vec::new();
        plan.push(SetCommand::Remove { key: tag.to_owned(), member: key.to_owned() });
        plan.push(SetCommand::Remove { key: key.to_owned(), member: tag.to_owned() });
        assert(commands(plan@) =~= untag_plan(key@, tag@));
        Ok(plan)
    }

    /// The question whose answer is the tags of the item `key`: the members
    /// of the set under the item.
    pub fn retrieve_tags_for_item(&self, key: &str) -> (r: Result<SetCommand, IndexError>)
        ensures
            self.started() ==> r.is_ok() && r.unwrap()@ == (Command::Members { key: key@ }),
            !self.started() ==> r == Err::<SetCommand, IndexError>(IndexError::NotStarted),
    {
        if self.redis_conn.is_none() {
            return Err(IndexError::NotStarted);
        }
        Ok(SetCommand::Members { key: key.to_owned() })
    }

    /// The question whose answer is the items that carry `tag`: the members
    /// of the set under the tag.
    pub fn retrieve_items_with_tag(&self, tag: &str) -> (r: Result<SetCommand, IndexError>)
        ensures
            self.started() ==> r.is_ok() && r.unwrap()@ == (Command::Members { key: tag@ }),
            !self.started() ==> r == Err::<SetCommand, IndexError>(IndexError::NotStarted),
    {
        if self.redis_conn.is_none() {
            return Err(IndexError::NotStarted);
        }
        Ok(SetCommand::Members { key: tag.to_owned() })
    }

    /// The question whose answer is whether `tag` exists: whether the store
    /// has the key of the tag's set.
    pub fn tag_exists(&self, tag: &str) -> (r: Result<SetCommand, IndexError>)
        ensures
            self.started() ==> r.is_ok() && r.unwrap()@ == (Command::Exists { key: tag@ }),
            !self.started() ==> r == Err::<SetCommand, IndexError>(IndexError::NotStarted),
    {
        if self.redis_conn.is_none() {
            return Err(IndexError::NotStarted);
        }
        Ok(SetCommand::Exists { key: tag.to_owned() })
    }
}

/// What reading the reply to a change gives: done, or a failure of the
/// backend.
pub open spec fn done_read(reply: SetReply) -> Result<(), IndexError> {
    match reply {
        SetReply::Done => Ok(()),
        _ => Err(IndexError::Backend),
    }
}

/// What reading the reply to a question for members gives: the members as
/// they came, where each stands once; else a failure of the backend.
pub open spec fn members_read(reply: SetReply) -> Result<Vec<String>, IndexError> {
    match reply {
        SetReply::Members(list) => if names(list@).no_duplicates() {
            Ok(list)
        } else {
            Err(IndexError::Backend)
        },
        _ => Err(IndexError::Backend),
    }
}

/// What reading the reply to a question for existence gives: the answer, or
/// a failure of the backend.
pub open spec fn exists_read(reply: SetReply) -> Result<bool, IndexError> {
    match reply {
        SetReply::Exists(found) => Ok(found),
        _ => Err(IndexError::Backend),
    }
}

/// Whether `reply` is what a store in state `s` that works answers to `c`.
pub open spec fn answers(s: StoreState, c: Command, reply: SetReply) -> bool {
    match c {
        Command::Add { .. } => reply == SetReply::Done,
        Command::Remove { .. } => reply == SetReply::Done,
        Command::Members { key } => match reply {
            SetReply::Members(list) => names(list@).no_duplicates() && names(list@).to_set()
                == store_members(s, key),
            _ => false,
        },
        Command::Exists { key } => reply == SetReply::Exists(store_exists(s, key)),
    }
}

/// Reads the reply to a change: carried out, or a failure of the backend.
pub fn done_from_reply(reply: SetReply) -> (r: Result<(), IndexError>)
    ensures
        r == done_read(reply),
{
    match reply {
        SetReply::Done => Ok(()),
        _ => Err(IndexError::Backend),
    }
}

/// Reads the reply to a question for members: the members as they came,
/// where each stands once. Any other reply is a failure of the backend,
/// never an empty set.
pub fn members_from_reply(reply: SetReply) -> (r: Result<Vec<String>, IndexError>)
    ensures
        r == members_read(reply),
{
    match reply {
        SetReply::Members(list) => {
            if all_distinct(&list) {
                Ok(list)
            } else {
                Err(IndexError::Backend)
            }
        },
        _ => Err(IndexError::Backend),
    }
}

/// Reads the reply to a question for existence. Any other reply is a failure
/// of the backend, never "does not exist".
pub fn exists_from_reply(reply: SetReply) -> (r: Result<bool, IndexError>)
    ensures
        r == exists_read(reply),
{
    match reply {
        SetReply::Exists(found) => Ok(found),
        _ => Err(IndexError::Backend),
    }
}

/// The answer of a working store to a question for members is read as the
/// set under the key, each member once; for a key that does not exist it is
/// read as no members, not as a failure.
pub proof fn lemma_members_are_read(s: StoreState, key: Seq<char>, reply: SetReply)
    requires
        answers(s, Command::Members { key }, reply),
    ensures
        members_read(reply).is_ok(),
        names(members_read(reply).unwrap()@).no_duplicates(),
        names(members_read(reply).unwrap()@).to_set() == store_members(s, key),
        !store_exists(s, key) ==> members_read(reply).unwrap()@.len() == 0,
{
    let list = members_read(reply).unwrap();
    if list@.len() > 0 {
        assert(names(list@)[0] == list@[0]@);
        assert(names(list@).to_set().contains(list@[0]@));
        assert(s.contains((key, list@[0]@)));
    }
}

/// The answer of a working store to a question for existence is read as
/// whether the key has any member.
pub proof fn lemma_existence_is_read(s: StoreState, key: Seq<char>, reply: SetReply)
    requires
        answers(s, Command::Exists { key }, reply),
    ensures
        exists_read(reply) == Ok::<bool, IndexError>(store_exists(s, key)),
{
}

/// After any sequence of completed taggings and untaggings on a store that
/// began empty, the tags read for an item hold a tag exactly when the items
/// read for that tag hold the item.
pub proof fn lemma_retrievals_mirror(
    cs: Seq<Change>,
    item: Seq<char>,
    tag: Seq<char>,
    tags_reply: SetReply,
    items_reply: SetReply,
)
    requires
        answers(store_after(Set::empty(), cs), Command::Members { key: item }, tags_reply),
        answers(store_after(Set::empty(), cs), Command::Members { key: tag }, items_reply),
    ensures
        members_read(tags_reply).is_ok(),
        members_read(items_reply).is_ok(),
        names(members_read(tags_reply).unwrap()@).contains(tag) <==> names(
            members_read(items_reply).unwrap()@,
        ).contains(item),
{
    let s = store_after(Set::empty(), cs);
    lemma_store_symmetry(cs, item, tag);
    lemma_members_are_read(s, item, tags_reply);
    lemma_members_are_read(s, tag, items_reply);
    let tags = names(members_read(tags_reply).unwrap()@);
    let items = names(members_read(items_reply).unwrap()@);
    assert(tags.contains(tag) <==> tags.to_set().contains(tag));
    assert(items.contains(item) <==> items.to_set().contains(item));
}

} // verus!
