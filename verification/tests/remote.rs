use std::collections::{BTreeSet, HashMap};

use tag_index::storage::redis::{done_from_reply, exists_from_reply, members_from_reply};
use tag_index::{IndexError, RedisTagIndex, SetCommand, SetReply};

/// A set store in memory that drops a set when its last member leaves.
struct Store {
    sets: HashMap<String, BTreeSet<String>>,
    down: bool,
}

impl Store {
    fn new() -> Store {
        Store { sets: HashMap::new(), down: false }
    }

    fn perform(&mut self, command: &SetCommand) -> SetReply {
        if self.down {
            return SetReply::Failed;
        }
        match command {
            SetCommand::Add { key, member } => {
                self.sets.entry(key.clone()).or_default().insert(member.clone());
                SetReply::Done
            }
            SetCommand::Remove { key, member } => {
                let emptied = match self.sets.get_mut(key) {
                    Some(set) => {
                        set.remove(member);
                        set.is_empty()
                    }
                    None => false,
                };
                if emptied {
                    self.sets.remove(key);
                }
                SetReply::Done
            }
            SetCommand::Members { key } => SetReply::Members(match self.sets.get(key) {
                Some(set) => set.iter().cloned().collect(),
                None => vec![],
            }),
            SetCommand::Exists { key } => SetReply::Exists(self.sets.contains_key(key)),
        }
    }
}

/// An index together with the store that its commands are sent to.
struct Session {
    index: RedisTagIndex,
    store: Store,
}

impl Session {
    fn new(nodes: Vec<String>) -> Session {
        Session { index: RedisTagIndex::new_from_redis_nodelist(nodes), store: Store::new() }
    }

    fn start(&mut self) {
        self.index.start().unwrap();
    }

    fn send(&mut self, plan: Vec<SetCommand>) -> Result<(), IndexError> {
        for command in plan.iter() {
            done_from_reply(self.store.perform(command))?;
        }
        Ok(())
    }

    fn tag_item(&mut self, key: &str, tag: &str) {
        let plan = self.index.tag_item(key, tag).unwrap();
        self.send(plan).unwrap();
    }

    fn untag_item(&mut self, key: &str, tag: &str) {
        let plan = self.index.untag_item(key, tag).unwrap();
        self.send(plan).unwrap();
    }

    fn retrieve_tags_for_item(&mut self, key: &str) -> Vec<String> {
        let question = self.index.retrieve_tags_for_item(key).unwrap();
        members_from_reply(self.store.perform(&question)).unwrap()
    }

    fn retrieve_items_with_tag(&mut self, tag: &str) -> Vec<String> {
        let question = self.index.retrieve_items_with_tag(tag).unwrap();
        members_from_reply(self.store.perform(&question)).unwrap()
    }

    fn tag_exists(&mut self, tag: &str) -> bool {
        let question = self.index.tag_exists(tag).unwrap();
        exists_from_reply(self.store.perform(&question)).unwrap()
    }
}

fn text(s: &str) -> String {
    s.to_string()
}

#[test]
fn add_item() {
    let mut idx = Session::new(vec!["redis://127.0.0.1".to_string()]);

    idx.start();
    idx.tag_item("my_key", "my_tag");

    assert!(idx.tag_exists("my_tag"));
    assert!(idx.retrieve_items_with_tag("my_tag").contains(&"my_key".to_string()));
    assert!(idx.retrieve_tags_for_item("my_key").contains(&"my_tag".to_string()));

    idx.untag_item("my_key", "my_tag");
}

#[test]
fn redis_test_remove_tag() {
    let mut idx = Session::new(vec!["redis://127.0.0.1".to_string()]);

    idx.start();
    idx.tag_item("my_key2", "my_tag2");

    assert!(idx.tag_exists("my_tag2"));
    assert!(idx.retrieve_items_with_tag("my_tag2").contains(&"my_key2".to_string()));
    assert!(idx.retrieve_tags_for_item("my_key2").contains(&"my_tag2".to_string()));

    idx.untag_item("my_key2", "my_tag2");
    assert!(!idx.tag_exists("my_tag2"));
    assert!(!idx.retrieve_items_with_tag("my_tag2").contains(&"my_key2".to_string()));
    assert!(!idx.retrieve_tags_for_item("my_key2").contains(&"my_tag2".to_string()));
}

#[test]
fn redis_test_remove_nonexistent_tag() {
    let mut idx = Session::new(vec!["redis://127.0.0.1".to_string()]);

    idx.start();

    idx.untag_item("my_key3", "my_tag3");
    assert!(!idx.retrieve_items_with_tag("my_tag3").contains(&"my_key3".to_string()));
    assert!(!idx.retrieve_tags_for_item("my_key3").contains(&"my_tag3".to_string()));
}

#[test]
fn remote_start_opens_the_first_node() {
    let mut index = RedisTagIndex::new_from_redis_nodelist(vec![
        text("redis://10.0.0.1"),
        text("redis://10.0.0.2"),
    ]);
    assert!(!index.is_started());
    assert_eq!(index.start(), Ok(text("redis://10.0.0.1")));
    assert!(index.is_started());
}

#[test]
fn remote_start_without_nodes_fails() {
    let mut index = RedisTagIndex::new_from_redis_nodelist(vec![]);
    assert_eq!(index.start(), Err(IndexError::Configuration));
    assert!(!index.is_started());
    assert_eq!(index.tag_item("doc1", "red"), Err(IndexError::NotStarted));
}

#[test]
fn remote_operations_need_a_started_index() {
    let index = RedisTagIndex::new_from_redis_nodelist(vec![text("redis://127.0.0.1")]);
    assert_eq!(index.tag_item("doc1", "red"), Err(IndexError::NotStarted));
    assert_eq!(index.untag_item("doc1", "red"), Err(IndexError::NotStarted));
    assert_eq!(index.retrieve_tags_for_item("doc1"), Err(IndexError::NotStarted));
    assert_eq!(index.retrieve_items_with_tag("red"), Err(IndexError::NotStarted));
    assert_eq!(index.tag_exists("red"), Err(IndexError::NotStarted));
}

#[test]
fn remote_shutdown_twice_then_start_again() {
    let mut index = RedisTagIndex::new_from_redis_nodelist(vec![text("redis://127.0.0.1")]);
    index.shutdown();
    assert!(!index.is_started());
    assert_eq!(index.start(), Ok(text("redis://127.0.0.1")));
    index.shutdown();
    index.shutdown();
    assert!(!index.is_started());
    assert_eq!(index.tag_exists("red"), Err(IndexError::NotStarted));
    assert_eq!(index.start(), Ok(text("redis://127.0.0.1")));
    assert_eq!(index.tag_exists("red"), Ok(SetCommand::Exists { key: text("red") }));
}

#[test]
fn remote_tag_plan_has_both_directions() {
    let mut index = RedisTagIndex::new_from_redis_nodelist(vec![text("redis://127.0.0.1")]);
    index.start().unwrap();
    assert_eq!(
        index.tag_item("doc1", "red"),
        Ok(vec![
            SetCommand::Add { key: text("doc1"), member: text("red") },
            SetCommand::Add { key: text("red"), member: text("doc1") },
        ])
    );
    assert_eq!(
        index.untag_item("doc1", "red"),
        Ok(vec![
            SetCommand::Remove { key: text("red"), member: text("doc1") },
            SetCommand::Remove { key: text("doc1"), member: text("red") },
        ])
    );
}

#[test]
fn remote_questions_name_the_right_key() {
    let mut index = RedisTagIndex::new_from_redis_nodelist(vec![text("redis://127.0.0.1")]);
    index.start().unwrap();
    assert_eq!(index.retrieve_tags_for_item("doc1"), Ok(SetCommand::Members { key: text("doc1") }));
    assert_eq!(index.retrieve_items_with_tag("red"), Ok(SetCommand::Members { key: text("red") }));
    assert_eq!(index.tag_exists("red"), Ok(SetCommand::Exists { key: text("red") }));
}

#[test]
fn remote_replies_are_read_exactly() {
    assert_eq!(done_from_reply(SetReply::Done), Ok(()));
    assert_eq!(done_from_reply(SetReply::Failed), Err(IndexError::Backend));
    assert_eq!(done_from_reply(SetReply::Exists(true)), Err(IndexError::Backend));
    assert_eq!(
        members_from_reply(SetReply::Members(vec![text("a"), text("b")])),
        Ok(vec![text("a"), text("b")])
    );
    assert_eq!(members_from_reply(SetReply::Members(vec![])), Ok(vec![]));
    assert_eq!(
        members_from_reply(SetReply::Members(vec![text("a"), text("b"), text("a")])),
        Err(IndexError::Backend)
    );
    assert_eq!(members_from_reply(SetReply::Failed), Err(IndexError::Backend));
    assert_eq!(members_from_reply(SetReply::Done), Err(IndexError::Backend));
    assert_eq!(exists_from_reply(SetReply::Exists(true)), Ok(true));
    assert_eq!(exists_from_reply(SetReply::Exists(false)), Ok(false));
    assert_eq!(exists_from_reply(SetReply::Failed), Err(IndexError::Backend));
    assert_eq!(exists_from_reply(SetReply::Members(vec![])), Err(IndexError::Backend));
}

#[test]
fn remote_failure_is_no_empty_answer() {
    let mut idx = Session::new(vec![text("redis://127.0.0.1")]);
    idx.start();
    idx.tag_item("doc1", "red");
    idx.store.down = true;
    let question = idx.index.retrieve_items_with_tag("red").unwrap();
    assert_eq!(members_from_reply(idx.store.perform(&question)), Err(IndexError::Backend));
    let question = idx.index.tag_exists("red").unwrap();
    assert_eq!(exists_from_reply(idx.store.perform(&question)), Err(IndexError::Backend));
    let plan = idx.index.tag_item("doc2", "red").unwrap();
    assert_eq!(idx.send(plan), Err(IndexError::Backend));
}

#[test]
fn remote_tag_shows_on_both_sides() {
    let mut idx = Session::new(vec![text("redis://127.0.0.1")]);
    idx.start();
    idx.tag_item("doc1", "red");
    assert!(idx.tag_exists("red"));
    assert_eq!(idx.retrieve_items_with_tag("red"), vec![text("doc1")]);
    assert_eq!(idx.retrieve_tags_for_item("doc1"), vec![text("red")]);
}

#[test]
fn remote_untag_on_empty_store_is_quiet() {
    let mut idx = Session::new(vec![text("redis://127.0.0.1")]);
    idx.start();
    idx.untag_item("doc9", "blue");
    assert_eq!(idx.retrieve_items_with_tag("blue"), Vec::<String>::new());
    assert_eq!(idx.retrieve_tags_for_item("doc9"), Vec::<String>::new());
    assert!(!idx.tag_exists("blue"));
}

#[test]
fn remote_untag_one_of_two_items() {
    let mut idx = Session::new(vec![text("redis://127.0.0.1")]);
    idx.start();
    idx.tag_item("doc1", "red");
    idx.tag_item("doc2", "red");
    idx.untag_item("doc1", "red");
    let items = idx.retrieve_items_with_tag("red");
    assert!(items.contains(&text("doc2")));
    assert!(!items.contains(&text("doc1")));
    assert!(idx.tag_exists("red"));
}

#[test]
fn remote_tag_twice_is_tag_once() {
    let mut idx = Session::new(vec![text("redis://127.0.0.1")]);
    idx.start();
    idx.tag_item("doc1", "red");
    idx.tag_item("doc1", "red");
    assert_eq!(idx.retrieve_items_with_tag("red"), vec![text("doc1")]);
    assert_eq!(idx.retrieve_tags_for_item("doc1"), vec![text("red")]);
}

#[test]
fn remote_emptied_tag_is_gone() {
    let mut idx = Session::new(vec![text("redis://127.0.0.1")]);
    idx.start();
    idx.tag_item("k", "t");
    assert!(idx.tag_exists("t"));
    idx.untag_item("k", "t");
    assert!(!idx.tag_exists("t"));
    assert_eq!(idx.retrieve_items_with_tag("t"), Vec::<String>::new());
}

#[test]
fn remote_sides_mirror_each_other() {
    let mut idx = Session::new(vec![text("redis://127.0.0.1")]);
    idx.start();
    idx.tag_item("a", "x");
    idx.tag_item("a", "y");
    idx.tag_item("b", "y");
    idx.untag_item("a", "y");
    idx.untag_item("c", "x");
    for i in ["a", "b", "c"] {
        for t in ["x", "y", "z"] {
            let forth = idx.retrieve_tags_for_item(i).contains(&text(t));
            let back = idx.retrieve_items_with_tag(t).contains(&text(i));
            assert_eq!(forth, back);
        }
    }
    assert_eq!(idx.retrieve_items_with_tag("x"), vec![text("a")]);
    assert_eq!(idx.retrieve_items_with_tag("y"), vec![text("b")]);
}

#[test]
fn remote_open_failure_stops_the_index() {
    let mut index = RedisTagIndex::new_from_redis_nodelist(vec![text("not an address")]);
    assert_eq!(index.start(), Ok(text("not an address")));
    assert!(index.is_started());
    assert_eq!(index.open_failed(), IndexError::Configuration);
    assert!(!index.is_started());
    assert_eq!(index.tag_exists("red"), Err(IndexError::NotStarted));
    assert_eq!(index.start(), Ok(text("not an address")));
}
