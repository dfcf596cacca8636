//! The backends of the index. Each offers the same seven operations: start,
//! shutdown, tag_item, untag_item, retrieve_tags_for_item,
//! retrieve_items_with_tag and tag_exists.

pub mod memory;
pub mod redis;
