//! The blog post record: server-generated identifier, content fields,
//! a published flag, and UTC timestamps carried as UNIX seconds, with
//! the invariant that a post is never updated before it was created.

use vstd::prelude::*;

use crate::dates::{now_ts, ts_in_range};
use crate::ids::fresh_uuid_string;

verus! {

/// One stored blog post.
#[derive(Debug, Clone, PartialEq)]
pub struct BlogPost {
    pub id: String,
    pub title: String,
    pub content: String,
    pub author: String,
    pub published: bool,
    pub tags: Vec<String>,
    pub created_at: i64,
    pub updated_at: i64,
    pub image_url: Option<String>,
}

impl BlogPost {
    /// A post is never updated before it was created.
    pub open spec fn wf(&self) -> bool {
        self.updated_at >= self.created_at
    }

    /// Creates an unpublished post with a fresh identifier and both
    /// timestamps set to the same current instant.
    pub fn new(
        title: String,
        content: String,
        author: String,
        tags: Vec<String>,
        image_url: Option<String>,
    ) -> (r: BlogPost)
        ensures
            r.title == title,
            r.content == content,
            r.author == author,
            r.tags == tags,
            r.image_url == image_url,
            !r.published,
            r.created_at == r.updated_at,
            ts_in_range(r.created_at),
            r.id@.len() == 36,
            r.wf(),
    {
        let now = now_ts();
        BlogPost {
            id: fresh_uuid_string(),
            title,
            content,
            author,
            published: false,
            tags,
            created_at: now,
            updated_at: now,
            image_url,
        }
    }
}

} // verus!
