//! The payload of a Discord webhook execution.
//!
//! Serializing and sending it over HTTP is I/O and lives with the
//! surrounding application; the library only decides what the payload
//! holds.

use vstd::prelude::*;

verus! {

/// One webhook message: the body text and the display name it is posted
/// under.
#[derive(Clone, Debug)]
pub struct WebhookBody {
    pub content: String,
    pub username: String,
}

impl WebhookBody {
    /// Bundles a converted message body with the display name to post it
    /// under.
    pub fn new(content: String, username: String) -> (r: WebhookBody)
        ensures
            r.content == content,
            r.username == username,
    {
        WebhookBody { content, username }
    }
}

} // verus!
