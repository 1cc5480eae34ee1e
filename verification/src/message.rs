//! The in-flight message envelope.  The id never changes once assigned;
//! processors rewrite the content, nothing else.  A reply handle, where an
//! ingress path waits for the outcome, travels beside the message outside
//! this crate.

use vstd::prelude::*;

use crate::clock::now_millis;
use crate::ids::new_id;

verus! {

#[derive(Debug, Clone)]
pub struct Message {
    pub id: u128,
    pub channel_id: u128,
    pub content: String,
    pub origin: Option<String>,
    pub timestamp_ms: u64,
}

impl Message {
    /// A fresh message with a new id, stamped now.
    pub fn new(channel_id: u128, content: String, origin: String) -> (r: Message)
        ensures
            r.channel_id == channel_id,
            r.content == content,
            r.origin == Some(origin),
    {
        Message {
            id: new_id(),
            channel_id,
            content,
            origin: Some(origin),
            timestamp_ms: now_millis(),
        }
    }

    /// A copy, field for field.
    pub fn duplicate(&self) -> (r: Message)
        ensures
            r == *self,
    {
        Message {
            id: self.id,
            channel_id: self.channel_id,
            content: self.content.clone(),
            origin: match &self.origin {
                Some(o) => Some(o.clone()),
                None => None,
            },
            timestamp_ms: self.timestamp_ms,
        }
    }

    /// The same message with other content — what a processor may do.
    pub fn with_content(self, content: String) -> (r: Message)
        ensures
            r.id == self.id,
            r.channel_id == self.channel_id,
            r.origin == self.origin,
            r.timestamp_ms == self.timestamp_ms,
            r.content == content,
    {
        Message { content, ..self }
    }
}

} // verus!
