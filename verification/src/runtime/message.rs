//! The message model.
//!
//! A message is an owned payload plus owned attached handles. Writing a message
//! moves the attached handles into the message; reading moves them out. At this
//! layer the payload is an opaque byte buffer.

use vstd::prelude::*;

use crate::runtime::handle::Handle;

verus! {

/// A message in transit on a message pipe.
#[derive(Debug, PartialEq, Eq)]
pub struct Message {
    /// The payload.
    pub data: Vec<u8>,
    /// The attached handles.
    pub handles: Vec<Handle>,
}

/// What a message holds.
#[verifier::ext_equal]
pub struct MessageView {
    /// The payload.
    pub data: Seq<u8>,
    /// The attached handles.
    pub handles: Seq<Handle>,
}

impl View for Message {
    type V = MessageView;

    open spec fn view(&self) -> MessageView {
        MessageView { data: self.data@, handles: self.handles@ }
    }
}

impl Message {
    /// Create a message from payload bytes and attached handles.
    pub fn new(data: Vec<u8>, handles: Vec<Handle>) -> (r: Message)
        ensures
            r@ == (MessageView { data: data@, handles: handles@ }),
    {
        Message { data, handles }
    }

    /// An empty message with no handles.
    pub fn empty() -> (r: Message)
        ensures
            r@ == (MessageView { data: Seq::empty(), handles: Seq::empty() }),
    {
        Message::new(Vec::new(), Vec::new())
    }

    /// The payload bytes.
    pub fn data(&self) -> (r: &[u8])
        ensures
            r@ == self@.data,
    {
        self.data.as_slice()
    }

    /// Consume the message, returning its payload.
    pub fn into_data(self) -> (r: Vec<u8>)
        ensures
            r@ == self@.data,
    {
        self.data
    }

    /// The attached handles (borrowed).
    pub fn handles(&self) -> (r: &[Handle])
        ensures
            r@ == self@.handles,
    {
        self.handles.as_slice()
    }

    /// Consume the message, returning its attached handles.
    pub fn into_handles(self) -> (r: Vec<Handle>)
        ensures
            r@ == self@.handles,
    {
        self.handles
    }

    /// Consume the message entirely.
    pub fn into_parts(self) -> (r: (Vec<u8>, Vec<Handle>))
        ensures
            r.0@ == self@.data,
            r.1@ == self@.handles,
    {
        (self.data, self.handles)
    }
}

/// A message payload plus the handles, as handed to a reader.
#[derive(Debug)]
pub struct MessageBody {
    /// Bytes copied out.
    pub data: Vec<u8>,
    /// Extracted handles.
    pub handles: Vec<Handle>,
    /// Whether the full message was consumed.
    pub consumed: bool,
}

impl Default for MessageBody {
    fn default() -> (r: MessageBody)
        ensures
            r.data@.len() == 0,
            r.handles@.len() == 0,
            !r.consumed,
    {
        MessageBody { data: Vec::new(), handles: Vec::new(), consumed: false }
    }
}

} // verus!
