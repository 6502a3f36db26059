use vstd::prelude::*;

verus! {

/// One resident message: its id, raw payload, arrival time in unix
/// microseconds, and an optional list of header key/value pairs.
#[derive(Debug, Clone)]
pub struct MySbMessageContent {
    pub id: i64,
    pub content: Vec<u8>,
    pub time: i64,
    pub headers: Option<Vec<(String, String)>>,
}

/// A slot in a page-sized id range: either a resident message or a
/// placeholder for an id that was never loaded in this incarnation.
#[derive(Debug, Clone)]
pub enum MySbMessage {
    Loaded(MySbMessageContent),
    Missing(i64),
}

impl MySbMessage {
    /// Payload length of the slot; a missing slot holds no bytes.
    pub fn content_size(&self) -> (r: usize)
        ensures
            r == match self {
                MySbMessage::Loaded(msg) => msg.content.len(),
                MySbMessage::Missing(_) => 0,
            },
    {
        match self {
            MySbMessage::Loaded(msg) => msg.content.len(),
            MySbMessage::Missing(_) => 0,
        }
    }

    /// The id the slot stands for, resident or not.
    pub fn get_id(&self) -> (r: i64)
        ensures
            r == match self {
                MySbMessage::Loaded(msg) => msg.id,
                MySbMessage::Missing(id) => *id,
            },
    {
        match self {
            MySbMessage::Loaded(msg) => msg.id,
            MySbMessage::Missing(id) => *id,
        }
    }

    /// Neither variant of a slot stands for reclaimed content, so
    /// this answers false for both.
    pub fn is_garbage_collected(&self) -> (r: bool)
        ensures
            r == false,
    {
        match self {
            MySbMessage::Loaded(_) => false,
            MySbMessage::Missing(_) => false,
        }
    }

    /// Whether the slot is a placeholder for content never loaded.
    pub fn is_missing(&self) -> (r: bool)
        ensures
            r == (self is Missing),
    {
        match self {
            MySbMessage::Loaded(_) => false,
            MySbMessage::Missing(_) => true,
        }
    }

    /// Precondition-checked accessor: the caller must already know the
    /// slot holds a resident message.
    pub fn unwrap_as_message(&self) -> (r: &MySbMessageContent)
        requires
            self is Loaded,
        ensures
            *r == self->Loaded_0,
    {
        match self {
            MySbMessage::Loaded(msg) => msg,
            MySbMessage::Missing(_) => unreached(),
        }
    }
}

} // verus!
