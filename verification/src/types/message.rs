use vstd::prelude::*;

verus! {

/// One inbound message: an identifier plus its optional textual content.
///
/// Only the parts that the demultiplexing and refining pipeline reads are
/// modelled here; the remote service's full record layout is plumbing owned
/// by the transport layer.
#[derive(Clone, Debug, PartialEq, Eq, Hash)]
pub struct Message {
    /// Unique message identifier.
    pub id: i32,

    /// Textual content of the message, if any.
    pub text: Option<String>,
}

impl Message {
    pub fn new(id: i32, text: Option<String>) -> (r: Self)
        ensures
            r == (Message { id, text }),
    {
        Self { id, text }
    }

    /// Whether this message carries textual content.
    pub open spec fn has_text(self) -> bool {
        self.text is Some
    }

    /// The textual content of this message, owned, or `None` when the
    /// message carries none.
    pub fn text_owned(&self) -> (r: Option<String>)
        ensures
            r is Some <==> self.has_text(),
            r is Some ==> r->0@ == self.text->0@,
    {
        match &self.text {
            Some(t) => Some(t.clone()),
            None => None,
        }
    }
}

} // verus!
