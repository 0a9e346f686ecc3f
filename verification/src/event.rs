use vstd::prelude::*;

use crate::error::Error;

verus! {

/// Events can be received and stored. It can be either text based or binary.
#[derive(Debug, PartialEq, Eq)]
pub enum Event {
    /// Event with binary content: its source and its bytes.
    Binary(String, Vec<u8>),
    /// Event with string content: its source and its text.
    Text(String, String),
}

/// The message of the error that `Event::text` returns for a binary event.
pub open spec fn binary_text_message() -> Seq<char> {
    "Text can't be returned from a binary message."@
}

impl Event {
    /// The source (the event type) of the event.
    pub open spec fn spec_source(&self) -> Seq<char> {
        match self {
            Event::Binary(source, _) => source@,
            Event::Text(source, _) => source@,
        }
    }

    /// Whether the event carries text.
    pub open spec fn is_text(&self) -> bool {
        self is Text
    }

    /// Returns the source of the event.
    pub fn source(&self) -> (s: String)
        ensures
            s@ == self.spec_source(),
    {
        match self {
            Event::Binary(source, _) => source.clone(),
            Event::Text(source, _) => source.clone(),
        }
    }

    /// The bytes of the content of the event: the bytes of a binary event,
    /// the UTF-8 encoding of the text of a text event.
    pub fn content_bytes(&self) -> (b: &[u8])
        ensures
            match self {
                Event::Binary(_, content) => b@ == content@,
                Event::Text(_, text) => b@ == vstd::utf8::encode_utf8(text@),
            },
    {
        match self {
            Event::Binary(_, content) => content.as_slice(),
            Event::Text(_, text) => text.as_str().as_bytes(),
        }
    }

    /// Returns the content of a text based event; a binary event gives an error.
    pub fn text(&self) -> (r: Result<String, Error>)
        ensures
            match self {
                Event::Text(_, text) => r == Ok::<String, Error>(*text),
                Event::Binary(_, _) => r matches Err(e) && e.message@ == binary_text_message(),
            },
    {
        match self {
            Event::Binary(_, _) => Err(Error::new("Text can't be returned from a binary message.")),
            Event::Text(_, text) => Ok(text.clone()),
        }
    }
}

} // verus!
