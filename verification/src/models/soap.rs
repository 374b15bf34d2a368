//! The envelope in which Istanbul's line list arrives: an XML body whose one
//! text node is itself a JSON document.
use vstd::prelude::*;

verus! {

/// One line of the list inside the envelope.
#[derive(Clone, Debug)]
pub struct BusLineSoap {
    pub line_code: String,
    pub line_name: String,
    /// Length of the line, as decimal text.
    pub line_length: String,
    /// Duration of one run, as decimal text.
    pub duration: String,
}

/// The result inside the body: the JSON document as text.
#[derive(Clone, Debug)]
pub struct BusLineResponseJsonSoap {
    pub content: String,
}

/// The body of the envelope.
#[derive(Clone, Debug)]
pub struct BusLineResponseBodySoap {
    pub content: BusLineResponseJsonSoap,
}

/// The envelope.
#[derive(Clone, Debug)]
pub struct BusLineResponseSoap {
    pub content: BusLineResponseBodySoap,
}

impl BusLineResponseSoap {
    /// The JSON document that the envelope carries, still as text: the
    /// second pass of decoding reads it.
    pub fn payload(&self) -> (text: &String)
        ensures
            text@ == self.content.content.content@,
    {
        &self.content.content.content
    }
}

} // verus!
