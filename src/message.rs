use vstd::prelude::*;

verus! {

/// A message: a header and a body, each an independent byte sequence.
#[derive(Debug, PartialEq, Eq)]
pub struct Message {
    pub header: Vec<u8>,
    pub body: Vec<u8>,
}

impl View for Message {
    /// The message as its (header, body) pair.
    type V = (Seq<u8>, Seq<u8>);

    open spec fn view(&self) -> (Seq<u8>, Seq<u8>) {
        (self.header@, self.body@)
    }
}

/// Copies a byte vector element by element.
fn copy_bytes(v: &Vec<u8>) -> (r: Vec<u8>)
    ensures
        r@ == v@,
{
    let mut r: Vec<u8> = Vec::with_capacity(v.len());
    let mut i: usize = 0;
    while i < v.len()
        invariant
            i <= v@.len(),
            r@ == v@.subrange(0, i as int),
        decreases v@.len() - i,
    {
        r.push(v[i]);
        i = i + 1;
    }
    r
}

impl Message {
    /// A message with an empty header and the given body.
    pub fn from_body(body: Vec<u8>) -> (r: Message)
        ensures
            r@ == (Seq::<u8>::empty(), body@),
    {
        Message { header: Vec::new(), body }
    }

    /// Reassembles a message from a header and a body.
    pub fn with_header_and_body(header: Vec<u8>, body: Vec<u8>) -> (r: Message)
        ensures
            r@ == (header@, body@),
    {
        Message { header, body }
    }

    pub fn get_header(&self) -> (r: &Vec<u8>)
        ensures
            r@ == self@.0,
    {
        &self.header
    }

    pub fn get_body(&self) -> (r: &Vec<u8>)
        ensures
            r@ == self@.1,
    {
        &self.body
    }

    /// Total number of bytes held: header and body together.
    pub fn len(&self) -> (r: usize)
        requires
            self@.0.len() + self@.1.len() <= usize::MAX,
        ensures
            r == self@.0.len() + self@.1.len(),
    {
        self.header.len() + self.body.len()
    }

    /// Splits the message into its header and its body, losing nothing.
    pub fn explode(self) -> (r: (Vec<u8>, Vec<u8>))
        ensures
            (r.0@, r.1@) == self@,
    {
        (self.header, self.body)
    }

    /// An independent copy of the message.
    pub fn duplicate(&self) -> (r: Message)
        ensures
            r@ == self@,
    {
        Message { header: copy_bytes(&self.header), body: copy_bytes(&self.body) }
    }
}

} // verus!
