use vstd::prelude::*;
use vstd::string::*;
use vstd::utf8::*;

use crate::error::Error;

verus! {

/// The bytes are a valid UTF-8 encoding whose decoding is `chars`.
pub open spec fn decodes_to(bytes: Seq<u8>, chars: Seq<char>) -> bool {
    valid_utf8(bytes) && chars == decode_utf8(bytes)
}

/// Every byte is a seven-bit (ASCII) byte.
pub open spec fn all_ascii(bytes: Seq<u8>) -> bool {
    forall|i: int| 0 <= i < bytes.len() ==> #[trigger] bytes[i] < 0x80
}

/// A run of ASCII bytes is valid UTF-8.
pub proof fn lemma_ascii_valid_utf8(bytes: Seq<u8>)
    requires
        all_ascii(bytes),
    ensures
        valid_utf8(bytes),
{
    assert(bytes.subrange(0, 0) =~= Seq::<u8>::empty());
    assert(valid_utf8(Seq::<u8>::empty()));
    assert forall|i: int| 0 <= 0 <= i < bytes.len() <= bytes.len() implies #[trigger] is_leading_byte_width_1(bytes[i]) by {
        assert(bytes[i] < 0x80);
    }
    partial_valid_utf8_extend_ascii_block(bytes, 0, bytes.len() as int);
    assert(bytes.subrange(0, bytes.len() as int) =~= bytes);
}

/// Relies on `String::from_utf8`: it succeeds exactly on valid UTF-8 and then
/// holds the decoded characters.
#[verifier::external_body]
fn string_from_utf8(bytes: Vec<u8>) -> (r: Option<String>)
    ensures
        match r {
            Some(s) => decodes_to(bytes@, s@),
            None => !valid_utf8(bytes@),
        },
{
    match String::from_utf8(bytes) {
        Ok(s) => Some(s),
        Err(_) => None,
    }
}

/// A growable accumulation of bytes that becomes text once validated.
pub struct Buffer {
    buffer: Vec<u8>,
}

impl View for Buffer {
    type V = Seq<u8>;

    closed spec fn view(&self) -> Seq<u8> {
        self.buffer@
    }
}

impl Buffer {
    /// An empty buffer.
    pub fn new() -> (r: Buffer)
        ensures
            r@ == Seq::<u8>::empty(),
    {
        Buffer { buffer: Vec::new() }
    }

    /// Appends one raw byte.
    pub fn write_byte(&mut self, b: u8)
        ensures
            final(self)@ == old(self)@.push(b),
    {
        self.buffer.push(b);
    }

    /// Appends a character that has a one-byte encoding; any other character
    /// is refused with a `Buffer` error and leaves the buffer unchanged.
    pub fn write_char(&mut self, ch: char) -> (r: Result<(), Error>)
        ensures
            (ch as u32) < 0x80 ==> r is Ok && final(self)@ == old(self)@.push(ch as u8),
            (ch as u32) >= 0x80 ==> r is Err && r->Err_0 is Buffer && final(self)@ == old(self)@,
    {
        let c = ch as u32;
        if c < 0x80 {
            self.buffer.push(c as u8);
            Ok(())
        } else {
            Err(Error::Buffer(String::from_str("character does not fit in a single byte")))
        }
    }

    /// Appends the UTF-8 encoding of `s`.
    pub fn write_string(&mut self, s: &str) -> (r: Result<(), Error>)
        ensures
            r is Ok,
            final(self)@ == old(self)@ + s.spec_bytes(),
    {
        let bytes = s.as_bytes();
        let ghost start = self.buffer@;
        let mut i: usize = 0;
        while i < bytes.len()
            invariant
                i <= bytes@.len(),
                bytes@ == s.spec_bytes(),
                self.buffer@ == start + bytes@.subrange(0, i as int),
            decreases bytes@.len() - i,
        {
            self.buffer.push(bytes[i]);
            i = i + 1;
            assert(bytes@.subrange(0, i as int) =~= bytes@.subrange(0, i - 1 as int).push(bytes@[i - 1]));
        }
        assert(bytes@.subrange(0, i as int) =~= bytes@);
        Ok(())
    }

    /// Turns the bytes into text: `Ok` exactly when they are valid UTF-8.
    pub fn to_string(self) -> (r: Result<String, Error>)
        ensures
            valid_utf8(self@) ==> r is Ok && decodes_to(self@, r->Ok_0@),
            !valid_utf8(self@) ==> r is Err && r->Err_0 is Buffer,
    {
        match string_from_utf8(self.buffer) {
            Some(s) => Ok(s),
            None => Err(Error::Buffer(String::from_str("invalid UTF-8 sequence"))),
        }
    }
}

} // verus!
