use vstd::prelude::*;

verus! {

/// How a file is opened: `Read` opens an existing file for reading; `Write` opens it for
/// writing and creates it when it is missing.
#[derive(Debug, Clone, Copy, PartialEq, Eq, Structural)]
pub enum FileMode {
    Read,
    Write,
}

impl FileMode {
    /// Whether the file is opened for writing.
    pub fn writes(&self) -> (r: bool)
        ensures
            r <==> *self == FileMode::Write,
    {
        match self {
            FileMode::Read => false,
            FileMode::Write => true,
        }
    }

    /// Whether a missing file is created rather than refused.
    pub fn creates(&self) -> (r: bool)
        ensures
            r <==> *self == FileMode::Write,
    {
        match self {
            FileMode::Read => false,
            FileMode::Write => true,
        }
    }
}

/// The UTF-16 code units of one character: one below U+10000, else a surrogate pair.
pub open spec fn char_utf16(c: char) -> Seq<u16> {
    let v = c as u32 as int;
    if v < 0x10000 {
        seq![v as u16]
    } else {
        let w = v - 0x10000;
        seq![(0xD800 + w / 0x400) as u16, (0xDC00 + w % 0x400) as u16]
    }
}

/// The UTF-16 encoding of a string.
pub open spec fn utf16_of(s: Seq<char>) -> Seq<u16>
    decreases s.len(),
{
    if s.len() == 0 {
        Seq::empty()
    } else {
        utf16_of(s.drop_last()) + char_utf16(s.last())
    }
}

/// Relies on str::encode_utf16: the UTF-16 code units of the string, in order.
#[verifier::external_body]
fn encode_utf16(s: &str) -> (r: Vec<u16>)
    ensures
        r@ == utf16_of(s@),
{
    s.encode_utf16().collect()
}

/// A path as a UTF-16 string ending in a zero unit, the form wide-character file APIs take.
pub fn str_to_wide(path: &str) -> (r: Vec<u16>)
    ensures
        r@ == utf16_of(path@).push(0u16),
{
    let mut v = encode_utf16(path);
    v.push(0u16);
    v
}

} // verus!
