//! A forward-only cursor over the bytes of a source text.

use vstd::prelude::*;
use vstd::slice::slice_subrange;
use vstd::string::StringSliceAdditionalSpecFns;

verus! {

/// Width in bytes of the UTF-8 encoded character whose first byte is `b`.
pub open spec fn utf8_width(b: u8) -> nat {
    if b < 0x80 {
        1
    } else if b >= 0xF0 {
        4
    } else if b >= 0xE0 {
        3
    } else if b >= 0xC0 {
        2
    } else {
        1
    }
}

/// Bytes that one character takes at the start of `rest`, cut at its end.
pub open spec fn char_len(rest: Seq<u8>) -> nat {
    if rest.len() == 0 {
        0
    } else if utf8_width(rest[0]) <= rest.len() {
        utf8_width(rest[0])
    } else {
        rest.len()
    }
}

/// Bytes that one character takes at the start of `rest`, cut at its end;
/// 0 for an empty `rest`.
pub fn char_width(rest: &[u8]) -> (r: usize)
    ensures
        r == char_len(rest@),
{
    if rest.len() == 0 {
        return 0;
    }
    let b = rest[0];
    let w: usize = if b < 0x80 {
        1
    } else if b >= 0xF0 {
        4
    } else if b >= 0xE0 {
        3
    } else if b >= 0xC0 {
        2
    } else {
        1
    };
    if w <= rest.len() {
        w
    } else {
        rest.len()
    }
}

/// Position in a borrowed source text.
pub struct Cursor<'a> {
    len_remaining: usize,
    curr_pt: usize,
    chars: &'a str,
}

impl<'a> Cursor<'a> {
    /// The bytes of the whole text.
    pub closed spec fn text(&self) -> Seq<u8> {
        self.chars.spec_bytes()
    }

    /// Bytes consumed so far.
    pub closed spec fn pos(&self) -> nat {
        self.curr_pt as nat
    }

    /// The bytes not consumed yet.
    pub open spec fn rest(&self) -> Seq<u8> {
        self.text().subrange(self.pos() as int, self.text().len() as int)
    }

    pub closed spec fn wf(&self) -> bool {
        &&& self.text().len() <= usize::MAX
        &&& self.curr_pt <= self.text().len()
        &&& self.len_remaining == self.text().len() - self.curr_pt
    }

    pub proof fn lemma_wf(&self)
        requires
            self.wf(),
        ensures
            self.pos() <= self.text().len() <= usize::MAX,
    {
    }

    pub fn new(input: &'a str) -> (r: Cursor<'a>)
        ensures
            r.wf(),
            r.text() == input.spec_bytes(),
            r.pos() == 0,
    {
        let len_remaining = input.as_bytes().len();
        Cursor { len_remaining, curr_pt: 0, chars: input }
    }

    /// Whether every byte has been consumed.
    pub fn is_eof(&self) -> (r: bool)
        requires
            self.wf(),
        ensures
            r == (self.pos() == self.text().len()),
    {
        self.len_remaining == 0
    }

    /// The bytes from the current position to the end.
    pub fn at_curr_pt(&self) -> (r: &'a [u8])
        requires
            self.wf(),
        ensures
            r@ == self.rest(),
    {
        let bytes = self.chars.as_bytes();
        slice_subrange(bytes, self.curr_pt, bytes.len())
    }

    /// Moves forward by `amt` bytes.
    pub fn advance(&mut self, amt: usize)
        requires
            old(self).wf(),
            amt <= old(self).text().len() - old(self).pos(),
        ensures
            final(self).wf(),
            final(self).text() == old(self).text(),
            final(self).pos() == old(self).pos() + amt,
    {
        self.curr_pt = self.curr_pt + amt;
        self.len_remaining = self.len_remaining - amt;
    }

    /// Moves forward by one character.
    pub fn bump(&mut self)
        requires
            old(self).wf(),
        ensures
            final(self).wf(),
            final(self).text() == old(self).text(),
            final(self).pos() == old(self).pos() + char_len(old(self).rest()),
    {
        let rest = self.at_curr_pt();
        let amt = char_width(rest);
        self.advance(amt);
    }

    /// Bytes consumed so far.
    pub fn curr_pt(&self) -> (r: usize)
        ensures
            r == self.pos(),
    {
        self.curr_pt
    }
}

} // verus!
