//! A bounds-checked, cursored byte reader for on-disk structures.
//!
//! Every accessor fails on truncation; none reads past the end.

use vstd::prelude::*;

use crate::bytes;
use crate::common::error::ErrorView;
use crate::common::{EmuError, EmuResult};
use crate::text;

verus! {

/// A cursor over a byte slice.
pub struct Reader<'a> {
    pub data: &'a [u8],
    pub pos: usize,
}

/// Why `n` bytes cannot be read at `pos` of `len`, if they cannot.
pub open spec fn shortage(len: int, pos: int, n: int) -> Option<ErrorView> {
    if pos + n > usize::MAX {
        Some(ErrorView::MachO("read overflow"@))
    } else if pos + n > len {
        Some(
            ErrorView::MachO(
                "truncated: need "@ + text::dec(n as nat) + " bytes at 0x"@ + text::hex(pos as nat)
                    + ", have "@ + text::dec((len - pos) as nat),
            ),
        )
    } else {
        None
    }
}

/// The shortage of the first of consecutive fields of the given widths that
/// does not fit, counting from field `i`.
pub open spec fn first_shortage(len: int, pos: int, widths: Seq<usize>, i: int) -> Option<ErrorView>
    decreases widths.len() - i,
{
    if i < 0 || i >= widths.len() {
        None
    } else {
        match shortage(len, pos, widths[i] as int) {
            Some(e) => Some(e),
            None => first_shortage(len, pos + widths[i], widths, i + 1),
        }
    }
}

/// Total width of the fields from field `i` on.
pub open spec fn total(widths: Seq<usize>, i: int) -> int
    decreases widths.len() - i,
{
    if i < 0 || i >= widths.len() {
        0
    } else {
        widths[i] + total(widths, i + 1)
    }
}

/// The text of a NUL-padded field.
pub open spec fn padded_text(field: Seq<u8>) -> Seq<char> {
    text::utf8_lossy(field.take(bytes::next(field, 0, 0)))
}

/// The error for an offset past the end.
pub open spec fn past_end(what: Seq<char>, off: int) -> ErrorView {
    ErrorView::MachO(what + " 0x"@ + text::hex(off as nat) + " past end"@)
}

fn past_end_error(what: &str, off: usize) -> (r: EmuError)
    ensures
        r@ == past_end(what@, off as int),
{
    let h = text::hex_string(off as u64);
    let head = text::cat3(what, " 0x", h.as_str());
    EmuError::MachO(text::cat(head.as_str(), " past end"))
}

fn shortage_error(len: usize, pos: usize, n: usize) -> (r: EmuError)
    requires
        pos <= len,
        n > len - pos,
    ensures
        shortage(len as int, pos as int, n as int) == Some(r@),
{
    if n > usize::MAX - pos {
        return EmuError::MachO("read overflow".to_owned());
    }
    let need = text::dec_string(n as u64);
    let at = text::hex_string(pos as u64);
    let have = text::dec_string((len - pos) as u64);
    let mut m = text::cat3("truncated: need ", need.as_str(), " bytes at 0x");
    m.append(at.as_str());
    m.append(", have ");
    m.append(have.as_str());
    EmuError::MachO(m)
}

/// Check that consecutive fields of the given widths are all there.
pub fn demand(data: &[u8], pos: usize, widths: &[usize]) -> (r: EmuResult<()>)
    requires
        pos <= data@.len(),
    ensures
        match first_shortage(data@.len() as int, pos as int, widths@, 0) {
            Some(e) => r matches Err(x) && x@ == e,
            None => r is Ok && pos + total(widths@, 0) <= data@.len(),
        },
        data@.len() <= usize::MAX,
{
    let mut at: usize = pos;
    let mut i: usize = 0;
    assert(data.len() == data@.len());
    while i < widths.len()
        invariant
            i <= widths@.len(),
            pos <= at <= data@.len(),
            first_shortage(data@.len() as int, pos as int, widths@, 0) == first_shortage(
                data@.len() as int,
                at as int,
                widths@,
                i as int,
            ),
            pos + total(widths@, 0) == at + total(widths@, i as int),
        decreases widths@.len() - i,
    {
        if widths[i] > data.len() - at {
            return Err(shortage_error(data.len(), at, widths[i]));
        }
        at += widths[i];
        i += 1;
    }
    Ok(())
}

/// Decode a NUL-padded field.
pub fn padded_string(data: &[u8], pos: usize, n: usize) -> (r: String)
    requires
        pos + n <= data@.len(),
    ensures
        r@ == padded_text(data@.subrange(pos as int, pos + n)),
{
    assert(data.len() == data@.len());
    let field = vstd::slice::slice_subrange(data, pos, pos + n);
    let end = bytes::find(field, 0, 0);
    assert(field@.subrange(0, end as int) =~= field@.take(end as int));
    text::from_utf8_lossy(vstd::slice::slice_subrange(field, 0, end))
}

impl<'a> Reader<'a> {
    /// The cursor is inside the data.
    pub open spec fn wf(self) -> bool {
        self.pos <= self.data@.len()
    }

    /// Whether a reader is this one moved forward by `n`.
    pub open spec fn advanced(self, n: int, after: Reader<'a>) -> bool {
        after.data == self.data && after.pos == self.pos + n
    }

    /// A reader at the start.
    pub fn new(data: &'a [u8]) -> (r: Reader<'a>)
        ensures
            r.data == data,
            r.pos == 0,
            r.wf(),
    {
        Reader { data, pos: 0 }
    }

    /// A reader at absolute offset `off`.
    pub fn at(data: &'a [u8], off: usize) -> (r: EmuResult<Reader<'a>>)
        ensures
            if off > data@.len() {
                r matches Err(e) && e@ == past_end("offset"@, off as int)
            } else {
                r matches Ok(x) && x.data == data && x.pos == off && x.wf()
            },
    {
        if off > data.len() {
            return Err(past_end_error("offset", off));
        }
        Ok(Reader { data, pos: off })
    }

    /// The cursor.
    pub fn pos(&self) -> (r: usize)
        ensures
            r == self.pos,
    {
        self.pos
    }

    /// Move to absolute offset `off`.
    pub fn seek(&mut self, off: usize) -> (r: EmuResult<()>)
        ensures
            if off > old(self).data@.len() {
                r matches Err(e) && e@ == past_end("seek"@, off as int) && *final(self) == *old(self)
            } else {
                r is Ok && final(self).data == old(self).data && final(self).pos == off && final(self).wf()
            },
    {
        if off > self.data.len() {
            return Err(past_end_error("seek", off));
        }
        self.pos = off;
        Ok(())
    }

    /// Move `n` bytes forward.
    pub fn skip(&mut self, n: usize) -> (r: EmuResult<()>)
        requires
            old(self).wf(),
        ensures
            final(self).wf(),
            if old(self).pos + n > usize::MAX {
                r matches Err(e) && e@ == ErrorView::MachO("skip overflow"@) && *final(self)
                    == *old(self)
            } else if old(self).pos + n > old(self).data@.len() {
                r matches Err(e) && e@ == past_end("seek"@, old(self).pos + n) && *final(self)
                    == *old(self)
            } else {
                r is Ok && old(self).advanced(n as int, *final(self))
            },
    {
        match self.pos.checked_add(n) {
            Some(off) => self.seek(off),
            None => Err(EmuError::MachO("skip overflow".to_owned())),
        }
    }

    /// How many bytes are left.
    pub fn remaining(&self) -> (r: usize)
        requires
            self.wf(),
        ensures
            r == self.data@.len() - self.pos,
    {
        self.data.len() - self.pos
    }

    fn take(&mut self, n: usize) -> (r: EmuResult<&'a [u8]>)
        requires
            old(self).wf(),
        ensures
            final(self).wf(),
            match shortage(old(self).data@.len() as int, old(self).pos as int, n as int) {
                Some(e) => r matches Err(x) && x@ == e && *final(self) == *old(self),
                None => r matches Ok(s) && old(self).advanced(n as int, *final(self)) && s@
                    == old(self).data@.subrange(old(self).pos as int, old(self).pos + n),
            },
    {
        if n > self.data.len() - self.pos {
            return Err(shortage_error(self.data.len(), self.pos, n));
        }
        let s = vstd::slice::slice_subrange(self.data, self.pos, self.pos + n);
        self.pos = self.pos + n;
        Ok(s)
    }

    /// Read one byte.
    pub fn u8(&mut self) -> (r: EmuResult<u8>)
        requires
            old(self).wf(),
        ensures
            final(self).wf(),
            match shortage(old(self).data@.len() as int, old(self).pos as int, 1) {
                Some(e) => r matches Err(x) && x@ == e && *final(self) == *old(self),
                None => r matches Ok(v) && old(self).advanced(1, *final(self)) && v
                    == old(self).data@[old(self).pos as int],
            },
    {
        Ok(self.take(1)?[0])
    }

    /// Read two bytes, least significant first.
    pub fn u16_le(&mut self) -> (r: EmuResult<u16>)
        requires
            old(self).wf(),
        ensures
            final(self).wf(),
            match shortage(old(self).data@.len() as int, old(self).pos as int, 2) {
                Some(e) => r matches Err(x) && x@ == e && *final(self) == *old(self),
                None => r matches Ok(v) && old(self).advanced(2, *final(self)) && v == bytes::le16(
                    old(self).data@,
                    old(self).pos as int,
                ),
            },
    {
        Ok(bytes::get_le16(self.take(2)?, 0))
    }

    /// Read four bytes, least significant first.
    pub fn u32_le(&mut self) -> (r: EmuResult<u32>)
        requires
            old(self).wf(),
        ensures
            final(self).wf(),
            match shortage(old(self).data@.len() as int, old(self).pos as int, 4) {
                Some(e) => r matches Err(x) && x@ == e && *final(self) == *old(self),
                None => r matches Ok(v) && old(self).advanced(4, *final(self)) && v == bytes::le32(
                    old(self).data@,
                    old(self).pos as int,
                ),
            },
    {
        Ok(bytes::get_le32(self.take(4)?, 0))
    }

    /// Read eight bytes, least significant first.
    pub fn u64_le(&mut self) -> (r: EmuResult<u64>)
        requires
            old(self).wf(),
        ensures
            final(self).wf(),
            match shortage(old(self).data@.len() as int, old(self).pos as int, 8) {
                Some(e) => r matches Err(x) && x@ == e && *final(self) == *old(self),
                None => r matches Ok(v) && old(self).advanced(8, *final(self)) && v == bytes::le64(
                    old(self).data@,
                    old(self).pos as int,
                ),
            },
    {
        Ok(bytes::get_le64(self.take(8)?, 0))
    }

    /// Read four bytes, most significant first.
    pub fn u32_be(&mut self) -> (r: EmuResult<u32>)
        requires
            old(self).wf(),
        ensures
            final(self).wf(),
            match shortage(old(self).data@.len() as int, old(self).pos as int, 4) {
                Some(e) => r matches Err(x) && x@ == e && *final(self) == *old(self),
                None => r matches Ok(v) && old(self).advanced(4, *final(self)) && v == bytes::be32(
                    old(self).data@,
                    old(self).pos as int,
                ),
            },
    {
        Ok(bytes::get_be32(self.take(4)?, 0))
    }

    /// Read eight bytes, most significant first.
    pub fn u64_be(&mut self) -> (r: EmuResult<u64>)
        requires
            old(self).wf(),
        ensures
            final(self).wf(),
            match shortage(old(self).data@.len() as int, old(self).pos as int, 8) {
                Some(e) => r matches Err(x) && x@ == e && *final(self) == *old(self),
                None => r matches Ok(v) && old(self).advanced(8, *final(self)) && v == bytes::be64(
                    old(self).data@,
                    old(self).pos as int,
                ),
            },
    {
        Ok(bytes::get_be64(self.take(8)?, 0))
    }

    /// Read a fixed-width, NUL-padded field as text.
    pub fn fixed_str(&mut self, n: usize) -> (r: EmuResult<String>)
        requires
            old(self).wf(),
        ensures
            final(self).wf(),
            match shortage(old(self).data@.len() as int, old(self).pos as int, n as int) {
                Some(e) => r matches Err(x) && x@ == e && *final(self) == *old(self),
                None => r matches Ok(v) && old(self).advanced(n as int, *final(self)) && v@
                    == padded_text(
                    old(self).data@.subrange(old(self).pos as int, old(self).pos + n),
                ),
            },
    {
        let raw = self.take(n)?;
        assert(raw@.subrange(0, n as int) =~= raw@);
        Ok(padded_string(raw, 0, n))
    }

    /// Borrow `n` raw bytes.
    pub fn bytes(&mut self, n: usize) -> (r: EmuResult<&'a [u8]>)
        requires
            old(self).wf(),
        ensures
            final(self).wf(),
            match shortage(old(self).data@.len() as int, old(self).pos as int, n as int) {
                Some(e) => r matches Err(x) && x@ == e && *final(self) == *old(self),
                None => r matches Ok(s) && old(self).advanced(n as int, *final(self)) && s@
                    == old(self).data@.subrange(old(self).pos as int, old(self).pos + n),
            },
    {
        self.take(n)
    }

    /// Decode the next four bytes without advancing.
    pub fn peek_u32_le(&self) -> (r: EmuResult<u32>)
        requires
            self.wf(),
        ensures
            if self.pos + 4 > self.data@.len() {
                r matches Err(e) && e@ == ErrorView::MachO("peek past end"@)
            } else {
                r matches Ok(v) && v == bytes::le32(self.data@, self.pos as int)
            },
    {
        if self.data.len() - self.pos < 4 {
            return Err(EmuError::MachO("peek past end".to_owned()));
        }
        Ok(bytes::get_le32(self.data, self.pos))
    }
}

} // verus!
