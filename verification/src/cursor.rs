//! Bounds-checked little-endian cursor over a byte slice.

use vstd::prelude::*;

use crate::error::{truncated, Tm25Error};
use crate::le::{i32_at, sat, u32_at, u32_from_le, u64_at};
use crate::text::{prefixed, utf32_skip_nul, utf32_until_nul};

verus! {

/// A read position inside a byte slice. Every read checks the bounds and
/// reports [`Tm25Error::Truncated`] with the offset it would have needed.
pub struct Cursor<'a> {
    pub bytes: &'a [u8],
    pub pos: usize,
}

impl<'a> Cursor<'a> {
    /// The position lies inside the slice (or at its end).
    pub open spec fn wf(&self) -> bool {
        self.pos <= self.bytes@.len()
    }

    pub fn new(bytes: &'a [u8]) -> (r: Self)
        ensures
            r.bytes@ == bytes@,
            r.pos == 0,
            r.wf(),
    {
        Cursor { bytes, pos: 0 }
    }

    /// `Ok` when `n` more bytes are available.
    pub fn need(&self, n: usize) -> (r: Result<(), Tm25Error>)
        requires
            self.wf(),
        ensures
            r is Ok <==> self.pos + n <= self.bytes@.len(),
            r matches Err(e) ==> e@ == truncated(self.pos + n, self.bytes@.len() as int),
    {
        if n > self.bytes.len() - self.pos {
            let needed = if n > usize::MAX - self.pos {
                usize::MAX
            } else {
                self.pos + n
            };
            Err(Tm25Error::Truncated { needed, have: self.bytes.len() })
        } else {
            Ok(())
        }
    }

    /// The next `n` bytes.
    pub fn take(&mut self, n: usize) -> (r: Result<&'a [u8], Tm25Error>)
        requires
            old(self).wf(),
        ensures
            final(self).wf(),
            final(self).bytes@ == old(self).bytes@,
            r is Ok <==> old(self).pos + n <= old(self).bytes@.len(),
            r matches Ok(s) ==> s@ == old(self).bytes@.subrange(
                old(self).pos as int,
                old(self).pos + n,
            ) && final(self).pos == old(self).pos + n,
            r matches Err(e) ==> e@ == truncated(
                old(self).pos + n,
                old(self).bytes@.len() as int,
            ) && final(self).pos == old(self).pos,
    {
        let r = self.need(n);
        if let Err(e) = r {
            return Err(e);
        }
        let len = self.bytes.len();
        assert(self.pos + n <= len);
        let s = &self.bytes[self.pos..self.pos + n];
        self.pos = self.pos + n;
        Ok(s)
    }

    /// Move to absolute offset `pos`.
    pub fn seek(&mut self, pos: usize) -> (r: Result<(), Tm25Error>)
        requires
            old(self).wf(),
        ensures
            final(self).wf(),
            final(self).bytes@ == old(self).bytes@,
            r is Ok <==> pos <= old(self).bytes@.len(),
            r is Ok ==> final(self).pos == pos,
            r matches Err(e) ==> e@ == truncated(pos as int, old(self).bytes@.len() as int)
                && final(self).pos == old(self).pos,
    {
        if pos > self.bytes.len() {
            return Err(Tm25Error::Truncated { needed: pos, have: self.bytes.len() });
        }
        self.pos = pos;
        Ok(())
    }

    /// The next four bytes.
    pub fn bytes4(&mut self) -> (r: Result<[u8; 4], Tm25Error>)
        requires
            old(self).wf(),
        ensures
            final(self).wf(),
            final(self).bytes@ == old(self).bytes@,
            r is Ok <==> old(self).pos + 4 <= old(self).bytes@.len(),
            r matches Ok(a) ==> a@ == old(self).bytes@.subrange(
                old(self).pos as int,
                old(self).pos + 4,
            ) && final(self).pos == old(self).pos + 4,
            r matches Err(e) ==> e@ == truncated(old(self).pos + 4, old(self).bytes@.len() as int)
                && final(self).pos == old(self).pos,
    {
        let s = match self.take(4) {
            Ok(s) => s,
            Err(e) => return Err(e),
        };
        let a = [s[0], s[1], s[2], s[3]];
        assert(a@ =~= s@);
        Ok(a)
    }

    /// The next little-endian `u32`.
    pub fn u32(&mut self) -> (r: Result<u32, Tm25Error>)
        requires
            old(self).wf(),
        ensures
            final(self).wf(),
            final(self).bytes@ == old(self).bytes@,
            r is Ok <==> old(self).pos + 4 <= old(self).bytes@.len(),
            r matches Ok(v) ==> v == u32_at(old(self).bytes@, old(self).pos as int)
                && final(self).pos == old(self).pos + 4,
            r matches Err(e) ==> e@ == truncated(old(self).pos + 4, old(self).bytes@.len() as int)
                && final(self).pos == old(self).pos,
    {
        let a = match self.bytes4() {
            Ok(a) => a,
            Err(e) => return Err(e),
        };
        Ok(u32_from_le(a[0], a[1], a[2], a[3]))
    }

    /// The next little-endian `i32`.
    pub fn i32(&mut self) -> (r: Result<i32, Tm25Error>)
        requires
            old(self).wf(),
        ensures
            final(self).wf(),
            final(self).bytes@ == old(self).bytes@,
            r is Ok <==> old(self).pos + 4 <= old(self).bytes@.len(),
            r matches Ok(v) ==> v == i32_at(old(self).bytes@, old(self).pos as int)
                && final(self).pos == old(self).pos + 4,
            r matches Err(e) ==> e@ == truncated(old(self).pos + 4, old(self).bytes@.len() as int)
                && final(self).pos == old(self).pos,
    {
        let v = match self.u32() {
            Ok(v) => v,
            Err(e) => return Err(e),
        };
        Ok(v as i32)
    }

    /// The next `f32`, as its bit pattern.
    pub fn f32_bits(&mut self) -> (r: Result<u32, Tm25Error>)
        requires
            old(self).wf(),
        ensures
            final(self).wf(),
            final(self).bytes@ == old(self).bytes@,
            r is Ok <==> old(self).pos + 4 <= old(self).bytes@.len(),
            r matches Ok(v) ==> v == u32_at(old(self).bytes@, old(self).pos as int)
                && final(self).pos == old(self).pos + 4,
            r matches Err(e) ==> e@ == truncated(old(self).pos + 4, old(self).bytes@.len() as int)
                && final(self).pos == old(self).pos,
    {
        self.u32()
    }

    /// The next little-endian `u64`.
    pub fn u64(&mut self) -> (r: Result<u64, Tm25Error>)
        requires
            old(self).wf(),
        ensures
            final(self).wf(),
            final(self).bytes@ == old(self).bytes@,
            r is Ok <==> old(self).pos + 8 <= old(self).bytes@.len(),
            r matches Ok(v) ==> v == u64_at(old(self).bytes@, old(self).pos as int)
                && final(self).pos == old(self).pos + 8,
            r matches Err(e) ==> e@ == truncated(old(self).pos + 8, old(self).bytes@.len() as int)
                && final(self).pos == old(self).pos,
    {
        let s = match self.take(8) {
            Ok(s) => s,
            Err(e) => return Err(e),
        };
        let lo = u32_from_le(s[0], s[1], s[2], s[3]);
        let hi = u32_from_le(s[4], s[5], s[6], s[7]);
        Ok((lo as u64) | ((hi as u64) << 32u64))
    }

    /// A fixed-width UTF-32LE field of `chars` code points, ending at the
    /// first NUL inside it. The cursor moves past the whole field.
    pub fn utf32_fixed(&mut self, chars: usize, field: &'static str) -> (r: Result<
        String,
        Tm25Error,
    >)
        requires
            old(self).wf(),
            chars * 4 <= usize::MAX,
        ensures
            final(self).bytes@ == old(self).bytes@,
            final(self).wf(),
            ({
                let b = old(self).bytes@;
                let p = old(self).pos as int;
                if p + 4 * chars > b.len() {
                    r matches Err(e) && e@ == truncated(p + 4 * chars, b.len() as int)
                        && final(self).pos == p
                } else {
                    match utf32_until_nul(b, p, chars as nat) {
                        Ok(s) => r matches Ok(t) && t@ == s && final(self).pos == p + 4 * chars,
                        Err(cp) => r matches Err(e) && e@ == (crate::error::ErrorModel::InvalidText {
                            field: field@,
                            code_point: cp,
                        }),
                    }
                }
            }),
    {
        let start = self.pos;
        match self.need(chars * 4) {
            Ok(()) => {},
            Err(e) => return Err(e),
        }
        let ghost b = self.bytes@;
        let mut out = String::new();
        let mut i: usize = 0;
        while i < chars
            invariant_except_break
                self.bytes@ == b,
                b == old(self).bytes@,
                start == old(self).pos,
                start + 4 * chars <= b.len(),
                i <= chars,
                self.pos == start + 4 * i,
                utf32_until_nul(b, start as int, chars as nat) == prefixed(
                    out@,
                    utf32_until_nul(b, start + 4 * i, (chars - i) as nat),
                ),
            ensures
                self.bytes@ == b,
                start + 4 * chars <= b.len(),
                utf32_until_nul(b, start as int, chars as nat) == Ok::<Seq<char>, u32>(out@),
            decreases chars - i,
        {
            let cp = match self.u32() {
                Ok(v) => v,
                Err(e) => return Err(e),
            };
            if cp == 0 {
                break;
            }
            match char::from_u32(cp) {
                Some(c) => {
                    let ghost before = out@;
                    out.push(c);
                    proof {
                        let tail = utf32_until_nul(b, start + 4 * (i + 1), (chars - i - 1) as nat);
                        match tail {
                            Ok(t) => {
                                assert(before + (seq![c] + t) =~= out@ + t);
                            },
                            Err(_) => {},
                        }
                    }
                },
                None => {
                    return Err(Tm25Error::InvalidText { field, code_point: cp });
                },
            }
            i = i + 1;
        }
        let len = self.bytes.len();
        assert(start + 4 * chars <= len);
        self.pos = start + chars * 4;
        Ok(out)
    }

    /// Exactly `chars` UTF-32LE code points, NULs left out of the result.
    pub fn utf32_exact(&mut self, chars: usize, field: &'static str) -> (r: Result<
        String,
        Tm25Error,
    >)
        requires
            old(self).wf(),
        ensures
            final(self).bytes@ == old(self).bytes@,
            final(self).wf(),
            ({
                let b = old(self).bytes@;
                let p = old(self).pos as int;
                if p + 4 * chars > b.len() {
                    r matches Err(e) && e@ == truncated(p + sat(4 * chars), b.len() as int)
                } else {
                    match utf32_skip_nul(b, p, chars as nat) {
                        Ok(s) => r matches Ok(t) && t@ == s && final(self).pos == p + 4 * chars,
                        Err(cp) => r matches Err(e) && e@ == (crate::error::ErrorModel::InvalidText {
                            field: field@,
                            code_point: cp,
                        }),
                    }
                }
            }),
    {
        let start = self.pos;
        if chars > (self.bytes.len() - self.pos) / 4 {
            let bytes_needed = if chars > usize::MAX / 4 {
                usize::MAX
            } else {
                chars * 4
            };
            let needed = if bytes_needed > usize::MAX - self.pos {
                usize::MAX
            } else {
                self.pos + bytes_needed
            };
            return Err(Tm25Error::Truncated { needed, have: self.bytes.len() });
        }
        let ghost b = self.bytes@;
        let mut out = String::new();
        let mut i: usize = 0;
        while i < chars
            invariant
                self.bytes@ == b,
                b == old(self).bytes@,
                start == old(self).pos,
                start + 4 * chars <= b.len(),
                i <= chars,
                self.pos == start + 4 * i,
                utf32_skip_nul(b, start as int, chars as nat) == prefixed(
                    out@,
                    utf32_skip_nul(b, start + 4 * i, (chars - i) as nat),
                ),
            decreases chars - i,
        {
            let cp = match self.u32() {
                Ok(v) => v,
                Err(e) => return Err(e),
            };
            if cp != 0 {
                match char::from_u32(cp) {
                    Some(c) => {
                        let ghost before = out@;
                        out.push(c);
                        proof {
                            let tail = utf32_skip_nul(
                                b,
                                start + 4 * (i + 1),
                                (chars - i - 1) as nat,
                            );
                            match tail {
                                Ok(t) => {
                                    assert(before + (seq![c] + t) =~= out@ + t);
                                },
                                Err(_) => {},
                            }
                        }
                    },
                    None => {
                        return Err(Tm25Error::InvalidText { field, code_point: cp });
                    },
                }
            }
            i = i + 1;
        }
        proof {
            assert(out@ + Seq::<char>::empty() =~= out@);
        }
        Ok(out)
    }
}

} // verus!
