use vstd::prelude::*;

use crate::types::{Encoding, ParseError};
use crate::text::{
    chars_of, decode_utf16, first_unpaired, latin1_text, utf16_text, utf16_valid, utf8_string, utf8_text,
    utf8_valid_up_to,
};

verus! {

/// One byte at `p`, and the position after it.
pub open spec fn spec_u8(d: Seq<u8>, p: int) -> Result<(u8, int), ParseError> {
    if 0 <= p < d.len() {
        Ok((d[p], p + 1))
    } else {
        Err(ParseError::UnexpectedEof { offset: p as usize, len: 1 })
    }
}

/// The `n` bytes at `p`, and the position after them.
pub open spec fn spec_bytes(d: Seq<u8>, p: int, n: int) -> Result<(Seq<u8>, int), ParseError> {
    if p + n <= d.len() {
        Ok((d.subrange(p, p + n), p + n))
    } else {
        Err(ParseError::UnexpectedEof { offset: p as usize, len: n as u128 })
    }
}

/// A flag byte: 0 is false, 1 is true, anything else is refused.
pub open spec fn spec_bool(d: Seq<u8>, p: int) -> Result<(bool, int), ParseError> {
    match spec_u8(d, p) {
        Ok((b, q)) => if b == 0 {
            Ok((false, q))
        } else if b == 1 {
            Ok((true, q))
        } else {
            Err(ParseError::InvalidValue { offset: p as usize })
        },
        Err(e) => Err(e),
    }
}

/// The unsigned LEB128 number whose `i`-th byte stands at `s + i`: its value
/// counted from byte `i` on, and the position after its last byte. At most ten
/// bytes are read.
pub open spec fn leb_from(d: Seq<u8>, s: int, i: nat) -> Result<(nat, int), ParseError>
    decreases 10 - i,
{
    if i >= 10 {
        Err(ParseError::InvalidValue { offset: s as usize })
    } else if s + i >= d.len() {
        Err(ParseError::UnexpectedEof { offset: (s + i) as usize, len: 1 })
    } else if d[s + i] < 128 {
        Ok((d[s + i] as nat, s + i + 1))
    } else {
        match leb_from(d, s, i + 1) {
            Ok((v, e)) => Ok(((d[s + i] - 128) as nat + 128 * v, e)),
            Err(x) => Err(x),
        }
    }
}

/// An unsigned LEB128 number at `p` that fits in 64 bits.
pub open spec fn spec_leb(d: Seq<u8>, p: int) -> Result<(u64, int), ParseError> {
    match leb_from(d, p, 0) {
        Ok((v, e)) => if v <= u64::MAX {
            Ok((v as u64, e))
        } else {
            Err(ParseError::InvalidValue { offset: p as usize })
        },
        Err(x) => Err(x),
    }
}

/// 16-bit units of a byte sequence of even length, big-endian where `big` holds
/// and little-endian otherwise.
pub open spec fn units_of(b: Seq<u8>, big: bool) -> Seq<u16> {
    Seq::new(
        (b.len() / 2) as nat,
        |i: int| if big { (256 * b[2 * i] + b[2 * i + 1]) as u16 } else { (b[2 * i] + 256 * b[2 * i + 1]) as u16 },
    )
}

/// `n` UTF-16 units at `p`.
pub open spec fn spec_units(d: Seq<u8>, p: int, n: int, big: bool) -> Result<(Seq<u16>, int), ParseError> {
    match spec_bytes(d, p, 2 * n) {
        Ok((b, q)) => Ok((units_of(b, big), q)),
        Err(e) => Err(e),
    }
}

/// `n` UTF-16 units at `p`, decoded; an unpaired surrogate is refused at its byte
/// offset, naming the encoding `enc` that the tab declares.
pub open spec fn spec_text(d: Seq<u8>, p: int, n: int, enc: Option<Encoding>, big: bool) -> Result<(Seq<char>, int), ParseError> {
    match spec_units(d, p, n, big) {
        Ok((u, q)) => if utf16_valid(u) {
            Ok((utf16_text(u), q))
        } else {
            Err(ParseError::EncodingError { offset: (p + 2 * first_unpaired(u, 0)) as usize, encoding: enc })
        },
        Err(e) => Err(e),
    }
}

/// Length of the UTF-8 byte-order mark at the start of `b`, where `bom` asks for one to be removed.
pub open spec fn bom_len(b: Seq<u8>, bom: bool) -> int {
    if bom && b.len() >= 3 && b[0] == 0xEF && b[1] == 0xBB && b[2] == 0xBF {
        3
    } else {
        0
    }
}

/// `n` UTF-8 bytes at `p`, decoded after the byte-order mark where `bom` holds;
/// the first invalid sequence is refused at its byte offset.
pub open spec fn spec_utf8(d: Seq<u8>, p: int, n: int, enc: Option<Encoding>, bom: bool) -> Result<(Seq<char>, int), ParseError> {
    match spec_bytes(d, p, n) {
        Ok((b, q)) => {
            let k = bom_len(b, bom);
            let rest = b.skip(k);
            if utf8_valid_up_to(rest) == rest.len() {
                Ok((utf8_text(rest), q))
            } else {
                Err(ParseError::EncodingError { offset: (p + k + utf8_valid_up_to(rest)) as usize, encoding: enc })
            }
        },
        Err(e) => Err(e),
    }
}

/// `n` bytes of text at `p` in the encoding `enc`: one byte per unit for ANSI
/// (read as Latin-1) and UTF-8, two for UTF-16, big-endian for UTF16BE and
/// little-endian where the encoding is UTF16LE, unknown or not declared.
pub open spec fn spec_content(d: Seq<u8>, p: int, n: int, enc: Option<Encoding>) -> Result<(Seq<char>, int), ParseError> {
    match enc {
        Some(Encoding::UTF8) => spec_utf8(d, p, n, enc, false),
        Some(Encoding::UTF8BOM) => spec_utf8(d, p, n, enc, true),
        Some(Encoding::ANSI) => match spec_bytes(d, p, n) {
            Ok((b, q)) => Ok((latin1_text(b), q)),
            Err(e) => Err(e),
        },
        Some(Encoding::UTF16BE) => spec_text(d, p, n, enc, true),
        _ => spec_text(d, p, n, enc, false),
    }
}

/// 128 to the power `k`.
pub open spec fn cap(k: nat) -> nat
    decreases k,
{
    if k == 0 {
        1
    } else {
        128 * cap((k - 1) as nat)
    }
}

proof fn lemma_cap_monotone(j: nat, k: nat)
    requires
        j <= k,
    ensures
        cap(j) <= cap(k),
    decreases k - j,
{
    if j < k {
        lemma_cap_monotone(j, (k - 1) as nat);
    }
}

pub proof fn lemma_cap_ten()
    ensures
        cap(10) == 1180591620717411303424,
{
    reveal_with_fuel(cap, 11);
}

/// A read cursor over an immutable byte buffer.
pub struct ByteReader {
    pub data: Vec<u8>,
    pub pos: usize,
}

impl ByteReader {
    pub open spec fn wf(&self) -> bool {
        self.pos <= self.data.len()
    }

    pub fn new(data: Vec<u8>) -> (r: ByteReader)
        ensures
            r.data@ == data@,
            r.pos == 0,
            r.wf(),
    {
        ByteReader { data, pos: 0 }
    }

    /// Number of bytes not yet read.
    pub fn remaining(&self) -> (r: usize)
        requires
            self.wf(),
        ensures
            r == self.data.len() - self.pos,
    {
        self.data.len() - self.pos
    }

    /// Moves the cursor to `offset`, which must lie within the buffer.
    pub fn seek(&mut self, offset: usize) -> (r: Result<(), ParseError>)
        requires
            old(self).wf(),
        ensures
            final(self).wf(),
            final(self).data == old(self).data,
            offset <= old(self).data.len() ==> r is Ok && final(self).pos == offset,
            offset > old(self).data.len() ==> r == Err::<(), ParseError>(
                ParseError::UnexpectedEof { offset: old(self).data.len(), len: (offset - old(self).data.len()) as u128 },
            ) && final(self).pos == old(self).pos,
    {
        if offset <= self.data.len() {
            self.pos = offset;
            Ok(())
        } else {
            Err(ParseError::UnexpectedEof { offset: self.data.len(), len: (offset - self.data.len()) as u128 })
        }
    }

    pub fn read_u8(&mut self) -> (r: Result<u8, ParseError>)
        requires
            old(self).wf(),
        ensures
            final(self).wf(),
            final(self).data == old(self).data,
            match r {
                Ok(v) => spec_u8(old(self).data@, old(self).pos as int) == Ok::<(u8, int), ParseError>((v, final(self).pos as int)),
                Err(e) => spec_u8(old(self).data@, old(self).pos as int) == Err::<(u8, int), ParseError>(e),
            },
    {
        if self.pos < self.data.len() {
            let b = self.data[self.pos];
            self.pos = self.pos + 1;
            Ok(b)
        } else {
            Err(ParseError::UnexpectedEof { offset: self.pos, len: 1 })
        }
    }

    pub fn read_bool(&mut self) -> (r: Result<bool, ParseError>)
        requires
            old(self).wf(),
        ensures
            final(self).wf(),
            final(self).data == old(self).data,
            match r {
                Ok(v) => spec_bool(old(self).data@, old(self).pos as int) == Ok::<(bool, int), ParseError>((v, final(self).pos as int)),
                Err(e) => spec_bool(old(self).data@, old(self).pos as int) == Err::<(bool, int), ParseError>(e),
            },
    {
        let start = self.pos;
        let b = self.read_u8()?;
        if b == 0 {
            Ok(false)
        } else if b == 1 {
            Ok(true)
        } else {
            Err(ParseError::InvalidValue { offset: start })
        }
    }

    pub fn read_bytes(&mut self, n: usize) -> (r: Result<Vec<u8>, ParseError>)
        requires
            old(self).wf(),
        ensures
            final(self).wf(),
            final(self).data == old(self).data,
            match r {
                Ok(v) => spec_bytes(old(self).data@, old(self).pos as int, n as int) == Ok::<(Seq<u8>, int), ParseError>((v@, final(self).pos as int)),
                Err(e) => spec_bytes(old(self).data@, old(self).pos as int, n as int) == Err::<(Seq<u8>, int), ParseError>(e),
            },
    {
        if n > self.data.len() - self.pos {
            return Err(ParseError::UnexpectedEof { offset: self.pos, len: n as u128 });
        }
        let start = self.pos;
        let mut out: Vec<u8> = Vec::new();
        let mut i: usize = 0;
        while i < n
            invariant
                self.wf(),
                start + n <= self.data.len(),
                i <= n,
                out@ == self.data@.subrange(start as int, start + i),
            decreases n - i,
        {
            out.push(self.data[start + i]);
            i = i + 1;
            assert(out@ =~= self.data@.subrange(start as int, start + i));
        }
        self.pos = start + n;
        Ok(out)
    }

    /// The LEB128 value counted from byte `i` of the number at `s`, in 128-bit arithmetic.
    fn leb_tail(&self, s: usize, i: usize) -> (r: Result<(u128, usize), ParseError>)
        requires
            self.wf(),
            s + i <= self.data.len(),
            i <= 10,
        ensures
            match r {
                Ok((v, e)) => leb_from(self.data@, s as int, i as nat) == Ok::<(nat, int), ParseError>((v as nat, e as int))
                    && (v as nat) < cap((10 - i) as nat) && s < e <= self.data.len(),
                Err(x) => leb_from(self.data@, s as int, i as nat) == Err::<(nat, int), ParseError>(x),
            },
        decreases 10 - i,
    {
        if i >= 10 {
            return Err(ParseError::InvalidValue { offset: s });
        }
        if i >= self.data.len() - s {
            return Err(ParseError::UnexpectedEof { offset: s + i, len: 1 });
        }
        let b = self.data[s + i];
        proof {
            lemma_cap_monotone((9 - i) as nat, 9);
            lemma_cap_monotone(1, (10 - i) as nat);
            lemma_cap_ten();
            reveal_with_fuel(cap, 2);
        }
        if b < 128 {
            Ok((b as u128, s + i + 1))
        } else {
            let (v, e) = self.leb_tail(s, i + 1)?;
            assert(cap((10 - i) as nat) == 128 * cap((9 - i) as nat));
            assert((v as nat) + 1 <= cap((9 - i) as nat));
            assert(128 * ((v as nat) + 1) <= 128 * cap((9 - i) as nat)) by (nonlinear_arith)
                requires (v as nat) + 1 <= cap((9 - i) as nat);
            Ok(((b - 128) as u128 + 128 * v, e))
        }
    }

    /// An unsigned LEB128 number of at most ten bytes whose value fits in 64 bits.
    pub fn read_uleb128(&mut self) -> (r: Result<u64, ParseError>)
        requires
            old(self).wf(),
        ensures
            final(self).wf(),
            final(self).data == old(self).data,
            match r {
                Ok(v) => spec_leb(old(self).data@, old(self).pos as int) == Ok::<(u64, int), ParseError>((v, final(self).pos as int))
                    && final(self).pos > old(self).pos,
                Err(e) => spec_leb(old(self).data@, old(self).pos as int) == Err::<(u64, int), ParseError>(e),
            },
    {
        let start = self.pos;
        let (v, e) = self.leb_tail(start, 0)?;
        if v > u64::MAX as u128 {
            return Err(ParseError::InvalidValue { offset: start });
        }
        self.pos = e;
        Ok(v as u64)
    }

    /// `n` UTF-16 units, big-endian where `big` holds.
    pub fn read_units(&mut self, n: u64, big: bool) -> (r: Result<Vec<u16>, ParseError>)
        requires
            old(self).wf(),
        ensures
            final(self).wf(),
            final(self).data == old(self).data,
            match r {
                Ok(v) => spec_units(old(self).data@, old(self).pos as int, n as int, big) == Ok::<(Seq<u16>, int), ParseError>((v@, final(self).pos as int)),
                Err(e) => spec_units(old(self).data@, old(self).pos as int, n as int, big) == Err::<(Seq<u16>, int), ParseError>(e),
            },
    {
        let avail = self.data.len() - self.pos;
        if n as u128 > (avail / 2) as u128 {
            return Err(ParseError::UnexpectedEof { offset: self.pos, len: 2 * (n as u128) });
        }
        let start = self.pos;
        let m = n as usize;
        let ghost b = self.data@.subrange(start as int, start + 2 * m);
        let mut out: Vec<u16> = Vec::new();
        let mut i: usize = 0;
        while i < m
            invariant
                self.wf(),
                start + 2 * m <= self.data.len(),
                i <= m,
                b == self.data@.subrange(start as int, start + 2 * m),
                out@ == units_of(b, big).take(i as int),
            decreases m - i,
        {
            let b0 = self.data[start + 2 * i];
            let b1 = self.data[start + 2 * i + 1];
            assert(b[2 * i as int] == b0 && b[2 * i + 1] == b1);
            assert(units_of(b, big).len() == m);
            let unit: u16 = if big {
                (b0 as u16) * 256 + (b1 as u16)
            } else {
                (b0 as u16) + (b1 as u16) * 256
            };
            out.push(unit);
            i = i + 1;
            assert(out@ =~= units_of(b, big).take(i as int));
        }
        assert(out@ =~= units_of(b, big));
        self.pos = start + 2 * m;
        Ok(out)
    }

    /// `n` UTF-16 units, decoded to characters.
    pub fn read_text(&mut self, n: u64, enc: Option<Encoding>, big: bool) -> (r: Result<Vec<char>, ParseError>)
        requires
            old(self).wf(),
        ensures
            final(self).wf(),
            final(self).data == old(self).data,
            match r {
                Ok(v) => spec_text(old(self).data@, old(self).pos as int, n as int, enc, big) == Ok::<(Seq<char>, int), ParseError>((v@, final(self).pos as int)),
                Err(e) => spec_text(old(self).data@, old(self).pos as int, n as int, enc, big) == Err::<(Seq<char>, int), ParseError>(e),
            },
    {
        let start = self.pos;
        let u = self.read_units(n, big)?;
        match decode_utf16(&u) {
            Ok(v) => Ok(v),
            Err(i) => {
                assert(2 * u@.len() <= self.data@.len());
                Err(ParseError::EncodingError { offset: start + 2 * i, encoding: enc })
            },
        }
    }

    /// `n` bytes, where `n` may exceed the address space.
    fn read_span(&mut self, n: u64) -> (r: Result<Vec<u8>, ParseError>)
        requires
            old(self).wf(),
        ensures
            final(self).wf(),
            final(self).data == old(self).data,
            match r {
                Ok(v) => spec_bytes(old(self).data@, old(self).pos as int, n as int) == Ok::<(Seq<u8>, int), ParseError>((v@, final(self).pos as int)),
                Err(e) => spec_bytes(old(self).data@, old(self).pos as int, n as int) == Err::<(Seq<u8>, int), ParseError>(e),
            },
    {
        if n as u128 > (self.data.len() - self.pos) as u128 {
            return Err(ParseError::UnexpectedEof { offset: self.pos, len: n as u128 });
        }
        self.read_bytes(n as usize)
    }

    /// `n` bytes of UTF-8 text, without a leading byte-order mark where `bom` holds.
    fn read_utf8(&mut self, n: u64, enc: Option<Encoding>, bom: bool) -> (r: Result<Vec<char>, ParseError>)
        requires
            old(self).wf(),
        ensures
            final(self).wf(),
            final(self).data == old(self).data,
            match r {
                Ok(v) => spec_utf8(old(self).data@, old(self).pos as int, n as int, enc, bom) == Ok::<(Seq<char>, int), ParseError>((v@, final(self).pos as int)),
                Err(e) => spec_utf8(old(self).data@, old(self).pos as int, n as int, enc, bom) == Err::<(Seq<char>, int), ParseError>(e),
            },
    {
        let start = self.pos;
        let b = self.read_span(n)?;
        let k: usize = if bom && b.len() >= 3 && b[0] == 0xEF && b[1] == 0xBB && b[2] == 0xBF {
            3
        } else {
            0
        };
        let mut rest: Vec<u8> = Vec::new();
        let mut i: usize = k;
        while i < b.len()
            invariant
                k <= i <= b.len(),
                k <= 3,
                rest@ == b@.subrange(k as int, i as int),
            decreases b.len() - i,
        {
            rest.push(b[i]);
            i = i + 1;
            assert(rest@ =~= b@.subrange(k as int, i as int));
        }
        assert(rest@ =~= b@.skip(k as int));
        match utf8_string(rest) {
            Ok(s) => Ok(chars_of(&s)),
            Err(j) => Err(ParseError::EncodingError { offset: start + k + j, encoding: enc }),
        }
    }

    /// `n` bytes of ANSI text, one character per byte.
    fn read_latin1(&mut self, n: u64) -> (r: Result<Vec<char>, ParseError>)
        requires
            old(self).wf(),
        ensures
            final(self).wf(),
            final(self).data == old(self).data,
            match r {
                Ok(v) => spec_bytes(old(self).data@, old(self).pos as int, n as int) matches Ok((b, q))
                    && v@ == latin1_text(b) && q == final(self).pos,
                Err(e) => spec_bytes(old(self).data@, old(self).pos as int, n as int) == Err::<(Seq<u8>, int), ParseError>(e),
            },
    {
        let b = self.read_span(n)?;
        let mut out: Vec<char> = Vec::new();
        let mut i: usize = 0;
        while i < b.len()
            invariant
                i <= b.len(),
                out@ == latin1_text(b@).take(i as int),
            decreases b.len() - i,
        {
            out.push(b[i] as char);
            i = i + 1;
            assert(out@ =~= latin1_text(b@).take(i as int));
        }
        assert(out@ =~= latin1_text(b@));
        Ok(out)
    }

    /// `n` units of text in the encoding `enc`, decoded to characters.
    pub fn read_content(&mut self, n: u64, enc: Option<Encoding>) -> (r: Result<Vec<char>, ParseError>)
        requires
            old(self).wf(),
        ensures
            final(self).wf(),
            final(self).data == old(self).data,
            match r {
                Ok(v) => spec_content(old(self).data@, old(self).pos as int, n as int, enc) == Ok::<(Seq<char>, int), ParseError>((v@, final(self).pos as int)),
                Err(e) => spec_content(old(self).data@, old(self).pos as int, n as int, enc) == Err::<(Seq<char>, int), ParseError>(e),
            },
    {
        match enc {
            Some(Encoding::UTF8) => self.read_utf8(n, enc, false),
            Some(Encoding::UTF8BOM) => self.read_utf8(n, enc, true),
            Some(Encoding::ANSI) => self.read_latin1(n),
            Some(Encoding::UTF16BE) => self.read_text(n, enc, true),
            _ => self.read_text(n, enc, false),
        }
    }
}

} // verus!
