//! Little-endian integers and fixed-width byte runs in byte buffers.
//!
//! Encoding appends to a growing buffer; decoding reads from a positioned
//! view of a slice and fails when fewer bytes remain than were asked for.

use vstd::prelude::*;

verus! {

/// The two bytes of `x`, least significant first.
pub open spec fn u16_le(x: u16) -> Seq<u8> {
    seq![(x % 256) as u8, (x / 256) as u8]
}

/// The four bytes of `x`, least significant first.
pub open spec fn u32_le(x: u32) -> Seq<u8> {
    seq![
        (x % 256) as u8,
        (x / 0x100 % 256) as u8,
        (x / 0x1_0000 % 256) as u8,
        (x / 0x100_0000) as u8,
    ]
}

/// The eight bytes of `x`, least significant first.
pub open spec fn u64_le(x: u64) -> Seq<u8> {
    seq![
        (x % 256) as u8,
        (x / 0x100 % 256) as u8,
        (x / 0x1_0000 % 256) as u8,
        (x / 0x100_0000 % 256) as u8,
        (x / 0x1_0000_0000 % 256) as u8,
        (x / 0x100_0000_0000 % 256) as u8,
        (x / 0x1_0000_0000_0000 % 256) as u8,
        (x / 0x100_0000_0000_0000) as u8,
    ]
}

/// The eight bytes of `x`, most significant first.
pub open spec fn u64_be(x: u64) -> Seq<u8> {
    seq![
        (x / 0x100_0000_0000_0000) as u8,
        (x / 0x1_0000_0000_0000 % 256) as u8,
        (x / 0x100_0000_0000 % 256) as u8,
        (x / 0x1_0000_0000 % 256) as u8,
        (x / 0x100_0000 % 256) as u8,
        (x / 0x1_0000 % 256) as u8,
        (x / 0x100 % 256) as u8,
        (x % 256) as u8,
    ]
}

/// The number whose little-endian bytes are the first two of `s`.
pub open spec fn le_u16(s: Seq<u8>) -> u16
    recommends
        s.len() >= 2,
{
    (s[0] as int + 0x100 * s[1] as int) as u16
}

/// The number whose little-endian bytes are the first four of `s`.
pub open spec fn le_u32(s: Seq<u8>) -> u32
    recommends
        s.len() >= 4,
{
    (s[0] as int + 0x100 * s[1] as int + 0x1_0000 * s[2] as int + 0x100_0000 * s[3] as int) as u32
}

/// The number whose little-endian bytes are the first eight of `s`.
pub open spec fn le_u64(s: Seq<u8>) -> u64
    recommends
        s.len() >= 8,
{
    (s[0] as int + 0x100 * s[1] as int + 0x1_0000 * s[2] as int + 0x100_0000 * s[3] as int
        + 0x1_0000_0000 * s[4] as int + 0x100_0000_0000 * s[5] as int + 0x1_0000_0000_0000
        * s[6] as int + 0x100_0000_0000_0000 * s[7] as int) as u64
}

/// The number whose big-endian bytes are the first eight of `s`.
pub open spec fn be_u64(s: Seq<u8>) -> u64
    recommends
        s.len() >= 8,
{
    (s[7] as int + 0x100 * s[6] as int + 0x1_0000 * s[5] as int + 0x100_0000 * s[4] as int
        + 0x1_0000_0000 * s[3] as int + 0x100_0000_0000 * s[2] as int + 0x1_0000_0000_0000
        * s[1] as int + 0x100_0000_0000_0000 * s[0] as int) as u64
}

/// `n` zero bytes.
pub open spec fn zeros(n: nat) -> Seq<u8> {
    Seq::new(n, |i: int| 0u8)
}

/// Decoding undoes encoding, for 16-bit values.
pub proof fn lemma_u16_le_decodes(x: u16)
    ensures
        u16_le(x).len() == 2,
        le_u16(u16_le(x)) == x,
{
}

/// Encoding undoes decoding, for two-byte runs.
pub proof fn lemma_le_u16_encodes(s: Seq<u8>)
    requires
        s.len() == 2,
    ensures
        u16_le(le_u16(s)) == s,
{
    assert(u16_le(le_u16(s)) =~= s);
}

/// Decoding undoes encoding, for 32-bit values.
pub proof fn lemma_u32_le_decodes(x: u32)
    ensures
        u32_le(x).len() == 4,
        le_u32(u32_le(x)) == x,
{
    let x1 = x / 0x100;
    let x2 = x1 / 0x100;
    let x3 = x2 / 0x100;
    assert(x / 0x1_0000 == x2);
    assert(x / 0x100_0000 == x3);
    assert(x == x % 256 + 256 * x1);
    assert(x1 == x1 % 256 + 256 * x2);
    assert(x2 == x2 % 256 + 256 * x3);
    let s = u32_le(x);
    assert(s[0] == x % 256);
    assert(s[1] == x1 % 256);
    assert(s[2] == x2 % 256);
    assert(s[3] == x3);
}

/// Encoding undoes decoding, for four-byte runs.
pub proof fn lemma_le_u32_encodes(s: Seq<u8>)
    requires
        s.len() == 4,
    ensures
        u32_le(le_u32(s)) == s,
{
    let x = le_u32(s);
    let t3 = s[3] as int;
    let t2 = s[2] + 256 * t3;
    let t1 = s[1] + 256 * t2;
    let t0 = s[0] + 256 * t1;
    assert(x == t0);
    assert(x / 0x100 == t1);
    assert(t1 / 0x100 == t2);
    assert(t2 / 0x100 == t3);
    assert(x / 0x1_0000 == x / 0x100 / 0x100);
    assert(x / 0x100_0000 == x / 0x1_0000 / 0x100);
    assert(u32_le(x) =~= s);
}

/// The shifts of a 64-bit value by whole bytes, as repeated division by 256.
proof fn lemma_u64_byte_shifts(x: u64)
    ensures
        x / 0x1_0000 == x / 0x100 / 0x100,
        x / 0x100_0000 == x / 0x1_0000 / 0x100,
        x / 0x1_0000_0000 == x / 0x100_0000 / 0x100,
        x / 0x100_0000_0000 == x / 0x1_0000_0000 / 0x100,
        x / 0x1_0000_0000_0000 == x / 0x100_0000_0000 / 0x100,
        x / 0x100_0000_0000_0000 == x / 0x1_0000_0000_0000 / 0x100,
        x / 0x100_0000_0000_0000 < 0x100,
{
    assert(x / 0x1_0000 == x / 0x100 / 0x100);
    assert(x / 0x100_0000 == x / 0x1_0000 / 0x100);
    assert(x / 0x1_0000_0000 == x / 0x100_0000 / 0x100);
    assert(x / 0x100_0000_0000 == x / 0x1_0000_0000 / 0x100);
    assert(x / 0x1_0000_0000_0000 == x / 0x100_0000_0000 / 0x100);
    assert(x / 0x100_0000_0000_0000 == x / 0x1_0000_0000_0000 / 0x100);
}

/// Decoding undoes encoding, for 64-bit values.
pub proof fn lemma_u64_le_decodes(x: u64)
    ensures
        u64_le(x).len() == 8,
        le_u64(u64_le(x)) == x,
{
    lemma_u64_byte_shifts(x);
    let x1 = x / 0x100;
    let x2 = x1 / 0x100;
    let x3 = x2 / 0x100;
    let x4 = x3 / 0x100;
    let x5 = x4 / 0x100;
    let x6 = x5 / 0x100;
    let x7 = x6 / 0x100;
    assert(x == x % 256 + 256 * x1);
    assert(x1 == x1 % 256 + 256 * x2);
    assert(x2 == x2 % 256 + 256 * x3);
    assert(x3 == x3 % 256 + 256 * x4);
    assert(x4 == x4 % 256 + 256 * x5);
    assert(x5 == x5 % 256 + 256 * x6);
    assert(x6 == x6 % 256 + 256 * x7);
    let s = u64_le(x);
    assert(s[0] == x % 256);
    assert(s[1] == x1 % 256);
    assert(s[2] == x2 % 256);
    assert(s[3] == x3 % 256);
    assert(s[4] == x4 % 256);
    assert(s[5] == x5 % 256);
    assert(s[6] == x6 % 256);
    assert(s[7] == x7);
}

/// Encoding undoes decoding, for eight-byte runs.
pub proof fn lemma_le_u64_encodes(s: Seq<u8>)
    requires
        s.len() == 8,
    ensures
        u64_le(le_u64(s)) == s,
{
    let x = le_u64(s);
    let t7 = s[7] as int;
    let t6 = s[6] + 256 * t7;
    let t5 = s[5] + 256 * t6;
    let t4 = s[4] + 256 * t5;
    let t3 = s[3] + 256 * t4;
    let t2 = s[2] + 256 * t3;
    let t1 = s[1] + 256 * t2;
    let t0 = s[0] + 256 * t1;
    assert(x == t0);
    lemma_u64_byte_shifts(x);
    assert(x / 0x100 == t1);
    assert(t1 / 0x100 == t2);
    assert(t2 / 0x100 == t3);
    assert(t3 / 0x100 == t4);
    assert(t4 / 0x100 == t5);
    assert(t5 / 0x100 == t6);
    assert(t6 / 0x100 == t7);
    assert(u64_le(x) =~= s);
}

/// Decoding undoes encoding, for 64-bit values written most significant byte first.
pub proof fn lemma_u64_be_decodes(x: u64)
    ensures
        u64_be(x).len() == 8,
        be_u64(u64_be(x)) == x,
{
    lemma_u64_le_decodes(x);
    let s = u64_le(x);
    let t = u64_be(x);
    assert(t[0] == s[7] && t[1] == s[6] && t[2] == s[5] && t[3] == s[4]);
    assert(t[4] == s[3] && t[5] == s[2] && t[6] == s[1] && t[7] == s[0]);
}

/// Encoding undoes decoding, for eight-byte runs read most significant byte first.
pub proof fn lemma_be_u64_encodes(s: Seq<u8>)
    requires
        s.len() == 8,
    ensures
        u64_be(be_u64(s)) == s,
{
    let r = seq![s[7], s[6], s[5], s[4], s[3], s[2], s[1], s[0]];
    lemma_le_u64_encodes(r);
    assert(le_u64(r) == be_u64(s));
    let x = be_u64(s);
    let t = u64_be(x);
    let u = u64_le(x);
    assert(t[0] == u[7] && t[1] == u[6] && t[2] == u[5] && t[3] == u[4]);
    assert(t[4] == u[3] && t[5] == u[2] && t[6] == u[1] && t[7] == u[0]);
    assert(t =~= s);
}

/// Appends one byte.
pub fn put_u8(out: &mut Vec<u8>, x: u8)
    ensures
        final(out)@ == old(out)@.push(x),
{
    out.push(x);
}

/// Appends `x` as two little-endian bytes.
pub fn put_le_u16(out: &mut Vec<u8>, x: u16)
    ensures
        final(out)@ == old(out)@ + u16_le(x),
{
    out.push((x % 256) as u8);
    out.push((x / 256) as u8);
    assert(out@ =~= old(out)@ + u16_le(x));
}

/// Appends `x` as four little-endian bytes.
pub fn put_le_u32(out: &mut Vec<u8>, x: u32)
    ensures
        final(out)@ == old(out)@ + u32_le(x),
{
    out.push((x % 256) as u8);
    out.push((x / 0x100 % 256) as u8);
    out.push((x / 0x1_0000 % 256) as u8);
    out.push((x / 0x100_0000) as u8);
    assert(out@ =~= old(out)@ + u32_le(x));
}

/// Appends `x` as eight little-endian bytes.
pub fn put_le_u64(out: &mut Vec<u8>, x: u64)
    ensures
        final(out)@ == old(out)@ + u64_le(x),
{
    out.push((x % 256) as u8);
    out.push((x / 0x100 % 256) as u8);
    out.push((x / 0x1_0000 % 256) as u8);
    out.push((x / 0x100_0000 % 256) as u8);
    out.push((x / 0x1_0000_0000 % 256) as u8);
    out.push((x / 0x100_0000_0000 % 256) as u8);
    out.push((x / 0x1_0000_0000_0000 % 256) as u8);
    out.push((x / 0x100_0000_0000_0000) as u8);
    assert(out@ =~= old(out)@ + u64_le(x));
}

/// Appends `x` as eight bytes, most significant first.
pub fn put_be_u64(out: &mut Vec<u8>, x: u64)
    ensures
        final(out)@ == old(out)@ + u64_be(x),
{
    out.push((x / 0x100_0000_0000_0000) as u8);
    out.push((x / 0x1_0000_0000_0000 % 256) as u8);
    out.push((x / 0x100_0000_0000 % 256) as u8);
    out.push((x / 0x1_0000_0000 % 256) as u8);
    out.push((x / 0x100_0000 % 256) as u8);
    out.push((x / 0x1_0000 % 256) as u8);
    out.push((x / 0x100 % 256) as u8);
    out.push((x % 256) as u8);
    assert(out@ =~= old(out)@ + u64_be(x));
}

/// Appends every byte of `bytes`.
pub fn put_bytes(out: &mut Vec<u8>, bytes: &[u8])
    ensures
        final(out)@ == old(out)@ + bytes@,
{
    let mut i: usize = 0;
    while i < bytes.len()
        invariant
            i <= bytes.len(),
            out@ == old(out)@ + bytes@.subrange(0, i as int),
        decreases bytes.len() - i,
    {
        out.push(bytes[i]);
        i += 1;
        assert(out@ =~= old(out)@ + bytes@.subrange(0, i as int));
    }
    assert(bytes@.subrange(0, i as int) =~= bytes@);
}

/// Appends `n` zero bytes.
pub fn put_zeros(out: &mut Vec<u8>, n: usize)
    ensures
        final(out)@ == old(out)@ + zeros(n as nat),
{
    let mut i: usize = 0;
    while i < n
        invariant
            i <= n,
            out@ == old(out)@ + zeros(i as nat),
        decreases n - i,
    {
        out.push(0);
        i += 1;
        assert(out@ =~= old(out)@ + zeros(i as nat));
    }
}

/// The read was asked for more bytes than remain.
#[derive(Clone, Copy, Debug, PartialEq, Eq, Structural)]
pub struct EndOfInput;

/// A read position in a byte slice.
pub struct Reader<'a> {
    data: &'a [u8],
    pos: usize,
}

impl<'a> Reader<'a> {
    /// The bytes being read.
    pub closed spec fn data(&self) -> Seq<u8> {
        self.data@
    }

    /// How many bytes have been read.
    pub closed spec fn position(&self) -> nat {
        self.pos as nat
    }

    /// The bytes not yet read.
    pub open spec fn remaining(&self) -> Seq<u8> {
        self.data().subrange(self.position() as int, self.data().len() as int)
    }

    #[verifier::type_invariant]
    spec fn in_bounds(&self) -> bool {
        self.pos <= self.data@.len()
    }

    /// Starts reading `data` at its first byte.
    pub fn new(data: &'a [u8]) -> (r: Self)
        ensures
            r.data() == data@,
            r.position() == 0,
    {
        Reader { data, pos: 0 }
    }

    /// Reads one byte.
    pub fn read_u8(&mut self) -> (r: Result<u8, EndOfInput>)
        ensures
            final(self).data() == old(self).data(),
            r is Ok <==> old(self).position() + 1 <= old(self).data().len(),
            r matches Ok(x) ==> x == old(self).data()[old(self).position() as int]
                && final(self).position() == old(self).position() + 1,
            r is Err ==> final(self).position() == old(self).position(),
    {
        proof {
            use_type_invariant(&*self);
        }
        if self.data.len() - self.pos < 1 {
            return Err(EndOfInput);
        }
        let x = self.data[self.pos];
        self.pos = self.pos + 1;
        Ok(x)
    }

    /// Reads a little-endian 16-bit number.
    pub fn read_le_u16(&mut self) -> (r: Result<u16, EndOfInput>)
        ensures
            final(self).data() == old(self).data(),
            r is Ok <==> old(self).position() + 2 <= old(self).data().len(),
            r matches Ok(x) ==> x == le_u16(old(self).remaining()) && final(self).position()
                == old(self).position() + 2,
            r is Err ==> final(self).position() == old(self).position(),
    {
        proof {
            use_type_invariant(&*self);
        }
        if self.data.len() - self.pos < 2 {
            return Err(EndOfInput);
        }
        let p = self.pos;
        let x = self.data[p] as u16 + 0x100 * (self.data[p + 1] as u16);
        self.pos = p + 2;
        Ok(x)
    }

    /// Reads a little-endian 32-bit number.
    pub fn read_le_u32(&mut self) -> (r: Result<u32, EndOfInput>)
        ensures
            final(self).data() == old(self).data(),
            r is Ok <==> old(self).position() + 4 <= old(self).data().len(),
            r matches Ok(x) ==> x == le_u32(old(self).remaining()) && final(self).position()
                == old(self).position() + 4,
            r is Err ==> final(self).position() == old(self).position(),
    {
        proof {
            use_type_invariant(&*self);
        }
        if self.data.len() - self.pos < 4 {
            return Err(EndOfInput);
        }
        let p = self.pos;
        let x = self.data[p] as u32 + 0x100 * (self.data[p + 1] as u32) + 0x1_0000 * (self.data[p
            + 2] as u32) + 0x100_0000 * (self.data[p + 3] as u32);
        self.pos = p + 4;
        Ok(x)
    }

    /// Reads a little-endian 64-bit number.
    pub fn read_le_u64(&mut self) -> (r: Result<u64, EndOfInput>)
        ensures
            final(self).data() == old(self).data(),
            r is Ok <==> old(self).position() + 8 <= old(self).data().len(),
            r matches Ok(x) ==> x == le_u64(old(self).remaining()) && final(self).position()
                == old(self).position() + 8,
            r is Err ==> final(self).position() == old(self).position(),
    {
        proof {
            use_type_invariant(&*self);
        }
        if self.data.len() - self.pos < 8 {
            return Err(EndOfInput);
        }
        let p = self.pos;
        let x = self.data[p] as u64 + 0x100 * (self.data[p + 1] as u64) + 0x1_0000 * (self.data[p
            + 2] as u64) + 0x100_0000 * (self.data[p + 3] as u64) + 0x1_0000_0000 * (self.data[p
            + 4] as u64) + 0x100_0000_0000 * (self.data[p + 5] as u64) + 0x1_0000_0000_0000 * (
        self.data[p + 6] as u64) + 0x100_0000_0000_0000 * (self.data[p + 7] as u64);
        self.pos = p + 8;
        Ok(x)
    }

    /// Reads a 64-bit number stored most significant byte first.
    pub fn read_be_u64(&mut self) -> (r: Result<u64, EndOfInput>)
        ensures
            final(self).data() == old(self).data(),
            r is Ok <==> old(self).position() + 8 <= old(self).data().len(),
            r matches Ok(x) ==> x == be_u64(old(self).remaining()) && final(self).position()
                == old(self).position() + 8,
            r is Err ==> final(self).position() == old(self).position(),
    {
        proof {
            use_type_invariant(&*self);
        }
        if self.data.len() - self.pos < 8 {
            return Err(EndOfInput);
        }
        let p = self.pos;
        let x = self.data[p + 7] as u64 + 0x100 * (self.data[p + 6] as u64) + 0x1_0000 * (
        self.data[p + 5] as u64) + 0x100_0000 * (self.data[p + 4] as u64) + 0x1_0000_0000 * (
        self.data[p + 3] as u64) + 0x100_0000_0000 * (self.data[p + 2] as u64)
            + 0x1_0000_0000_0000 * (self.data[p + 1] as u64) + 0x100_0000_0000_0000 * (
        self.data[p] as u64);
        self.pos = p + 8;
        Ok(x)
    }

    /// Reads the next `n` bytes.
    pub fn read(&mut self, n: usize) -> (r: Result<Vec<u8>, EndOfInput>)
        ensures
            final(self).data() == old(self).data(),
            r is Ok <==> old(self).position() + n <= old(self).data().len(),
            r matches Ok(v) ==> v@ == old(self).remaining().subrange(0, n as int)
                && final(self).position() == old(self).position() + n,
            r is Err ==> final(self).position() == old(self).position(),
    {
        proof {
            use_type_invariant(&*self);
        }
        if self.data.len() - self.pos < n {
            return Err(EndOfInput);
        }
        let p = self.pos;
        let mut v: Vec<u8> = Vec::new();
        let mut i: usize = 0;
        while i < n
            invariant
                i <= n,
                p + n <= self.data@.len(),
                p == self.pos,
                self.data() == old(self).data(),
                v@ == self.data@.subrange(p as int, p + i),
                self.data@.len() <= usize::MAX,
            decreases n - i,
        {
            v.push(self.data[p + i]);
            i += 1;
            assert(v@ =~= self.data@.subrange(p as int, p + i));
        }
        self.pos = p + n;
        assert(v@ =~= old(self).remaining().subrange(0, n as int));
        Ok(v)
    }
}

} // verus!
