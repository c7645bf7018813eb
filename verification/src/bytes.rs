//! Fixed-width integer fields and a cursor over an in-memory image.

use byteorder::{BigEndian, ByteOrder, LittleEndian};
use vstd::prelude::*;
use vstd::slice::slice_subrange;

use crate::types::NetWareError;

verus! {

/// The 16-bit little-endian value stored at `at`.
pub open spec fn le16(s: Seq<u8>, at: int) -> int {
    s[at] as int + 256 * (s[at + 1] as int)
}

/// The 16-bit big-endian value stored at `at`.
pub open spec fn be16(s: Seq<u8>, at: int) -> int {
    256 * (s[at] as int) + s[at + 1] as int
}

/// The 32-bit little-endian value stored at `at`.
pub open spec fn le32(s: Seq<u8>, at: int) -> int {
    s[at] as int + 256 * (s[at + 1] as int) + 65536 * (s[at + 2] as int) + 16777216 * (s[at
        + 3] as int)
}

/// The 32-bit big-endian value stored at `at`.
pub open spec fn be32(s: Seq<u8>, at: int) -> int {
    16777216 * (s[at] as int) + 65536 * (s[at + 1] as int) + 256 * (s[at + 2] as int) + s[at
        + 3] as int
}

/// The bytes of `a` are those stored from `at` on.
pub open spec fn u8s_at(a: Seq<u8>, s: Seq<u8>, at: int) -> bool {
    forall|i: int| 0 <= i < a.len() ==> a[i] == s[at + i]
}

/// The items of `a` are the 16-bit little-endian values stored from `at` on.
pub open spec fn u16s_at(a: Seq<u16>, s: Seq<u8>, at: int) -> bool {
    forall|i: int| 0 <= i < a.len() ==> a[i] == le16(s, at + 2 * i)
}

/// The items of `a` are the 32-bit little-endian values stored from `at` on.
pub open spec fn u32s_at(a: Seq<u32>, s: Seq<u8>, at: int) -> bool {
    forall|i: int| 0 <= i < a.len() ==> a[i] == le32(s, at + 4 * i)
}

/// The bytes `rest` with the bytes `prefix` before them, where `rest` is
/// the outcome of a read that may have failed.
pub open spec fn extend_data(prefix: Seq<u8>, rest: Result<Seq<u8>, NetWareError>) -> Result<
    Seq<u8>,
    NetWareError,
> {
    match rest {
        Ok(data) => Ok(prefix + data),
        Err(e) => Err(e),
    }
}

/// The bytes that go on behind `data + chunk` are the bytes that go on
/// behind `data` with `chunk` first.
pub proof fn lemma_extend_data(data: Seq<u8>, chunk: Seq<u8>, rest: Result<Seq<u8>, NetWareError>)
    ensures
        extend_data(data, extend_data(chunk, rest)) == extend_data(data + chunk, rest),
{
    match rest {
        Ok(more) => {
            assert(data + (chunk + more) =~= (data + chunk) + more);
        },
        Err(_) => {},
    }
}

/// Nothing before the bytes leaves them as they are.
pub proof fn lemma_extend_data_empty(rest: Result<Seq<u8>, NetWareError>)
    ensures
        extend_data(Seq::empty(), rest) == rest,
{
    match rest {
        Ok(data) => {
            assert(Seq::<u8>::empty() + data =~= data);
        },
        Err(_) => {},
    }
}

/// `byteorder::LittleEndian::read_u16`: the first two bytes of `buf`, least
/// significant byte first. It panics on a shorter buffer.
#[verifier::external_body]
fn le_u16(buf: &[u8]) -> (r: u16)
    requires
        buf@.len() >= 2,
    ensures
        r == le16(buf@, 0),
{
    LittleEndian::read_u16(buf)
}

/// `byteorder::BigEndian::read_u16`: the first two bytes of `buf`, most
/// significant byte first. It panics on a shorter buffer.
#[verifier::external_body]
fn be_u16(buf: &[u8]) -> (r: u16)
    requires
        buf@.len() >= 2,
    ensures
        r == be16(buf@, 0),
{
    BigEndian::read_u16(buf)
}

/// `byteorder::LittleEndian::read_u32`: the first four bytes of `buf`, least
/// significant byte first. It panics on a shorter buffer.
#[verifier::external_body]
fn le_u32(buf: &[u8]) -> (r: u32)
    requires
        buf@.len() >= 4,
    ensures
        r == le32(buf@, 0),
{
    LittleEndian::read_u32(buf)
}

/// `byteorder::BigEndian::read_u32`: the first four bytes of `buf`, most
/// significant byte first. It panics on a shorter buffer.
#[verifier::external_body]
fn be_u32(buf: &[u8]) -> (r: u32)
    requires
        buf@.len() >= 4,
    ensures
        r == be32(buf@, 0),
{
    BigEndian::read_u32(buf)
}

/// A read position in an image. Every read takes its bytes at the position
/// and moves the position past them; a read that would pass the end of the
/// image fails and leaves the position where it was.
pub struct Reader<'a> {
    data: &'a [u8],
    pos: usize,
}

impl<'a> Reader<'a> {
    #[verifier::type_invariant]
    spec fn inv(&self) -> bool {
        self.pos <= self.data@.len()
    }

    /// The image that is read.
    pub closed spec fn bytes(&self) -> Seq<u8> {
        self.data@
    }

    /// The offset of the next byte to read.
    pub closed spec fn position(&self) -> int {
        self.pos as int
    }

    /// The number of bytes between the position and the end of the image.
    pub open spec fn remaining(&self) -> int {
        self.bytes().len() - self.position()
    }

    /// What a read of `n` bytes leaves of the reader `before` when it
    /// succeeds: the same image, the position `n` bytes further.
    pub open spec fn took(self, before: Self, n: int) -> bool {
        &&& 0 <= before.position()
        &&& before.remaining() >= n
        &&& self.bytes() == before.bytes()
        &&& self.position() == before.position() + n
    }

    /// What a read of `n` bytes leaves of the reader `before` when it
    /// fails: nothing has changed, and fewer than `n` bytes were left.
    pub open spec fn fell_short(self, before: Self, n: int) -> bool {
        &&& 0 <= before.position() <= before.bytes().len()
        &&& before.remaining() < n
        &&& self.bytes() == before.bytes()
        &&& self.position() == before.position()
    }

    /// A reader at the start of `data`.
    pub fn new(data: &'a [u8]) -> (r: Self)
        ensures
            r.bytes() == data@,
            r.position() == 0,
    {
        Reader { data, pos: 0 }
    }

    /// A reader at `offset`, which may be the end of the image but not
    /// beyond it.
    pub fn at(data: &'a [u8], offset: u64) -> (r: Result<Self, NetWareError>)
        ensures
            match r {
                Ok(reader) => offset <= data@.len() && reader.bytes() == data@
                    && reader.position() == offset,
                Err(e) => e == NetWareError::IoError && offset > data@.len(),
            },
    {
        if offset <= data.len() as u64 {
            Ok(Reader { data, pos: offset as usize })
        } else {
            Err(NetWareError::IoError)
        }
    }

    /// The offset of the next byte to read.
    pub fn offset(&self) -> (r: u64)
        ensures
            r == self.position(),
    {
        self.pos as u64
    }

    /// The number of bytes between the position and the end of the image.
    pub fn left(&self) -> (r: usize)
        ensures
            r == self.remaining(),
            0 <= self.position() <= self.bytes().len(),
    {
        proof {
            use_type_invariant(self);
        }
        self.data.len() - self.pos
    }

    /// One byte.
    pub fn read_u8(&mut self) -> (r: Result<u8, NetWareError>)
        ensures
            match r {
                Ok(v) => final(self).took(*old(self), 1) && v == old(self).bytes()[old(
                    self,
                ).position()],
                Err(e) => e == NetWareError::IoError && final(self).fell_short(*old(self), 1),
            },
    {
        proof {
            use_type_invariant(&*self);
        }
        if self.data.len() - self.pos < 1 {
            return Err(NetWareError::IoError);
        }
        let v = self.data[self.pos];
        self.pos = self.pos + 1;
        Ok(v)
    }

    /// A 16-bit little-endian integer.
    pub fn read_u16_le(&mut self) -> (r: Result<u16, NetWareError>)
        ensures
            match r {
                Ok(v) => final(self).took(*old(self), 2) && v == le16(
                    old(self).bytes(),
                    old(self).position(),
                ),
                Err(e) => e == NetWareError::IoError && final(self).fell_short(*old(self), 2),
            },
    {
        proof {
            use_type_invariant(&*self);
        }
        if self.data.len() - self.pos < 2 {
            return Err(NetWareError::IoError);
        }
        let v = le_u16(slice_subrange(self.data, self.pos, self.pos + 2));
        self.pos = self.pos + 2;
        Ok(v)
    }

    /// A 16-bit big-endian integer.
    pub fn read_u16_be(&mut self) -> (r: Result<u16, NetWareError>)
        ensures
            match r {
                Ok(v) => final(self).took(*old(self), 2) && v == be16(
                    old(self).bytes(),
                    old(self).position(),
                ),
                Err(e) => e == NetWareError::IoError && final(self).fell_short(*old(self), 2),
            },
    {
        proof {
            use_type_invariant(&*self);
        }
        if self.data.len() - self.pos < 2 {
            return Err(NetWareError::IoError);
        }
        let v = be_u16(slice_subrange(self.data, self.pos, self.pos + 2));
        self.pos = self.pos + 2;
        Ok(v)
    }

    /// A 32-bit little-endian integer.
    pub fn read_u32_le(&mut self) -> (r: Result<u32, NetWareError>)
        ensures
            match r {
                Ok(v) => final(self).took(*old(self), 4) && v == le32(
                    old(self).bytes(),
                    old(self).position(),
                ),
                Err(e) => e == NetWareError::IoError && final(self).fell_short(*old(self), 4),
            },
    {
        proof {
            use_type_invariant(&*self);
        }
        if self.data.len() - self.pos < 4 {
            return Err(NetWareError::IoError);
        }
        let v = le_u32(slice_subrange(self.data, self.pos, self.pos + 4));
        self.pos = self.pos + 4;
        Ok(v)
    }

    /// A 32-bit big-endian integer.
    pub fn read_u32_be(&mut self) -> (r: Result<u32, NetWareError>)
        ensures
            match r {
                Ok(v) => final(self).took(*old(self), 4) && v == be32(
                    old(self).bytes(),
                    old(self).position(),
                ),
                Err(e) => e == NetWareError::IoError && final(self).fell_short(*old(self), 4),
            },
    {
        proof {
            use_type_invariant(&*self);
        }
        if self.data.len() - self.pos < 4 {
            return Err(NetWareError::IoError);
        }
        let v = be_u32(slice_subrange(self.data, self.pos, self.pos + 4));
        self.pos = self.pos + 4;
        Ok(v)
    }

    /// The next `n` bytes as they stand in the image.
    pub fn read_bytes(&mut self, n: usize) -> (r: Result<&'a [u8], NetWareError>)
        ensures
            match r {
                Ok(b) => final(self).took(*old(self), n as int) && b@ == old(self).bytes().subrange(
                    old(self).position(),
                    old(self).position() + n,
                ),
                Err(e) => e == NetWareError::IoError && final(self).fell_short(
                    *old(self),
                    n as int,
                ),
            },
    {
        proof {
            use_type_invariant(&*self);
        }
        if self.data.len() - self.pos < n {
            return Err(NetWareError::IoError);
        }
        let b = slice_subrange(self.data, self.pos, self.pos + n);
        self.pos = self.pos + n;
        Ok(b)
    }

    /// Moves the position `n` bytes on without looking at them.
    pub fn skip(&mut self, n: usize) -> (r: Result<(), NetWareError>)
        ensures
            match r {
                Ok(_) => final(self).took(*old(self), n as int),
                Err(e) => e == NetWareError::IoError && final(self).fell_short(
                    *old(self),
                    n as int,
                ),
            },
    {
        proof {
            use_type_invariant(&*self);
        }
        if self.data.len() - self.pos < n {
            return Err(NetWareError::IoError);
        }
        self.pos = self.pos + n;
        Ok(())
    }

    /// `N` bytes, in the order in which they are stored.
    pub fn read_u8s<const N: usize>(&mut self) -> (r: Result<[u8; N], NetWareError>)
        ensures
            match r {
                Ok(a) => final(self).took(*old(self), N as int) && u8s_at(
                    a@,
                    old(self).bytes(),
                    old(self).position(),
                ),
                Err(e) => e == NetWareError::IoError && final(self).fell_short(
                    *old(self),
                    N as int,
                ),
            },
    {
        proof {
            use_type_invariant(&*self);
        }
        if (self.data.len() - self.pos) / 1 < N {
            return Err(NetWareError::IoError);
        }
        let mut a = [0u8; N];
        let mut i: usize = 0;
        while i < N
            invariant
                0 <= i <= N,
                old(self).remaining() >= N as int,
                self.took(*old(self), i as int),
                forall|j: int| 0 <= j < i ==> a@[j] == old(self).bytes()[old(self).position() + j],
            decreases N - i,
        {
            let v = self.read_u8()?;
            a[i] = v;
            i = i + 1;
        }
        Ok(a)
    }

    /// `N` 16-bit little-endian integers, in the order in which they are
    /// stored.
    pub fn read_u16s<const N: usize>(&mut self) -> (r: Result<[u16; N], NetWareError>)
        ensures
            match r {
                Ok(a) => final(self).took(*old(self), 2 * N) && u16s_at(
                    a@,
                    old(self).bytes(),
                    old(self).position(),
                ),
                Err(e) => e == NetWareError::IoError && final(self).fell_short(
                    *old(self),
                    2 * N,
                ),
            },
    {
        proof {
            use_type_invariant(&*self);
        }
        if (self.data.len() - self.pos) / 2 < N {
            return Err(NetWareError::IoError);
        }
        let mut a = [0u16; N];
        let mut i: usize = 0;
        while i < N
            invariant
                0 <= i <= N,
                old(self).remaining() >= 2 * N,
                self.took(*old(self), 2 * i),
                forall|j: int|
                    0 <= j < i ==> a@[j] == le16(old(self).bytes(), old(self).position() + 2 * j),
            decreases N - i,
        {
            let v = self.read_u16_le()?;
            a[i] = v;
            i = i + 1;
        }
        Ok(a)
    }

    /// `n` 16-bit little-endian integers, in the order in which they are
    /// stored.
    pub fn read_u16_list(&mut self, n: usize) -> (r: Result<Vec<u16>, NetWareError>)
        ensures
            match r {
                Ok(a) => final(self).took(*old(self), 2 * n) && a@.len() == n && u16s_at(
                    a@,
                    old(self).bytes(),
                    old(self).position(),
                ),
                Err(e) => e == NetWareError::IoError && final(self).fell_short(*old(self), 2 * n),
            },
    {
        proof {
            use_type_invariant(&*self);
        }
        if (self.data.len() - self.pos) / 2 < n {
            return Err(NetWareError::IoError);
        }
        let mut a: Vec<u16> = Vec::new();
        let mut i: usize = 0;
        while i < n
            invariant
                0 <= i <= n,
                old(self).remaining() >= 2 * n,
                self.took(*old(self), 2 * i),
                a@.len() == i,
                forall|j: int|
                    0 <= j < i ==> a@[j] == le16(old(self).bytes(), old(self).position() + 2 * j),
            decreases n - i,
        {
            let v = self.read_u16_le()?;
            a.push(v);
            i = i + 1;
        }
        Ok(a)
    }

    /// `N` 32-bit little-endian integers, in the order in which they are
    /// stored.
    pub fn read_u32s<const N: usize>(&mut self) -> (r: Result<[u32; N], NetWareError>)
        ensures
            match r {
                Ok(a) => final(self).took(*old(self), 4 * N) && u32s_at(
                    a@,
                    old(self).bytes(),
                    old(self).position(),
                ),
                Err(e) => e == NetWareError::IoError && final(self).fell_short(
                    *old(self),
                    4 * N,
                ),
            },
    {
        proof {
            use_type_invariant(&*self);
        }
        if (self.data.len() - self.pos) / 4 < N {
            return Err(NetWareError::IoError);
        }
        let mut a = [0u32; N];
        let mut i: usize = 0;
        while i < N
            invariant
                0 <= i <= N,
                old(self).remaining() >= 4 * N,
                self.took(*old(self), 4 * i),
                forall|j: int|
                    0 <= j < i ==> a@[j] == le32(old(self).bytes(), old(self).position() + 4 * j),
            decreases N - i,
        {
            let v = self.read_u32_le()?;
            a[i] = v;
            i = i + 1;
        }
        Ok(a)
    }
}

} // verus!
