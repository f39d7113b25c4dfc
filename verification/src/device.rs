//! The block device a partition table lives on: a run of bytes with a
//! cursor that reads and writes start from.

use vstd::prelude::*;

verus! {

/// Why a device operation failed.
#[derive(Clone, Copy, Debug, PartialEq, Eq, Structural)]
pub enum IoError {
    /// Fewer bytes were left than the read asked for.
    UnexpectedEof,
    /// The device took none of the bytes that were left to write.
    WriteZero,
    /// Any other failure of the device.
    Other,
}

impl IoError {
    /// What went wrong, in words.
    pub open spec fn text(self) -> Seq<char> {
        match self {
            IoError::UnexpectedEof => "unexpected end of file"@,
            IoError::WriteZero => "write zero"@,
            IoError::Other => "other error"@,
        }
    }

    /// What went wrong, in words.
    pub fn to_text(&self) -> (r: &'static str)
        ensures
            r@ == self.text(),
    {
        match self {
            IoError::UnexpectedEof => "unexpected end of file",
            IoError::WriteZero => "write zero",
            IoError::Other => "other error",
        }
    }
}

/// The bytes of a device after `data` was written at offset `at`: a write
/// past the end lengthens the device, and a gap before it reads as zeros.
pub open spec fn overwritten(before: Seq<u8>, at: int, data: Seq<u8>) -> Seq<u8> {
    let end = at + data.len();
    let len = if end > before.len() {
        end
    } else {
        before.len() as int
    };
    Seq::new(
        len as nat,
        |i: int|
            if at <= i < end {
                data[i - at]
            } else if i < before.len() {
                before[i]
            } else {
                0u8
            },
    )
}

/// A generic device that partition tables are read from and written to.
///
/// The contracts say what each operation does to a modelled device. What
/// the library does with a device it does with any: the code is the same,
/// and only what was proved of it speaks of the model.
pub trait DiskDevice {
    /// Whether the devices of this type are modelled: whether `contents` and
    /// `cursor` say what a device holds and the operations were proved to
    /// do to them what the contracts say. The model is that of a medium of
    /// fixed size that does not fail: a read or a write fails where it
    /// passes the end, and nowhere else. It is so of a device that is
    /// defined in verified code. Of any other device the contracts claim
    /// nothing.
    open spec fn obeys_device_spec() -> bool {
        false
    }

    /// The bytes on the device.
    open spec fn contents(&self) -> Seq<u8> {
        Seq::empty()
    }

    /// The offset at which the next read or write starts.
    open spec fn cursor(&self) -> nat {
        0
    }

    /// Reports the cursor.
    fn stream_position(&mut self) -> (r: Result<u64, IoError>)
        ensures
            Self::obeys_device_spec() ==> {
                &&& final(self).contents() == old(self).contents()
                &&& final(self).cursor() == old(self).cursor()
                &&& old(self).cursor() <= u64::MAX
                &&& r == Ok::<u64, IoError>(old(self).cursor() as u64)
            },
    ;

    /// Moves the cursor to `pos` bytes from the start.
    fn seek_to(&mut self, pos: u64) -> (r: Result<u64, IoError>)
        ensures
            Self::obeys_device_spec() ==> {
                &&& final(self).contents() == old(self).contents()
                &&& old(self).contents().len() <= u64::MAX
                &&& final(self).cursor() == pos
                &&& r == Ok::<u64, IoError>(pos)
            },
    ;

    /// Moves the cursor to the end and reports it: the length of the device.
    fn seek_to_end(&mut self) -> (r: Result<u64, IoError>)
        ensures
            Self::obeys_device_spec() ==> {
                &&& final(self).contents() == old(self).contents()
                &&& final(self).cursor() == old(self).contents().len()
                &&& old(self).contents().len() <= u64::MAX
                &&& r == Ok::<u64, IoError>(old(self).contents().len() as u64)
            },
    ;

    /// Reads exactly `n` bytes at the cursor and moves it past them, or
    /// fails where fewer are left.
    fn read_exact(&mut self, n: usize) -> (r: Result<Vec<u8>, IoError>)
        ensures
            Self::obeys_device_spec() ==> {
                &&& final(self).contents() == old(self).contents()
                &&& old(self).contents().len() <= u64::MAX
                &&& if old(self).cursor() + n <= old(self).contents().len() {
                    &&& r matches Ok(v)
                    &&& v@ == old(self).contents().subrange(
                        old(self).cursor() as int,
                        old(self).cursor() + n,
                    )
                    &&& final(self).cursor() == old(self).cursor() + n
                } else {
                    &&& r == Err::<Vec<u8>, IoError>(IoError::UnexpectedEof)
                    &&& final(self).cursor() == old(self).cursor()
                }
            },
    ;

    /// Writes all of `data` at the cursor and moves it past them, or fails
    /// and writes nothing where the device ends before them.
    fn write_all(&mut self, data: &[u8]) -> (r: Result<(), IoError>)
        ensures
            Self::obeys_device_spec() ==> old(self).contents().len() <= u64::MAX,
            Self::obeys_device_spec() ==> (if old(self).cursor() + data@.len() <= old(
                self).contents().len() {
                &&& r is Ok
                &&& final(self).contents() == overwritten(
                    old(self).contents(),
                    old(self).cursor() as int,
                    data@,
                )
                &&& final(self).cursor() == old(self).cursor() + data@.len()
            } else {
                &&& r == Err::<(), IoError>(IoError::WriteZero)
                &&& final(self).contents() == old(self).contents()
                &&& final(self).cursor() == old(self).cursor()
            }),
    ;

    /// Pushes what was written through to the medium.
    fn flush(&mut self) -> (r: Result<(), IoError>)
        ensures
            Self::obeys_device_spec() ==> {
                &&& final(self).contents() == old(self).contents()
                &&& final(self).cursor() == old(self).cursor()
                &&& r is Ok
            },
    ;
}

/// A device of fixed size held in memory.
#[derive(Clone, Debug, PartialEq, Eq)]
pub struct MemDevice {
    data: Vec<u8>,
    pos: u64,
}

impl MemDevice {
    /// The bytes held.
    pub closed spec fn bytes(&self) -> Seq<u8> {
        self.data@
    }

    /// The cursor.
    pub closed spec fn position(&self) -> nat {
        self.pos as nat
    }

    /// A device holding `data`, with the cursor at its start.
    pub fn new(data: Vec<u8>) -> (d: MemDevice)
        ensures
            d.bytes() == data@,
            d.position() == 0,
    {
        MemDevice { data, pos: 0 }
    }

    /// The bytes held.
    pub fn get_ref(&self) -> (r: &Vec<u8>)
        ensures
            r@ == self.bytes(),
    {
        &self.data
    }

    /// Gives the bytes up.
    pub fn into_inner(self) -> (r: Vec<u8>)
        ensures
            r@ == self.bytes(),
    {
        self.data
    }
}

impl DiskDevice for MemDevice {
    open spec fn obeys_device_spec() -> bool {
        true
    }

    open spec fn contents(&self) -> Seq<u8> {
        self.bytes()
    }

    open spec fn cursor(&self) -> nat {
        self.position()
    }

    fn stream_position(&mut self) -> (r: Result<u64, IoError>)
        ensures
            r == Ok::<u64, IoError>(old(self).position() as u64),
            final(self).position() == old(self).position(),
    {
        Ok(self.pos)
    }

    fn seek_to(&mut self, pos: u64) -> (r: Result<u64, IoError>)
        ensures
            r == Ok::<u64, IoError>(pos),
    {
        let _len = self.data.len();
        self.pos = pos;
        Ok(pos)
    }

    fn seek_to_end(&mut self) -> (r: Result<u64, IoError>) {
        let n = self.data.len();
        self.pos = n as u64;
        Ok(n as u64)
    }

    fn read_exact(&mut self, n: usize) -> (r: Result<Vec<u8>, IoError>)
        ensures
            r is Ok <==> old(self).position() + n <= old(self).bytes().len(),
            r is Err ==> r == Err::<Vec<u8>, IoError>(IoError::UnexpectedEof)
                && final(self).position() == old(self).position(),
    {
        let len = self.data.len();
        if self.pos as u128 + n as u128 > len as u128 {
            return Err(IoError::UnexpectedEof);
        }
        let start = self.pos as usize;
        let mut v: Vec<u8> = Vec::new();
        let mut i: usize = 0;
        while i < n
            invariant
                i <= n,
                start + n <= self.data@.len(),
                self.data@.len() <= usize::MAX,
                *self == *old(self),
                v@ == self.data@.subrange(start as int, start + i),
            decreases n - i,
        {
            v.push(self.data[start + i]);
            i += 1;
            assert(v@ =~= self.data@.subrange(start as int, start + i));
        }
        self.pos = (start + n) as u64;
        Ok(v)
    }

    fn write_all(&mut self, data: &[u8]) -> (r: Result<(), IoError>)
        ensures
            r is Ok <==> old(self).position() + data@.len() <= old(self).bytes().len(),
            r is Err ==> r == Err::<(), IoError>(IoError::WriteZero)
                && *final(self) == *old(self),
    {
        let len = self.data.len();
        let n = data.len();
        if self.pos as u128 + n as u128 > len as u128 {
            return Err(IoError::WriteZero);
        }
        let start = self.pos as usize;
        let mut i: usize = 0;
        while i < n
            invariant
                i <= n,
                n == data@.len(),
                start + n <= self.data@.len(),
                self.data@.len() == old(self).data@.len(),
                self.data@.len() <= usize::MAX,
                self.pos == old(self).pos,
                forall|j: int|
                    0 <= j < self.data@.len() ==> self.data@[j] == if start <= j < start + i {
                        data@[j - start]
                    } else {
                        old(self).data@[j]
                    },
            decreases n - i,
        {
            self.data.set(start + i, data[i]);
            i += 1;
        }
        self.pos = (start + n) as u64;
        assert(self.data@ =~= overwritten(old(self).data@, start as int, data@));
        Ok(())
    }

    fn flush(&mut self) -> (r: Result<(), IoError>)
        ensures
            r is Ok,
    {
        Ok(())
    }
}

} // verus!
