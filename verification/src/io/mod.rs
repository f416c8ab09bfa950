//! Errors of the kernel's input and output interfaces.
use vstd::prelude::*;

use crate::fs::SeekFrom;
use crate::memory::paging::PhysicalAddress;

pub mod apic;

verus! {

/// Why an input or output request failed.
#[derive(Debug, Clone, Copy, Eq, PartialEq, Structural)]
pub enum Error {
    NotImplemented,
    NoSuchFileOrDirectory,
    InvalidValue,
    BadFileDescriptor,
    NotADirectory,
    NotAFile,
    NoSuchDevice,
    TooManyOpenFiles,
    WriteAllEOF,
    AlreadyExists,
    StaleId,
    DirectoryNotEmpty,
}

/// The Linux errno number of each error.
pub open spec fn errno_of(e: Error) -> int {
    match e {
        Error::NotImplemented => 38,
        Error::NoSuchFileOrDirectory => 2,
        Error::InvalidValue => 22,
        Error::BadFileDescriptor => 9,
        Error::NotADirectory => 20,
        Error::NotAFile => 21,
        Error::NoSuchDevice => 19,
        Error::TooManyOpenFiles => 24,
        Error::WriteAllEOF => 32,
        Error::AlreadyExists => 17,
        Error::StaleId => 116,
        Error::DirectoryNotEmpty => 39,
    }
}

/// Each error has a number of its own, so an error is found again from its number.
pub proof fn lemma_errno_injective(a: Error, b: Error)
    ensures
        errno_of(a) == errno_of(b) ==> a == b,
{
}

impl Error {
    /// The errno number that a system call returns (negated) for this error.
    pub fn errno(&self) -> (r: isize)
        ensures
            r == errno_of(*self),
    {
        match self {
            Error::NotImplemented => 38,
            Error::NoSuchFileOrDirectory => 2,
            Error::InvalidValue => 22,
            Error::BadFileDescriptor => 9,
            Error::NotADirectory => 20,
            Error::NotAFile => 21,
            Error::NoSuchDevice => 19,
            Error::TooManyOpenFiles => 24,
            Error::WriteAllEOF => 32,
            Error::AlreadyExists => 17,
            Error::StaleId => 116,
            Error::DirectoryNotEmpty => 39,
        }
    }

    /// The error whose errno number is `n`.
    pub fn from_errno(n: isize) -> (r: Option<Error>)
        ensures
            r matches Some(e) ==> errno_of(e) == n,
            r is None ==> forall|e: Error| errno_of(e) != n,
    {
        match n {
            38 => Some(Error::NotImplemented),
            2 => Some(Error::NoSuchFileOrDirectory),
            22 => Some(Error::InvalidValue),
            9 => Some(Error::BadFileDescriptor),
            20 => Some(Error::NotADirectory),
            21 => Some(Error::NotAFile),
            19 => Some(Error::NoSuchDevice),
            24 => Some(Error::TooManyOpenFiles),
            32 => Some(Error::WriteAllEOF),
            17 => Some(Error::AlreadyExists),
            116 => Some(Error::StaleId),
            39 => Some(Error::DirectoryNotEmpty),
            _ => None,
        }
    }
}

/// An object that a file descriptor refers to: a file, a device, a console. Each operation
/// that an object does not support fails with `NotImplemented`.
pub trait IoInterface {
    /// Reads bytes into `buf`; returns how many were read.
    fn read(&self, buf: &mut [u8]) -> (r: Result<usize, Error>)
        default_ensures
            r == Err::<usize, Error>(Error::NotImplemented),
    {
        Err(Error::NotImplemented)
    }

    /// Writes bytes of `buf`; returns how many were written.
    fn write(&self, buf: &[u8]) -> (r: Result<usize, Error>)
        default_ensures
            r == Err::<usize, Error>(Error::NotImplemented),
    {
        Err(Error::NotImplemented)
    }

    /// Moves the position as `offset` says; returns the resulting position.
    fn seek(&self, offset: SeekFrom) -> (r: Result<usize, Error>)
        default_ensures
            r == Err::<usize, Error>(Error::NotImplemented),
    {
        Err(Error::NotImplemented)
    }

    /// The physical address of byte `offset` of the object, for mapping it.
    fn mmap(&self, offset: usize) -> (r: Result<PhysicalAddress, Error>)
        default_ensures
            r == Err::<PhysicalAddress, Error>(Error::NotImplemented),
    {
        Err(Error::NotImplemented)
    }
}

/// The size of the chunks in which `read_to_end` reads.
pub const READ_CHUNK: usize = 32;

/// A source of bytes.
pub trait Read {
    /// Reads bytes into `buf`; returns how many were read, 0 at the end of the source.
    fn read(&mut self, buf: &mut [u8]) -> (r: Result<usize, Error>)
        ensures
            final(buf)@.len() == old(buf)@.len(),
            r matches Ok(n) ==> n <= old(buf)@.len(),
    ;

    /// Reads until the end of the source, appending to `buf`; returns how many bytes were
    /// read. On an error, what was read before it stays in `buf`.
    fn read_to_end(&mut self, buf: &mut Vec<u8>) -> (r: Result<usize, Error>)
        ensures
            final(buf)@.len() >= old(buf)@.len(),
            final(buf)@.take(old(buf)@.len() as int) == old(buf)@,
            r matches Ok(n) ==> final(buf)@.len() == old(buf)@.len() + n,
    {
        let ghost start = buf@;
        let mut total_read: usize = 0;
        loop
            invariant
                start == old(buf)@,
                buf@.len() == start.len() + total_read,
                buf@.take(start.len() as int) == start,
            decreases usize::MAX - buf@.len(),
        {
            let mut probe: Vec<u8> = vec![0u8; READ_CHUNK];
            let bytes_read = match self.read(probe.as_mut_slice()) {
                Ok(n) => n,
                Err(e) => {
                    return Err(e);
                },
            };
            if bytes_read == 0 {
                break;
            }
            let ghost before = buf@;
            append_read(buf, probe.as_slice(), bytes_read);
            proof {
                assert(buf@.take(start.len() as int) =~= before.take(start.len() as int));
            }
            let now = buf.len();
            assert(now == start.len() + total_read + bytes_read);
            total_read = total_read + bytes_read;
        }
        Ok(total_read)
    }
}

/// A destination of bytes.
pub trait Write {
    /// Writes bytes of `buf`; returns how many were written.
    fn write(&mut self, buf: &[u8]) -> (r: Result<usize, Error>)
        ensures
            r matches Ok(n) ==> n <= buf@.len(),
    ;

    /// Writes the whole of `buf`, as many times as it takes; `WriteAllEOF` when a write
    /// takes nothing. An empty `buf` needs no write and succeeds.
    fn write_all(&mut self, buf: &[u8]) -> (r: Result<(), Error>)
        ensures
            buf@.len() == 0 ==> r == Ok::<(), Error>(()),
    {
        let mut rest = buf;
        while rest.len() > 0
            invariant
                buf@.len() == 0 ==> rest@.len() == 0,
            decreases rest@.len(),
        {
            let outcome = self.write(rest);
            rest = match after_write(rest, outcome) {
                Ok(left) => left,
                Err(e) => {
                    return Err(e);
                },
            };
        }
        Ok(())
    }
}

/// What `read_to_end` does with a read that put `n` bytes into `probe`: appends those bytes
/// to `buf`.
pub fn append_read(buf: &mut Vec<u8>, probe: &[u8], n: usize)
    requires
        n <= probe@.len(),
    ensures
        final(buf)@ == old(buf)@ + probe@.take(n as int),
{
    let ghost before = buf@;
    let mut k: usize = 0;
    while k < n
        invariant
            k <= n <= probe@.len(),
            buf@ == before + probe@.take(k as int),
        decreases n - k,
    {
        buf.push(probe[k]);
        proof {
            assert(probe@.take(k + 1) =~= probe@.take(k as int).push(probe@[k as int]));
        }
        k = k + 1;
    }
}

/// What `write_all` does with the outcome of one write of `rest`: the bytes still to write,
/// past the `n` that were written; `WriteAllEOF` when the write took nothing; the write's
/// own error when it failed.
pub fn after_write<'a>(rest: &'a [u8], outcome: Result<usize, Error>) -> (r: Result<&'a [u8], Error>)
    requires
        outcome matches Ok(n) ==> n <= rest@.len(),
    ensures
        match outcome {
            Ok(n) => if n == 0 {
                r == Err::<&[u8], Error>(Error::WriteAllEOF)
            } else {
                r matches Ok(left) && left@ == rest@.skip(n as int)
            },
            Err(e) => r == Err::<&[u8], Error>(e),
        },
{
    match outcome {
        Ok(n) => {
            if n == 0 {
                Err(Error::WriteAllEOF)
            } else {
                Ok(&rest[n..rest.len()])
            }
        },
        Err(e) => Err(e),
    }
}

} // verus!
