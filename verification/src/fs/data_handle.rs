//! What reading, writing and seeking do to a file's bytes and a handle's position. The bytes
//! and positions themselves are shared between handles and kept by the caller.
use vstd::prelude::*;

use crate::fs::{OpenOptions, SeekFrom};
use crate::io::Error;

verus! {

/// How many bytes a read at `pos` of a file of `len` bytes into a buffer of `cap` bytes
/// takes: none at or past the end, else as many as remain or fit.
pub open spec fn read_len(len: int, pos: int, cap: int) -> int {
    if pos >= len {
        0
    } else if len - pos >= cap {
        cap
    } else {
        len - pos
    }
}

/// Copies into `buf` the bytes of `data` from `*pos` on, as many as remain or fit, moves
/// `*pos` past them and returns how many were copied.
pub fn read_at(data: &[u8], pos: &mut usize, buf: &mut [u8]) -> (r: Result<usize, Error>)
    ensures
        ({
            let n = read_len(data@.len() as int, *old(pos) as int, old(buf)@.len() as int);
            &&& r == Ok::<usize, Error>(n as usize)
            &&& *final(pos) == *old(pos) + n
            &&& final(buf)@.len() == old(buf)@.len()
            &&& forall|k: int| 0 <= k < n ==> final(buf)@[k] == data@[*old(pos) + k]
            &&& forall|k: int| n <= k < old(buf)@.len() ==> final(buf)@[k] == old(buf)@[k]
        }),
{
    let ghost b0 = buf@;
    if *pos >= data.len() {
        return Ok(0);
    }
    let len = if data.len() - *pos >= buf.len() {
        buf.len()
    } else {
        data.len() - *pos
    };
    let start = *pos;
    let dl = data.len();
    let mut i: usize = 0;
    while i < len
        invariant
            i <= len <= buf@.len(),
            dl == data@.len(),
            start + len <= dl,
            buf@.len() == b0.len(),
            forall|k: int| 0 <= k < i ==> buf@[k] == data@[start + k],
            forall|k: int| i <= k < b0.len() ==> buf@[k] == b0[k],
        decreases len - i,
    {
        buf[i] = data[start + i];
        i = i + 1;
    }
    *pos = start + len;
    Ok(len)
}

/// `data` with `buf` written at `p`: first grown with zeros up to `p + buf.len()` where it
/// is shorter.
pub open spec fn written(data: Seq<u8>, p: int, buf: Seq<u8>) -> Seq<u8> {
    let end = p + buf.len();
    let grown = if end > data.len() {
        data + Seq::new((end - data.len()) as nat, |i: int| 0u8)
    } else {
        data
    };
    grown.subrange(0, p) + buf + grown.skip(end)
}

/// What is written at a position is what a read of as many bytes at that position then
/// gives: the file holds them there, and the read is not cut short.
pub proof fn lemma_write_then_read(data: Seq<u8>, p: int, buf: Seq<u8>)
    requires
        0 <= p,
    ensures
        written(data, p, buf).len() >= p + buf.len(),
        read_len(written(data, p, buf).len() as int, p, buf.len() as int) == buf.len(),
        forall|k: int| 0 <= k < buf.len() ==> #[trigger] written(data, p, buf)[p + k] == buf[k],
        forall|k: int| 0 <= k < data.len() && !(p <= k < p + buf.len()) ==> #[trigger] written(data, p, buf)[k] == data[k],
{
    let end = p + buf.len();
    let grown = if end > data.len() {
        data + Seq::new((end - data.len()) as nat, |i: int| 0u8)
    } else {
        data
    };
    let w = written(data, p, buf);
    assert(w.len() == grown.len());
    assert forall|k: int| 0 <= k < buf.len() implies #[trigger] w[p + k] == buf[k] by {
        assert(w[p + k] == (grown.subrange(0, p) + buf)[p + k]);
    }
    assert forall|k: int| 0 <= k < data.len() && !(p <= k < p + buf.len()) implies #[trigger] w[k] == data[k] by {
        if k < p {
            assert(w[k] == grown.subrange(0, p)[k]);
        } else {
            assert(w[k] == grown.skip(end)[k - end]);
        }
        assert(grown[k] == data[k]);
    }
}

/// Writes `buf` into `data` at `*pos`, growing `data` with zeros as needed, and moves
/// `*pos` past it; `BadFileDescriptor` for a handle that may not write.
pub fn write_at(data: &mut Vec<u8>, pos: &mut usize, writable: bool, buf: &[u8]) -> (r: Result<usize, Error>)
    requires
        *old(pos) + buf@.len() <= usize::MAX,
    ensures
        !writable ==> r == Err::<usize, Error>(Error::BadFileDescriptor) && *final(pos) == *old(pos)
            && final(data)@ == old(data)@,
        writable ==> {
            &&& r == Ok::<usize, Error>(buf@.len() as usize)
            &&& *final(pos) == *old(pos) + buf@.len()
            &&& final(data)@ == written(old(data)@, *old(pos) as int, buf@)
        },
{
    if !writable {
        return Err(Error::BadFileDescriptor);
    }
    let p = *pos;
    let end = p + buf.len();
    let ghost d0 = data@;
    let ghost grown = if end > d0.len() {
        d0 + Seq::new((end - d0.len()) as nat, |i: int| 0u8)
    } else {
        d0
    };
    while data.len() < end
        invariant
            d0.len() <= data@.len(),
            end > d0.len() ==> data@.len() <= end,
            end <= d0.len() ==> data@.len() == d0.len(),
            forall|k: int| 0 <= k < d0.len() ==> data@[k] == d0[k],
            forall|k: int| d0.len() <= k < data@.len() ==> data@[k] == 0u8,
        decreases end - data@.len(),
    {
        data.push(0);
    }
    proof {
        assert(data@ =~= grown);
    }
    let mut i: usize = 0;
    while i < buf.len()
        invariant
            i <= buf@.len(),
            end == p + buf@.len(),
            data@.len() == grown.len(),
            grown.len() >= end,
            forall|k: int| 0 <= k < p ==> data@[k] == grown[k],
            forall|k: int| 0 <= k < i ==> data@[p + k] == buf@[k],
            forall|k: int| p + i <= k < grown.len() ==> data@[k] == grown[k],
        decreases buf@.len() - i,
    {
        data.set(p + i, buf[i]);
        i = i + 1;
    }
    *pos = end;
    proof {
        assert(data@ =~= grown.subrange(0, p as int) + buf@ + grown.skip(end as int));
    }
    Ok(buf.len())
}

/// The position that a seek asks for, from position `pos` in a file of `len` bytes:
/// `Start(n)` is `n`, `Current(k)` is `pos + k`, `End(k)` is `len + k`.
pub open spec fn seek_target(pos: usize, len: usize, seek: SeekFrom) -> int {
    match seek {
        SeekFrom::Start(n) => n as int,
        SeekFrom::Current(k) => pos + k,
        SeekFrom::End(k) => len + k,
    }
}

/// Seeks from position `*pos` in a file of `len` bytes: moves the position to the one asked
/// for (see `seek_target`) and returns it; `InvalidValue`, with the position left as it
/// was, when that lies before the start of the file.
pub fn seek_to(pos: &mut usize, len: usize, seek: SeekFrom) -> (r: Result<usize, Error>)
    requires
        seek_target(*old(pos), len, seek) <= usize::MAX,
    ensures
        seek_target(*old(pos), len, seek) < 0 ==> r == Err::<usize, Error>(Error::InvalidValue)
            && *final(pos) == *old(pos),
        seek_target(*old(pos), len, seek) >= 0 ==> r == Ok::<usize, Error>(*final(pos))
            && *final(pos) == seek_target(*old(pos), len, seek),
{
    let target: i128 = match seek {
        SeekFrom::Start(n) => n as i128,
        SeekFrom::Current(k) => *pos as i128 + k as i128,
        SeekFrom::End(k) => len as i128 + k as i128,
    };
    if target < 0 {
        return Err(Error::InvalidValue);
    }
    *pos = target as usize;
    Ok(*pos)
}

/// The position and write permission of a new handle to a growable file of `len` bytes:
/// at the end when appending, else at the start; writable whenever `WRONLY` is asked for
/// (so a read-write handle writes).
pub fn dynamic_handle_state(len: usize, flags: OpenOptions) -> (r: (usize, bool))
    ensures
        r.0 == (if flags.bits & OpenOptions::APPEND == OpenOptions::APPEND { len } else { 0 }),
        r.1 == (flags.bits & OpenOptions::WRONLY == OpenOptions::WRONLY),
{
    let pos = if flags.contains(OpenOptions::from_bits_retain(OpenOptions::APPEND)) {
        len
    } else {
        0
    };
    (pos, flags.contains(OpenOptions::from_bits_retain(OpenOptions::WRONLY)))
}

} // verus!
