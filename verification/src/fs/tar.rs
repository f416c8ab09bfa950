//! A reader for ustar archives (the boot ramdisk).
use vstd::prelude::*;

verus! {

/// The size of a header block and the unit in which file data is stored.
pub const BLOCK_SIZE: usize = 512;
/// Offset and length of the name field of a header.
pub const NAME_LEN: usize = 100;
/// Offset and length of the size field of a header.
pub const SIZE_OFFSET: usize = 124;
pub const SIZE_LEN: usize = 12;
/// Offset of the type flag of a header.
pub const TYPEFLAG_OFFSET: usize = 156;

/// `b` is an octal digit.
pub open spec fn is_octal_digit(b: u8) -> bool {
    0x30 <= b <= 0x37
}

/// The number written by the octal digits at the start of `s`, appended to `acc`; the
/// digits end at the first byte that is not an octal digit.
pub open spec fn octal_value(s: Seq<u8>, acc: int) -> int
    decreases s.len(),
{
    if s.len() == 0 || !is_octal_digit(s[0]) {
        acc
    } else {
        octal_value(s.drop_first(), acc * 8 + (s[0] - 0x30))
    }
}

/// `8` to the power `n`.
pub open spec fn pow8(n: nat) -> int
    decreases n,
{
    if n == 0 {
        1
    } else {
        8 * pow8((n - 1) as nat)
    }
}

/// `s` without the zero bytes at its end.
pub open spec fn trim_end_nul(s: Seq<u8>) -> Seq<u8>
    decreases s.len(),
{
    if s.len() > 0 && s.last() == 0 {
        trim_end_nul(s.drop_last())
    } else {
        s
    }
}

/// `s` without the zero bytes at its start.
pub open spec fn trim_start_nul(s: Seq<u8>) -> Seq<u8>
    decreases s.len(),
{
    if s.len() > 0 && s[0] == 0 {
        trim_start_nul(s.drop_first())
    } else {
        s
    }
}

/// The name of the header at `o`, without zero bytes at either end.
pub open spec fn header_name(data: Seq<u8>, o: int) -> Seq<u8> {
    trim_start_nul(trim_end_nul(data.subrange(o, o + NAME_LEN)))
}

/// The file size that the header at `o` records.
pub open spec fn header_size(data: Seq<u8>, o: int) -> int {
    octal_value(data.subrange(o + SIZE_OFFSET, o + SIZE_OFFSET + SIZE_LEN), 0)
}

/// The type flag of the header at `o`.
pub open spec fn header_type(data: Seq<u8>, o: int) -> u8 {
    data[o + TYPEFLAG_OFFSET]
}

/// The header at `o` describes a regular file.
pub open spec fn is_file_type(t: u8) -> bool {
    t == 0x30 || t == 0
}

/// The bytes that a header with `size` bytes of data takes, data rounded up to whole blocks.
pub open spec fn entry_span(size: int) -> int {
    BLOCK_SIZE + (size / BLOCK_SIZE as int + if size % BLOCK_SIZE as int == 0 { 0int } else { 1int }) * BLOCK_SIZE
}

/// The archive ends at `o`: no whole header fits, or the header's name is empty.
pub open spec fn at_end(data: Seq<u8>, o: int) -> bool {
    o + BLOCK_SIZE > data.len() || data[o] == 0
}

/// The entries from `o` on can be read: the data of every file lies within the archive, and
/// the offset of every following header can be computed.
pub open spec fn archive_valid(data: Seq<u8>, o: int) -> bool
    decreases data.len() + 1 - o,
{
    if o < 0 || o > data.len() || at_end(data, o) {
        true
    } else {
        let size = header_size(data, o);
        proof {
            lemma_octal_nonneg(data.subrange(o + SIZE_OFFSET, o + SIZE_OFFSET + SIZE_LEN), 0);
        }
        &&& (is_file_type(header_type(data, o)) ==> o + BLOCK_SIZE + size <= data.len())
        &&& o + entry_span(size) <= usize::MAX
        &&& (o + entry_span(size) <= data.len() ==> archive_valid(data, o + entry_span(size)))
    }
}

/// One entry of an archive.
#[derive(Debug)]
pub enum TarEntry<'a> {
    File { name: &'a [u8], data: &'a [u8] },
    Directory { name: &'a [u8] },
    Other { name: &'a [u8], typeflag: u8 },
}

proof fn lemma_octal_step(x: u64, d: u64)
    requires
        d < 8,
        x < 0x2000_0000_0000_0000,
    ensures
        ((x * 8) as u64) | d == x * 8 + d,
{
    assert(((x * 8) as u64) | d == x * 8 + d) by (bit_vector)
        requires d < 8, x < 0x2000_0000_0000_0000;
}

proof fn lemma_pow8_bound(n: nat)
    requires
        n <= 21,
    ensures
        pow8(n) <= 0x8000_0000_0000_0000,
        pow8(n) > 0,
{
    assert(pow8(21) == 0x8000_0000_0000_0000) by {
        reveal_with_fuel(pow8, 22);
    }
    lemma_pow8_monotone(n, 21);
    lemma_pow8_positive(n);
}

proof fn lemma_pow8_monotone(a: nat, b: nat)
    requires
        a <= b,
    ensures
        pow8(a) <= pow8(b),
    decreases b,
{
    if a < b {
        lemma_pow8_monotone(a, (b - 1) as nat);
        lemma_pow8_positive((b - 1) as nat);
    }
}

proof fn lemma_pow8_positive(n: nat)
    ensures
        pow8(n) > 0,
    decreases n,
{
    if n > 0 {
        lemma_pow8_positive((n - 1) as nat);
    }
}

/// An octal value read onto a non-negative start is non-negative.
pub proof fn lemma_octal_nonneg(s: Seq<u8>, acc: int)
    requires
        acc >= 0,
    ensures
        octal_value(s, acc) >= 0,
    decreases s.len(),
{
    if s.len() > 0 && is_octal_digit(s[0]) {
        lemma_octal_nonneg(s.drop_first(), acc * 8 + (s[0] - 0x30));
    }
}

/// The number written by the octal digits at the start of `bytes`.
pub fn parse_octal(bytes: &[u8]) -> (r: u64)
    requires
        bytes@.len() <= 21,
    ensures
        r == octal_value(bytes@, 0),
{
    let mut out: u64 = 0;
    let mut i: usize = 0;
    assert(bytes@.subrange(0, bytes@.len() as int) =~= bytes@);
    while i < bytes.len() && 0x30 <= bytes[i] && bytes[i] <= 0x37
        invariant
            i <= bytes@.len(),
            bytes@.len() <= 21,
            octal_value(bytes@, 0) == octal_value(bytes@.subrange(i as int, bytes@.len() as int), out as int),
            out < pow8(i as nat),
        decreases bytes@.len() - i,
    {
        let d = (bytes[i] - 0x30) as u64;
        proof {
            lemma_pow8_bound(i as nat + 1);
            assert(out * 8 + d < pow8(i as nat + 1));
            let rest = bytes@.subrange(i as int, bytes@.len() as int);
            assert(rest.drop_first() =~= bytes@.subrange(i + 1, bytes@.len() as int));
            lemma_octal_step(out, d);
        }
        out = (out * 8) | d;
        i = i + 1;
    }
    proof {
        let rest = bytes@.subrange(i as int, bytes@.len() as int);
        if rest.len() > 0 {
            assert(rest[0] == bytes@[i as int]);
        }
    }
    out
}

/// Walks the entries of an archive.
pub struct TarEntiresIterator<'a> {
    pub data: &'a [u8],
    pub offset: usize,
}

impl<'a> TarEntiresIterator<'a> {
    /// An iterator that starts at the first header.
    pub fn new(data: &'a [u8]) -> (r: TarEntiresIterator<'a>)
        ensures
            r.data == data,
            r.offset == 0,
    {
        TarEntiresIterator { data, offset: 0 }
    }

    /// The entry at the current header, moving on to the next header; `None` at the end of
    /// the archive.
    pub fn next(&mut self) -> (r: Option<TarEntry<'a>>)
        requires
            archive_valid(old(self).data@, old(self).offset as int),
        ensures
            final(self).data == old(self).data,
            archive_valid(final(self).data@, final(self).offset as int),
            ({
                let data = old(self).data@;
                let o = old(self).offset as int;
                if at_end(data, o) {
                    r is None && final(self).offset == old(self).offset
                } else {
                    let size = header_size(data, o);
                    let t = header_type(data, o);
                    &&& final(self).offset == o + entry_span(size)
                    &&& match r {
                        Some(TarEntry::File { name, data: bytes }) => is_file_type(t) && name@ == header_name(data, o)
                            && bytes@ == data.subrange(o + BLOCK_SIZE, o + BLOCK_SIZE + size),
                        Some(TarEntry::Directory { name }) => t == 0x35 && name@ == header_name(data, o),
                        Some(TarEntry::Other { name, typeflag }) => !is_file_type(t) && t != 0x35 && typeflag == t
                            && name@ == header_name(data, o),
                        None => false,
                    }
                }
            }),
    {
        let ghost d = self.data@;
        let o = self.offset;
        if o > self.data.len() || self.data.len() - o < BLOCK_SIZE {
            return None;
        }
        if self.data[o] == 0 {
            return None;
        }
        let header = &self.data[o..o + BLOCK_SIZE];
        let name = trim_nul(&header[0..NAME_LEN]);
        proof {
            assert(header@.subrange(0, NAME_LEN as int) =~= d.subrange(o as int, o + NAME_LEN));
            assert(header@.subrange(SIZE_OFFSET as int, SIZE_OFFSET + SIZE_LEN) =~= d.subrange(o + SIZE_OFFSET, o + SIZE_OFFSET + SIZE_LEN));
        }
        let size_u64 = parse_octal(&header[SIZE_OFFSET..SIZE_OFFSET + SIZE_LEN]);
        let typeflag = header[TYPEFLAG_OFFSET];
        proof {
            lemma_octal_nonneg(d.subrange(o + SIZE_OFFSET, o + SIZE_OFFSET + SIZE_LEN), 0);
        }
        let ghost size = size_u64 as int;
        let blocks = size_u64 / 512 + if size_u64 % 512 == 0 { 0 } else { 1 };
        let span = 512 + blocks * 512;
        let out = if typeflag == 0x30 || typeflag == 0 {
            let size = size_u64 as usize;
            TarEntry::File { name, data: &self.data[o + BLOCK_SIZE..o + BLOCK_SIZE + size] }
        } else if typeflag == 0x35 {
            TarEntry::Directory { name }
        } else {
            TarEntry::Other { name, typeflag }
        };
        self.offset = o + span as usize;
        Some(out)
    }
}

/// Whether `data` can be read as an archive to its end (see `archive_valid`): the data of
/// each file lies within it and no offset runs past the largest address.
pub fn check_archive(data: &[u8]) -> (r: bool)
    ensures
        r == archive_valid(data@, 0),
{
    let mut o: usize = 0;
    loop
        invariant
            o <= data@.len(),
            archive_valid(data@, 0) == archive_valid(data@, o as int),
        decreases data@.len() + 1 - o,
    {
        if data.len() - o < BLOCK_SIZE || data[o] == 0 {
            return true;
        }
        let field = &data[o + SIZE_OFFSET..o + SIZE_OFFSET + SIZE_LEN];
        proof {
            assert(field@ =~= data@.subrange(o + SIZE_OFFSET, o + SIZE_OFFSET + SIZE_LEN));
            lemma_octal_nonneg(field@, 0);
        }
        let size = parse_octal(field);
        let typeflag = data[o + TYPEFLAG_OFFSET];
        let blocks: u128 = size as u128 / 512 + if size % 512 == 0 { 0 } else { 1 };
        let span: u128 = 512 + blocks * 512;
        if (typeflag == 0x30 || typeflag == 0) && size as u128 > (data.len() - o - BLOCK_SIZE) as u128 {
            return false;
        }
        if o as u128 + span > usize::MAX as u128 {
            return false;
        }
        if o as u128 + span > data.len() as u128 {
            return true;
        }
        o = o + span as usize;
    }
}

/// `bytes` without the zero bytes at either end.
pub fn trim_nul(bytes: &[u8]) -> (r: &[u8])
    ensures
        r@ == trim_start_nul(trim_end_nul(bytes@)),
{
    let mut hi = bytes.len();
    assert(bytes@.subrange(0, hi as int) =~= bytes@);
    while hi > 0 && bytes[hi - 1] == 0
        invariant
            hi <= bytes@.len(),
            trim_end_nul(bytes@) == trim_end_nul(bytes@.subrange(0, hi as int)),
        decreases hi,
    {
        proof {
            assert(bytes@.subrange(0, hi as int).drop_last() =~= bytes@.subrange(0, hi - 1));
        }
        hi = hi - 1;
    }
    let mut lo: usize = 0;
    proof {
        assert(trim_end_nul(bytes@.subrange(0, hi as int)) == bytes@.subrange(0, hi as int));
        assert(bytes@.subrange(0, hi as int).subrange(0, hi as int) =~= bytes@.subrange(0, hi as int));
    }
    while lo < hi && bytes[lo] == 0
        invariant
            lo <= hi <= bytes@.len(),
            trim_start_nul(trim_end_nul(bytes@)) == trim_start_nul(bytes@.subrange(lo as int, hi as int)),
        decreases hi - lo,
    {
        proof {
            assert(bytes@.subrange(lo as int, hi as int).drop_first() =~= bytes@.subrange(lo + 1, hi as int));
        }
        lo = lo + 1;
    }
    &bytes[lo..hi]
}

} // verus!
