//! The 16550 serial port: its set-up sequence and the bytes it sends for text.
use vstd::prelude::*;

verus! {

/// The first serial port.
pub const COM1: u16 = 0x3F8;

/// The line status bit that says the transmitter can take a byte.
pub const TRANSMIT_EMPTY: u8 = 0x20;

/// The register offsets and values that set the port to 115200 baud, 8 data bits, no
/// parity, one stop bit: interrupts off, the divisor latch opened, divisor 1, the line
/// settings, the FIFOs enabled and cleared with a 14-byte threshold, and IRQs, RTS and DSR
/// set.
pub open spec fn init_writes() -> Seq<(u16, u8)> {
    seq![(1u16, 0x00u8), (3, 0x80), (0, 0x01), (1, 0x00), (3, 0x03), (2, 0xC7), (4, 0x0B)]
}

/// A serial port whose registers start at `base`.
pub struct SerialPort {
    pub base: u16,
}

impl SerialPort {
    /// The port whose registers start at `base`.
    pub fn new(base: u16) -> (r: SerialPort)
        ensures
            r.base == base,
    {
        SerialPort { base }
    }

    /// The writes (port, value) that initialise the port, in order.
    pub fn init(&self) -> (r: Vec<(u16, u8)>)
        requires
            self.base + 5 <= u16::MAX,
        ensures
            r@.len() == init_writes().len(),
            forall|i: int| 0 <= i < r@.len() ==> (#[trigger] r@[i]).0 == self.base + init_writes()[i].0 && r@[i].1
                == init_writes()[i].1,
    {
        let b = self.base;
        let r = vec![(b + 1, 0x00u8), (b + 3, 0x80), (b, 0x01), (b + 1, 0x00), (b + 3, 0x03), (b + 2, 0xC7), (b + 4, 0x0B)];
        proof {
            assert(r@.len() == 7);
        }
        r
    }

    /// The line status register's port.
    pub fn line_status_port(&self) -> (r: u16)
        requires
            self.base + 5 <= u16::MAX,
        ensures
            r == self.base + 5,
    {
        self.base + 5
    }

    /// A byte can be sent now that the line status register reads `line_status`.
    pub fn send(&self, line_status: u8) -> (r: bool)
        ensures
            r == (line_status & TRANSMIT_EMPTY != 0),
    {
        line_status & TRANSMIT_EMPTY != 0
    }
}

/// `s` with a carriage return before each newline.
pub open spec fn crlf(s: Seq<u8>) -> Seq<u8>
    decreases s.len(),
{
    if s.len() == 0 {
        Seq::empty()
    } else {
        crlf(s.drop_last()) + if s.last() == 0x0A {
            seq![0x0Du8, 0x0A]
        } else {
            seq![s.last()]
        }
    }
}

/// The bytes sent for the text `s`: a carriage return goes before each newline.
pub fn serial_bytes(s: &[u8]) -> (r: Vec<u8>)
    ensures
        r@ == crlf(s@),
{
    let mut out: Vec<u8> = Vec::new();
    let mut i: usize = 0;
    proof {
        assert(s@.take(0) =~= Seq::<u8>::empty());
    }
    while i < s.len()
        invariant
            i <= s@.len(),
            out@ == crlf(s@.take(i as int)),
        decreases s@.len() - i,
    {
        proof {
            assert(s@.take(i + 1).drop_last() =~= s@.take(i as int));
        }
        if s[i] == 0x0A {
            out.push(0x0D);
        }
        out.push(s[i]);
        proof {
            assert(out@ =~= crlf(s@.take(i + 1)));
        }
        i = i + 1;
    }
    proof {
        assert(s@.take(s@.len() as int) =~= s@);
    }
    out
}

} // verus!
