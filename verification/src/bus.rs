//! The signals the driver puts on the wire, and the transcript that records them.
use vstd::prelude::*;

verus! {

/// One step on the display's bus, as the driver issues it.
#[derive(Debug, PartialEq, Eq)]
pub enum BusOp {
    /// Drive the chip-select pin to the given level (low selects the panel).
    CsPin(bool),
    /// Drive the data/command pin (low: command bytes follow; high: data bytes).
    DcPin(bool),
    /// Send these bytes over SPI.
    Write(Vec<u8>),
    /// Drive the reset pin to the given level (low holds the panel in reset).
    ResetPin(bool),
    /// Drive the backlight pin (high: light on).
    BacklightPin(bool),
    /// Wait this many milliseconds.
    DelayMs(u64),
}

/// The mathematical value of a [`BusOp`]: the same step with its bytes as a sequence.
pub enum Signal {
    CsPin(bool),
    DcPin(bool),
    Write(Seq<u8>),
    ResetPin(bool),
    BacklightPin(bool),
    DelayMs(u64),
}

impl View for BusOp {
    type V = Signal;

    open spec fn view(&self) -> Signal {
        match self {
            BusOp::CsPin(l) => Signal::CsPin(*l),
            BusOp::DcPin(l) => Signal::DcPin(*l),
            BusOp::Write(b) => Signal::Write(b@),
            BusOp::ResetPin(l) => Signal::ResetPin(*l),
            BusOp::BacklightPin(l) => Signal::BacklightPin(*l),
            BusOp::DelayMs(ms) => Signal::DelayMs(*ms),
        }
    }
}

/// The ordered record of every bus step an operation issues. Performing the
/// steps in order, and stopping at the first SPI write that fails, is what
/// the operation does on the hardware.
pub struct Transcript {
    pub ops: Vec<BusOp>,
}

impl View for Transcript {
    type V = Seq<Signal>;

    open spec fn view(&self) -> Seq<Signal> {
        Seq::new(self.ops@.len(), |i: int| self.ops@[i]@)
    }
}

/// The big-endian bytes of a 16-bit value.
pub open spec fn be16(v: u16) -> Seq<u8> {
    seq![(v / 256) as u8, (v % 256) as u8]
}

/// The big-endian bytes of a 16-bit value.
pub fn be16_bytes(v: u16) -> (b: Vec<u8>)
    ensures
        b@ == be16(v),
{
    let hi = (v >> 8u16) as u8;
    let lo = (v & 0xffu16) as u8;
    assert(hi == (v / 256) as u8) by (bit_vector)
        requires
            hi == (v >> 8u16) as u8,
    ;
    assert(lo == (v % 256) as u8) by (bit_vector)
        requires
            lo == (v & 0xffu16) as u8,
    ;
    let mut b: Vec<u8> = Vec::new();
    b.push(hi);
    b.push(lo);
    assert(b@ =~= be16(v));
    b
}

/// Appends the big-endian bytes of a 16-bit value.
pub fn push_be16(bytes: &mut Vec<u8>, v: u16)
    ensures
        final(bytes)@ == old(bytes)@ + be16(v),
{
    let hi = (v >> 8u16) as u8;
    let lo = (v & 0xffu16) as u8;
    assert(hi == (v / 256) as u8) by (bit_vector)
        requires
            hi == (v >> 8u16) as u8,
    ;
    assert(lo == (v % 256) as u8) by (bit_vector)
        requires
            lo == (v & 0xffu16) as u8,
    ;
    bytes.push(hi);
    bytes.push(lo);
    assert(bytes@ =~= old(bytes)@ + be16(v));
}

impl Transcript {
    /// An empty transcript.
    pub fn new() -> (t: Transcript)
        ensures
            t@ == Seq::<Signal>::empty(),
    {
        let t = Transcript { ops: Vec::new() };
        assert(t@ =~= Seq::<Signal>::empty());
        t
    }

    /// Records one more step.
    pub fn push(&mut self, op: BusOp)
        ensures
            final(self)@ == old(self)@.push(op@),
    {
        self.ops.push(op);
        assert(self@ =~= old(self)@.push(op@));
    }

    /// The number of steps recorded.
    pub fn len(&self) -> (n: usize)
        ensures
            n == self@.len(),
    {
        self.ops.len()
    }
}

} // verus!
