//! The bit-level protocol of the PL011 UART: control word, flag tests,
//! the received byte, and the line endings sent on the wire.
use vstd::prelude::*;

verus! {

/// Base address of UART0 on the Raspberry Pi 3.
pub const UART0_BASE: u32 = 0x3F20_1000;

/// Offset of the flag register from the base.
pub const UART0_FR_OFFSET: u32 = 0x18;

/// Offset of the control register from the base.
pub const UART0_CR_OFFSET: u32 = 0x30;

/// Flag register bit 5: the transmit FIFO is full.
pub const FR_TXFF: u32 = 0x20;

/// Flag register bit 4: the receive FIFO is empty.
pub const FR_RXFE: u32 = 0x10;

/// The bytes put on the wire for `text`: each line feed is preceded by a
/// carriage return, every other byte is sent as it is.
pub open spec fn wire_bytes(text: Seq<u8>) -> Seq<u8>
    decreases text.len(),
{
    if text.len() == 0 {
        Seq::empty()
    } else {
        wire_bytes(text.drop_last()) + if text.last() == 10 {
            seq![13u8, 10u8]
        } else {
            seq![text.last()]
        }
    }
}

/// Sending two texts one after the other puts the same bytes on the wire as
/// sending them as one text.
pub proof fn lemma_wire_bytes_concat(a: Seq<u8>, b: Seq<u8>)
    ensures
        wire_bytes(a + b) == wire_bytes(a) + wire_bytes(b),
    decreases b.len(),
{
    if b.len() == 0 {
        assert(a + b =~= a);
        assert(wire_bytes(a) + wire_bytes(b) =~= wire_bytes(a));
    } else {
        lemma_wire_bytes_concat(a, b.drop_last());
        assert((a + b).drop_last() =~= a + b.drop_last());
        assert((a + b).last() == b.last());
    }
}

/// The number of line feeds in `text`.
pub open spec fn count_line_feeds(text: Seq<u8>) -> nat
    decreases text.len(),
{
    if text.len() == 0 {
        0
    } else {
        count_line_feeds(text.drop_last()) + if text.last() == 10 {
            1nat
        } else {
            0nat
        }
    }
}

/// The wire carries one extra byte per line feed of the text, and each
/// line feed on the wire follows a carriage return.
pub proof fn lemma_wire_bytes_shape(text: Seq<u8>)
    ensures
        wire_bytes(text).len() == text.len() + count_line_feeds(text),
        forall|i: int|
            0 <= i < wire_bytes(text).len() && #[trigger] wire_bytes(text)[i] == 10 ==> i > 0
                && wire_bytes(text)[i - 1] == 13,
    decreases text.len(),
{
    if text.len() > 0 {
        lemma_wire_bytes_shape(text.drop_last());
        let w0 = wire_bytes(text.drop_last());
        let w = wire_bytes(text);
        assert forall|i: int| 0 <= i < w.len() && #[trigger] w[i] == 10 implies i > 0 && w[i - 1]
            == 13 by {
            if i < w0.len() {
                assert(w[i] == w0[i]);
                assert(w0[i] == 10);
            }
        }
    }
}

/// The text that `wire` carries: each carriage return directly followed by
/// a line feed is dropped, every other byte is kept in order.
pub open spec fn unwire(wire: Seq<u8>) -> Seq<u8>
    decreases wire.len(),
{
    if wire.len() >= 2 && wire[wire.len() - 2] == 13 && wire.last() == 10 {
        unwire(wire.subrange(0, wire.len() - 2)) + seq![10u8]
    } else if wire.len() >= 1 {
        unwire(wire.drop_last()) + seq![wire.last()]
    } else {
        Seq::empty()
    }
}

/// Dropping from the wire the carriage return before each line feed gives
/// the text back exactly: every byte other than a line feed goes out as it
/// is, in order.
pub proof fn lemma_wire_bytes_unwire(text: Seq<u8>)
    ensures
        unwire(wire_bytes(text)) == text,
    decreases text.len(),
{
    if text.len() > 0 {
        lemma_wire_bytes_unwire(text.drop_last());
        let w0 = wire_bytes(text.drop_last());
        let w = wire_bytes(text);
        if text.last() == 10 {
            assert(w.subrange(0, w.len() - 2) =~= w0);
        } else {
            assert(w.drop_last() =~= w0);
        }
        assert(text.drop_last() + seq![text.last()] =~= text);
    }
}

/// The serial port.
pub struct Uart;

impl Uart {
    /// The control word that turns the UART on: bit 0 (UART enable), bit 8
    /// (transmit enable) and bit 9 (receive enable).
    pub fn control_enable() -> (w: u32)
        ensures
            w == 0x301,
    {
        let w: u32 = (1u32 << 0u32) | (1u32 << 8u32) | (1u32 << 9u32);
        assert(w == 0x301) by (bit_vector)
            requires
                w == (1u32 << 0u32) | (1u32 << 8u32) | (1u32 << 9u32),
        ;
        w
    }

    /// Whether the flag register says a byte can be sent (bit 5 clear).
    pub fn can_send(flags: u32) -> (b: bool)
        ensures
            b == (flags / 32 % 2 == 0),
    {
        assert((flags & FR_TXFF == 0) == (flags / 32 % 2 == 0)) by (bit_vector);
        (flags & FR_TXFF) == 0
    }

    /// Whether the flag register says a byte has arrived (bit 4 clear).
    pub fn can_receive(flags: u32) -> (b: bool)
        ensures
            b == (flags / 16 % 2 == 0),
    {
        assert((flags & FR_RXFE == 0) == (flags / 16 % 2 == 0)) by (bit_vector);
        (flags & FR_RXFE) == 0
    }

    /// The byte held in the low eight bits of the data register.
    pub fn received_byte(data: u32) -> (b: u8)
        ensures
            b == data % 256,
    {
        assert((data & 0xFF) == data % 256) by (bit_vector);
        (data & 0xFF) as u8
    }

    /// The bytes sent for `text`, with a carriage return before each line
    /// feed.
    pub fn wire_bytes(text: &[u8]) -> (out: Vec<u8>)
        ensures
            out@ == wire_bytes(text@),
    {
        let mut out: Vec<u8> = Vec::new();
        let mut i: usize = 0;
        while i < text.len()
            invariant
                i <= text@.len(),
                out@ == wire_bytes(text@.take(i as int)),
            decreases text@.len() - i,
        {
            let byte = text[i];
            if byte == 10 {
                out.push(13);
            }
            out.push(byte);
            proof {
                assert(text@.take(i + 1).drop_last() =~= text@.take(i as int));
            }
            i += 1;
            assert(out@ =~= wire_bytes(text@.take(i as int)));
        }
        assert(text@.take(i as int) =~= text@);
        out
    }
}

} // verus!
