//! ISO 15765-2 (ISO-TP): segmented transport over classic CAN.
//!
//! [`request`] starts a request/response exchange: it sends a payload of any
//! length up to 4095 bytes (12-bit length field), then waits for the response,
//! handling Single Frame, First Frame + Consecutive Frames, and Flow Control
//! in both directions. The exchange itself is a [`Session`]: it says what to
//! do next and is told what happened, and touches no socket and no clock.
//!
//! Only classic 8-byte CAN frames are sent.
use vstd::prelude::*;

use crate::error::ErrorKind;
use crate::text;
use crate::text::{push_dec, push_hex};
use crate::time::TimeSpan;

pub mod laws;
pub mod session;

pub use session::{request, Action, Session};

verus! {

// ---------------------------------------------------------------------------
// Wire format

/// Single Frame.
pub const PCI_SF: u8 = 0x00;

/// First Frame.
pub const PCI_FF: u8 = 0x10;

/// Consecutive Frame.
pub const PCI_CF: u8 = 0x20;

/// Flow Control.
pub const PCI_FC: u8 = 0x30;

/// Flow status: clear to send.
pub const FC_CTS: u8 = 0;

/// Flow status: wait.
pub const FC_WAIT: u8 = 1;

/// Flow status: overflow.
pub const FC_OVERFLOW: u8 = 2;

/// Most bytes that a Single Frame carries.
pub const SF_MAX_LEN: usize = 7;

/// Bytes that a First Frame carries.
pub const FF_FIRST_PAYLOAD: usize = 6;

/// Most bytes that a Consecutive Frame carries.
pub const CF_PAYLOAD: usize = 7;

/// Length of every frame that is sent.
pub const FRAME_DLC: usize = 8;

/// Largest length that the 12-bit length field of a First Frame holds.
pub const MAX_FF_LENGTH: usize = 0xFFF;

/// `n` padding bytes.
pub open spec fn padding_bytes(padding: u8, n: nat) -> Seq<u8> {
    Seq::new(n, |i: int| padding)
}

/// A Single Frame: the length, the payload, padding.
pub open spec fn single_frame(payload: Seq<u8>, padding: u8) -> Seq<u8> {
    seq![payload.len() as u8] + payload + padding_bytes(padding, (7 - payload.len()) as nat)
}

/// A First Frame: type and 12-bit length, then the first six bytes.
pub open spec fn first_frame(total: nat, chunk: Seq<u8>) -> Seq<u8> {
    seq![(0x10 + total / 256) as u8, (total % 256) as u8] + chunk
}

/// A Consecutive Frame: type and sequence number, up to seven bytes, padding.
pub open spec fn consecutive_frame(number: int, chunk: Seq<u8>, padding: u8) -> Seq<u8> {
    seq![(0x20 + number % 16) as u8] + chunk + padding_bytes(padding, (7 - chunk.len()) as nat)
}

/// A Flow Control frame: type and status, block size, separation time (at most
/// 127 ms), padding.
pub open spec fn flow_control_frame(status: u8, block_size: u8, st_min_ms: u8, padding: u8) -> Seq<
    u8,
> {
    seq![
        (0x30 + status % 16) as u8,
        block_size,
        if st_min_ms > 0x7F {
            0x7F
        } else {
            st_min_ms
        },
    ] + padding_bytes(padding, 5)
}

/// The separation time, in milliseconds, that a byte of a Flow Control frame
/// asks for: 0 to 127 ms as they stand, 100 to 900 microseconds as one
/// millisecond, and reserved values as the longest time.
pub open spec fn st_min_of(byte: u8) -> u8 {
    if byte <= 0x7F {
        byte
    } else if 0xF1 <= byte <= 0xF9 {
        1
    } else {
        0x7F
    }
}

/// Copies `chunk` into `buf` from `at` on.
fn place(buf: &mut [u8; 8], at: usize, chunk: &[u8])
    requires
        at + chunk@.len() <= 8,
    ensures
        final(buf)@ == old(buf)@.take(at as int) + chunk@ + old(buf)@.skip(at + chunk@.len()),
{
    let ghost before = buf@;
    for i in 0..chunk.len()
        invariant
            at + chunk@.len() <= 8,
            before.len() == 8,
            buf@ == before.take(at as int) + chunk@.take(i as int) + before.skip(at + i),
    {
        buf[at + i] = chunk[i];
        assert(buf@ =~= before.take(at as int) + chunk@.take(i + 1) + before.skip(at + i + 1));
    }
    assert(chunk@.take(chunk@.len() as int) == chunk@);
}

/// Encodes a Single Frame.
pub fn encode_sf_frame(payload: &[u8], padding: u8) -> (buf: [u8; FRAME_DLC])
    requires
        payload@.len() <= SF_MAX_LEN,
    ensures
        buf@ == single_frame(payload@, padding),
{
    let mut buf = [padding; 8];
    buf[0] = PCI_SF + payload.len() as u8;
    place(&mut buf, 1, payload);
    assert(buf@ =~= single_frame(payload@, padding));
    buf
}

/// Encodes a First Frame.
pub fn encode_ff_frame(total_len: u16, first_chunk: &[u8], padding: u8) -> (buf: [u8; FRAME_DLC])
    requires
        first_chunk@.len() == FF_FIRST_PAYLOAD,
        total_len <= MAX_FF_LENGTH,
    ensures
        buf@ == first_frame(total_len as nat, first_chunk@),
{
    let mut buf = [padding; 8];
    buf[0] = PCI_FF + (total_len / 256) as u8;
    buf[1] = (total_len % 256) as u8;
    place(&mut buf, 2, first_chunk);
    assert(buf@ =~= first_frame(total_len as nat, first_chunk@));
    buf
}

/// Encodes a Consecutive Frame. Of the sequence number the low four bits
/// count.
pub fn encode_cf_frame(seq: u8, chunk: &[u8], padding: u8) -> (buf: [u8; FRAME_DLC])
    requires
        chunk@.len() <= CF_PAYLOAD,
    ensures
        buf@ == consecutive_frame(seq as int, chunk@, padding),
{
    let mut buf = [padding; 8];
    buf[0] = PCI_CF + seq % 16;
    place(&mut buf, 1, chunk);
    assert(buf@ =~= consecutive_frame(seq as int, chunk@, padding));
    buf
}

/// Encodes a Flow Control frame. The separation time is capped at 127 ms.
pub fn encode_fc_frame(flow_status: u8, block_size: u8, st_min_ms: u8, padding: u8) -> (buf: [u8;
    FRAME_DLC])
    ensures
        buf@ == flow_control_frame(flow_status, block_size, st_min_ms, padding),
{
    let mut buf = [padding; 8];
    buf[0] = PCI_FC + flow_status % 16;
    buf[1] = block_size;
    buf[2] = if st_min_ms > 0x7F {
        0x7F
    } else {
        st_min_ms
    };
    assert(buf@ =~= flow_control_frame(flow_status, block_size, st_min_ms, padding));
    buf
}

/// Decode the SeparationTime byte of a Flow Control frame into milliseconds.
/// Microsecond ranges are rounded up to 1 ms.
pub fn decode_st_min(byte: u8) -> (ms: u8)
    ensures
        ms == st_min_of(byte),
{
    if byte <= 0x7F {
        byte
    } else if 0xF1 <= byte && byte <= 0xF9 {
        1
    } else {
        0x7F
    }
}

// ---------------------------------------------------------------------------
// Options

/// Options for an ISO-TP request.
#[derive(Clone, Debug)]
pub struct Options {
    /// Padding byte for unused bytes within an 8-byte frame. ECUs commonly
    /// expect `0x00`, `0xAA`, `0xCC`, or `0xFF`. Default `0xCC`.
    pub padding: u8,
    /// Block Size advertised in outgoing Flow Control. `0` means "send every
    /// Consecutive Frame, no further Flow Control". Default `0`.
    pub block_size: u8,
    /// Minimum separation time requested from the ECU between the Consecutive
    /// Frames that it sends, in milliseconds. Default `0`.
    pub st_min_ms: u8,
    /// Total timeout for the entire request/response cycle. Default 1 s.
    pub timeout: TimeSpan,
    /// How many `Wait` flow-control frames are tolerated from the ECU before
    /// giving up. Default `8`.
    pub max_waits: u8,
}

impl Default for Options {
    fn default() -> (o: Self)
        ensures
            o.padding == 0xCC,
            o.block_size == 0,
            o.st_min_ms == 0,
            o.timeout.wf(),
            o.timeout.nanos() == 1_000_000_000,
            o.max_waits == 8,
    {
        Options {
            padding: 0xCC,
            block_size: 0,
            st_min_ms: 0,
            timeout: TimeSpan::from_millis(1000),
            max_waits: 8,
        }
    }
}

// ---------------------------------------------------------------------------
// Errors

/// Why an ISO-TP exchange failed.
#[derive(Clone, Copy, Debug, PartialEq, Eq, Structural)]
pub enum IsoTpError {
    /// The request payload is empty.
    EmptyPayload,
    /// The request payload is longer than a First Frame can announce.
    PayloadTooLong { len: usize },
    /// No Flow Control in time.
    FlowControlTimeout,
    /// Something else came where Flow Control was due.
    NotFlowControl { pci: u8 },
    /// More `Wait` flow controls than are tolerated.
    TooManyWaits { max: u8 },
    /// The ECU refused the request as too long.
    FlowControlOverflow,
    /// A flow status that is not assigned.
    UnknownFlowStatus { status: u8 },
    /// The ECU asks for Flow Control between blocks.
    BlockSizeUnsupported,
    /// No response in time.
    NoResponse,
    /// The response frame is empty.
    EmptyResponse,
    /// The length of a Single Frame does not fit the frame.
    BadSingleFrameLength { pci: u8 },
    /// A First Frame without its length byte.
    FirstFrameTooShort,
    /// A First Frame for what a Single Frame would have held.
    FirstFrameTooSmall { total: usize },
    /// Consecutive Frames did not come in time.
    ConsecutiveTimeout,
    /// Something else came where a Consecutive Frame was due.
    NotConsecutive { pci: u8 },
    /// A Consecutive Frame out of order.
    SequenceMismatch { expected: u8, got: u8 },
    /// A Consecutive Frame at the start of a response.
    UnsolicitedConsecutive,
    /// Flow Control at the start of a response.
    UnexpectedFlowControl,
    /// A frame type that is not assigned.
    UnknownPci { pci: u8 },
}

impl IsoTpError {
    /// The category of the error.
    pub open spec fn category(self) -> ErrorKind {
        match self {
            IsoTpError::EmptyPayload | IsoTpError::PayloadTooLong { .. } => ErrorKind::InvalidInput,
            IsoTpError::FlowControlTimeout
            | IsoTpError::TooManyWaits { .. }
            | IsoTpError::NoResponse
            | IsoTpError::ConsecutiveTimeout => ErrorKind::TimedOut,
            IsoTpError::FlowControlOverflow => ErrorKind::Other,
            IsoTpError::BlockSizeUnsupported => ErrorKind::Unsupported,
            _ => ErrorKind::InvalidData,
        }
    }

    /// What [`IsoTpError::message`] says.
    pub open spec fn text(self) -> Seq<char> {
        match self {
            IsoTpError::EmptyPayload => "payload must not be empty"@,
            IsoTpError::PayloadTooLong { len } => "payload "@ + text::dec_digits(len as nat)
                + " bytes exceeds 12-bit FF length cap (4095)"@,
            IsoTpError::FlowControlTimeout => "timed out waiting for Flow Control"@,
            IsoTpError::NotFlowControl { pci } => "expected Flow Control, got PCI byte 0x"@
                + text::hex_text(pci as nat, 2),
            IsoTpError::TooManyWaits { max } => "ECU sent more than "@ + text::dec_digits(
                max as nat,
            ) + " Wait flow controls"@,
            IsoTpError::FlowControlOverflow => "ECU returned Flow Control Overflow"@,
            IsoTpError::UnknownFlowStatus { status } => "unknown Flow Control flag 0x"@
                + text::hex_text(status as nat, 1),
            IsoTpError::BlockSizeUnsupported =>
                "ECU's BlockSize > 0 not yet supported on the send path"@,
            IsoTpError::NoResponse => "no response from ECU"@,
            IsoTpError::EmptyResponse => "empty response frame"@,
            IsoTpError::BadSingleFrameLength { pci } => "invalid Single Frame length 0x"@
                + text::hex_text(pci as nat, 1),
            IsoTpError::FirstFrameTooShort => "First Frame too short"@,
            IsoTpError::FirstFrameTooSmall { total } => "First Frame with length "@
                + text::dec_digits(total as nat) + " would have fit in SF"@,
            IsoTpError::ConsecutiveTimeout => "timed out collecting Consecutive Frames"@,
            IsoTpError::NotConsecutive { pci } => "expected Consecutive Frame, got PCI 0x"@
                + text::hex_text(pci as nat, 2),
            IsoTpError::SequenceMismatch { expected, got } => "CF sequence mismatch: expected "@
                + text::hex_text(expected as nat, 1) + ", got "@ + text::hex_text(got as nat, 1),
            IsoTpError::UnsolicitedConsecutive =>
                "received unsolicited Consecutive Frame as response start"@,
            IsoTpError::UnexpectedFlowControl =>
                "received Flow Control while expecting response data"@,
            IsoTpError::UnknownPci { pci } => "unknown PCI type in response 0x"@ + text::hex_text(
                pci as nat,
                2,
            ),
        }
    }

    /// The category of the error.
    pub fn kind(self) -> (k: ErrorKind)
        ensures
            k == self.category(),
    {
        match self {
            IsoTpError::EmptyPayload | IsoTpError::PayloadTooLong { .. } => ErrorKind::InvalidInput,
            IsoTpError::FlowControlTimeout
            | IsoTpError::TooManyWaits { .. }
            | IsoTpError::NoResponse
            | IsoTpError::ConsecutiveTimeout => ErrorKind::TimedOut,
            IsoTpError::FlowControlOverflow => ErrorKind::Other,
            IsoTpError::BlockSizeUnsupported => ErrorKind::Unsupported,
            _ => ErrorKind::InvalidData,
        }
    }

    /// The error as a sentence.
    pub fn message(self) -> (s: String)
        ensures
            s@ == self.text(),
    {
        match self {
            IsoTpError::EmptyPayload => String::from_str("payload must not be empty"),
            IsoTpError::PayloadTooLong { len } => {
                let mut s = String::from_str("payload ");
                push_dec(&mut s, len as u64);
                s.append(" bytes exceeds 12-bit FF length cap (4095)");
                s
            },
            IsoTpError::FlowControlTimeout => String::from_str(
                "timed out waiting for Flow Control",
            ),
            IsoTpError::NotFlowControl { pci } => {
                let mut s = String::from_str("expected Flow Control, got PCI byte 0x");
                push_hex(&mut s, pci as u64, 2);
                s
            },
            IsoTpError::TooManyWaits { max } => {
                let mut s = String::from_str("ECU sent more than ");
                push_dec(&mut s, max as u64);
                s.append(" Wait flow controls");
                s
            },
            IsoTpError::FlowControlOverflow => String::from_str(
                "ECU returned Flow Control Overflow",
            ),
            IsoTpError::UnknownFlowStatus { status } => {
                let mut s = String::from_str("unknown Flow Control flag 0x");
                push_hex(&mut s, status as u64, 1);
                s
            },
            IsoTpError::BlockSizeUnsupported => String::from_str(
                "ECU's BlockSize > 0 not yet supported on the send path",
            ),
            IsoTpError::NoResponse => String::from_str("no response from ECU"),
            IsoTpError::EmptyResponse => String::from_str("empty response frame"),
            IsoTpError::BadSingleFrameLength { pci } => {
                let mut s = String::from_str("invalid Single Frame length 0x");
                push_hex(&mut s, pci as u64, 1);
                s
            },
            IsoTpError::FirstFrameTooShort => String::from_str("First Frame too short"),
            IsoTpError::FirstFrameTooSmall { total } => {
                let mut s = String::from_str("First Frame with length ");
                push_dec(&mut s, total as u64);
                s.append(" would have fit in SF");
                s
            },
            IsoTpError::ConsecutiveTimeout => String::from_str(
                "timed out collecting Consecutive Frames",
            ),
            IsoTpError::NotConsecutive { pci } => {
                let mut s = String::from_str("expected Consecutive Frame, got PCI 0x");
                push_hex(&mut s, pci as u64, 2);
                s
            },
            IsoTpError::SequenceMismatch { expected, got } => {
                let mut s = String::from_str("CF sequence mismatch: expected ");
                push_hex(&mut s, expected as u64, 1);
                s.append(", got ");
                push_hex(&mut s, got as u64, 1);
                s
            },
            IsoTpError::UnsolicitedConsecutive => String::from_str(
                "received unsolicited Consecutive Frame as response start",
            ),
            IsoTpError::UnexpectedFlowControl => String::from_str(
                "received Flow Control while expecting response data",
            ),
            IsoTpError::UnknownPci { pci } => {
                let mut s = String::from_str("unknown PCI type in response 0x");
                push_hex(&mut s, pci as u64, 2);
                s
            },
        }
    }
}

// ---------------------------------------------------------------------------
// Laws

/// The frames, byte by byte. Each has eight: in front the type and, in the low four
/// bits, a length, a sequence number or a flow status; then what it carries; then
/// padding.
pub proof fn law_frames_byte_by_byte(
    payload: Seq<u8>,
    total: nat,
    number: int,
    status: u8,
    block_size: u8,
    st_min_ms: u8,
    padding: u8,
)
    ensures
        payload.len() <= 7 ==> {
            let f = single_frame(payload, padding);
            &&& f.len() == 8 && f[0] == payload.len()
            &&& forall|i: int|
                1 <= i < 8 ==> #[trigger] f[i] == if i - 1 < payload.len() {
                    payload[i - 1]
                } else {
                    padding
                }
        },
        payload.len() == 6 && total <= 4095 ==> {
            let f = first_frame(total, payload);
            &&& f.len() == 8 && 0x10 <= f[0] < 0x20 && (f[0] - 0x10) * 256 + f[1] == total
            &&& forall|i: int| 2 <= i < 8 ==> #[trigger] f[i] == payload[i - 2]
        },
        payload.len() <= 7 ==> {
            let f = consecutive_frame(number, payload, padding);
            &&& f.len() == 8 && 0x20 <= f[0] < 0x30 && (f[0] - number) % 16 == 0
            &&& forall|i: int|
                1 <= i < 8 ==> #[trigger] f[i] == if i - 1 < payload.len() {
                    payload[i - 1]
                } else {
                    padding
                }
        },
        ({
            let f = flow_control_frame(status, block_size, st_min_ms, padding);
            &&& f.len() == 8 && 0x30 <= f[0] < 0x40 && (f[0] - status) % 16 == 0
            &&& f[1] == block_size
            &&& f[2] == if st_min_ms > 127 {
                127
            } else {
                st_min_ms
            }
            &&& forall|i: int| 3 <= i < 8 ==> #[trigger] f[i] == padding
        }),
{
    if payload.len() == 6 && total <= 4095 {
        let f = first_frame(total, payload);
        assert(f[0] == 0x10 + total / 256);
        assert(f[1] == total % 256);
    }
}

/// A separation time is in milliseconds up to 127; from F1 to F9 it is in tenths of
/// one, and taken as one; any other value is reserved, and taken as 127.
pub proof fn law_separation_times(byte: u8)
    ensures
        byte <= 127 ==> st_min_of(byte) == byte,
        0xF1 <= byte <= 0xF9 ==> st_min_of(byte) == 1,
        127 < byte < 0xF1 || byte > 0xF9 ==> st_min_of(byte) == 127,
{
}

/// A message tells the number that goes with it.
pub proof fn law_messages_tell_their_numbers(n: usize, a: u8, b: u8)
    ensures
        (IsoTpError::PayloadTooLong { len: n }).text() == "payload "@ + text::dec_digits(n as nat)
            + " bytes exceeds 12-bit FF length cap (4095)"@,
        (IsoTpError::NotFlowControl { pci: a }).text()
            == "expected Flow Control, got PCI byte 0x"@ + text::hex_text(a as nat, 2),
        (IsoTpError::TooManyWaits { max: a }).text() == "ECU sent more than "@ + text::dec_digits(
            a as nat,
        ) + " Wait flow controls"@,
        (IsoTpError::UnknownFlowStatus { status: a }).text() == "unknown Flow Control flag 0x"@
            + text::hex_text(a as nat, 1),
        (IsoTpError::BadSingleFrameLength { pci: a }).text() == "invalid Single Frame length 0x"@
            + text::hex_text(a as nat, 1),
        (IsoTpError::FirstFrameTooSmall { total: n }).text() == "First Frame with length "@
            + text::dec_digits(n as nat) + " would have fit in SF"@,
        (IsoTpError::NotConsecutive { pci: a }).text()
            == "expected Consecutive Frame, got PCI 0x"@ + text::hex_text(a as nat, 2),
        (IsoTpError::SequenceMismatch { expected: a, got: b }).text()
            == "CF sequence mismatch: expected "@ + text::hex_text(a as nat, 1) + ", got "@
            + text::hex_text(b as nat, 1),
        (IsoTpError::UnknownPci { pci: a }).text() == "unknown PCI type in response 0x"@
            + text::hex_text(a as nat, 2),
{
}

} // verus!
