//! CAN frame types and wire-format conversion.
//!
//! Frames are stored with a fixed-size 64-byte data buffer and a length tag.
//! That makes them `Copy` and avoids any allocation on the hot path, at the
//! cost of 56 unused bytes for classic 8-byte frames.
use vstd::prelude::*;
use vstd::slice::slice_subrange;

use crate::bytes;
use crate::bytes::{native_order, put_u32, read_u32, ByteOrder};
use crate::consts::{
    CANFD_BRS, CANFD_ESI, CANFD_FRAME_SIZE, CAN_EFF_FLAG, CAN_EFF_MASK, CAN_ERR_FLAG, CAN_ERR_MASK,
    CAN_FRAME_SIZE, CAN_RTR_FLAG, CAN_SFF_MASK,
};
use crate::text;
use crate::text::{push_dec, push_hex, push_hex_dump};

verus! {

/// Maximum payload of a classic CAN 2.0 frame.
pub const MAX_DATA_LEN: usize = 8;

/// Maximum payload of a CAN-FD frame.
pub const MAX_FD_DATA_LEN: usize = 64;

// ---------------------------------------------------------------------------
// CanId

/// A CAN identifier: either an 11-bit standard or a 29-bit extended ID.
///
/// Construction is total: out-of-range bits are silently masked off.
#[derive(Clone, Copy, Debug, PartialEq, Eq, Hash, Structural)]
pub enum CanId {
    /// Standard 11-bit identifier (CAN 2.0A).
    Standard(u16),
    /// Extended 29-bit identifier (CAN 2.0B).
    Extended(u32),
}

impl CanId {
    /// Whether the identifier fits the number of bits of its format.
    pub open spec fn in_range(self) -> bool {
        match self {
            CanId::Standard(id) => id <= 0x7FF,
            CanId::Extended(id) => id <= 0x1FFF_FFFF,
        }
    }

    /// The identifier as a number, without flag bits.
    pub open spec fn number(self) -> u32 {
        match self {
            CanId::Standard(id) => id as u32,
            CanId::Extended(id) => id,
        }
    }

    /// The kernel's `can_id` word for this identifier.
    pub open spec fn wire_word(self) -> u32 {
        match self {
            CanId::Standard(id) => id as u32 & CAN_SFF_MASK,
            CanId::Extended(id) => (id & CAN_EFF_MASK) | CAN_EFF_FLAG,
        }
    }

    /// The identifier in a kernel `can_id` word.
    pub open spec fn of_wire_word(wire: u32) -> CanId {
        if wire & CAN_EFF_FLAG != 0 {
            CanId::Extended(wire & CAN_EFF_MASK)
        } else {
            CanId::Standard((wire & CAN_SFF_MASK) as u16)
        }
    }

    /// The identifier in upper-case hexadecimal, three digits wide for a
    /// standard and eight for an extended identifier.
    pub open spec fn text(self) -> Seq<char> {
        match self {
            CanId::Standard(id) => text::hex_text(id as nat, 3),
            CanId::Extended(id) => text::hex_text(id as nat, 8),
        }
    }

    /// Construct a [`CanId::Standard`], masking to 11 bits.
    pub fn standard(id: u16) -> (r: Self)
        ensures
            r == CanId::Standard(id & 0x7FF),
            r.in_range(),
            id <= 0x7FF ==> r == CanId::Standard(id),
    {
        proof {
            assert(id & 0x7FF <= 0x7FF) by (bit_vector);
            assert(id <= 0x7FF ==> id & 0x7FF == id) by (bit_vector);
        }
        CanId::Standard(id & (CAN_SFF_MASK as u16))
    }

    /// Construct a [`CanId::Extended`], masking to 29 bits.
    pub fn extended(id: u32) -> (r: Self)
        ensures
            r == CanId::Extended(id & CAN_EFF_MASK),
            r.in_range(),
            id <= CAN_EFF_MASK ==> r == CanId::Extended(id),
    {
        proof {
            assert(id & 0x1FFF_FFFF <= 0x1FFF_FFFF) by (bit_vector);
            assert(id <= 0x1FFF_FFFF ==> id & 0x1FFF_FFFF == id) by (bit_vector);
        }
        CanId::Extended(id & CAN_EFF_MASK)
    }

    /// Numeric value of the identifier (without flag bits).
    pub fn raw(self) -> (r: u32)
        ensures
            r == self.number(),
    {
        match self {
            CanId::Standard(id) => id as u32,
            CanId::Extended(id) => id,
        }
    }

    /// Whether this is an extended (29-bit) identifier.
    pub fn is_extended(self) -> (r: bool)
        ensures
            r == (self is Extended),
    {
        match self {
            CanId::Standard(_) => false,
            CanId::Extended(_) => true,
        }
    }

    /// Pack into the kernel `can_id` field, setting [`CAN_EFF_FLAG`] for
    /// extended identifiers.
    pub fn to_wire(self) -> (r: u32)
        ensures
            r == self.wire_word(),
    {
        match self {
            CanId::Standard(id) => id as u32 & CAN_SFF_MASK,
            CanId::Extended(id) => (id & CAN_EFF_MASK) | CAN_EFF_FLAG,
        }
    }

    /// Parse a kernel `can_id` value. The [`CAN_RTR_FLAG`] and
    /// [`CAN_ERR_FLAG`] bits are ignored here; check them separately on the
    /// raw word if you care.
    pub fn from_wire(wire: u32) -> (r: Self)
        ensures
            r == CanId::of_wire_word(wire),
            r.in_range(),
    {
        proof {
            assert(wire & 0x1FFF_FFFF <= 0x1FFF_FFFF) by (bit_vector);
            assert(wire & 0x7FF <= 0x7FF) by (bit_vector);
        }
        if wire & CAN_EFF_FLAG != 0 {
            CanId::Extended(wire & CAN_EFF_MASK)
        } else {
            CanId::Standard((wire & CAN_SFF_MASK) as u16)
        }
    }

    /// Appends the identifier in upper-case hexadecimal.
    pub fn push_text(self, out: &mut String)
        ensures
            final(out)@ == old(out)@ + self.text(),
    {
        match self {
            CanId::Standard(id) => push_hex(out, id as u64, 3),
            CanId::Extended(id) => push_hex(out, id as u64, 8),
        }
    }

    /// The identifier in upper-case hexadecimal: `123` or `18DAF101`.
    pub fn to_string(&self) -> (s: String)
        ensures
            s@ == self.text(),
    {
        let mut s = String::new();
        self.push_text(&mut s);
        assert(s@ =~= self.text());
        s
    }
}

/// An identifier that fits its format survives the trip through the kernel's
/// `can_id` word.
pub proof fn law_can_id_round_trip(id: CanId)
    requires
        id.in_range(),
    ensures
        CanId::of_wire_word(id.wire_word()) == id,
{
    match id {
        CanId::Standard(n) => {
            let w = n as u32;
            assert(w <= 0x7FF ==> w & 0x7FF == w && w & 0x8000_0000 == 0) by (bit_vector);
        },
        CanId::Extended(n) => {
            assert(n <= 0x1FFF_FFFF ==> ((n & 0x1FFF_FFFF) | 0x8000_0000) & 0x1FFF_FFFF == n
                && ((n & 0x1FFF_FFFF) | 0x8000_0000) & 0x8000_0000 != 0) by (bit_vector);
        },
    }
}

/// The word of an identifier is its number, with the EFF flag on top for an
/// extended one.
pub proof fn law_can_id_word_is_number(id: CanId)
    requires
        id.in_range(),
    ensures
        id.wire_word() == match id {
            CanId::Standard(n) => n as int,
            CanId::Extended(n) => n + 0x8000_0000,
        },
{
    match id {
        CanId::Standard(n) => {
            let w = n as u32;
            assert(w <= 0x7FF ==> w & 0x7FF == w) by (bit_vector);
        },
        CanId::Extended(n) => {
            assert(n <= 0x1FFF_FFFF ==> (n & 0x1FFF_FFFF) | 0x8000_0000 == n + 0x8000_0000)
                by (bit_vector);
        },
    }
}

/// The word of an identifier asks for a data frame: neither the RTR nor the
/// error flag is set in it.
pub proof fn law_can_id_word_is_data(id: CanId)
    ensures
        id.wire_word() & CAN_RTR_FLAG == 0,
        id.wire_word() & CAN_ERR_FLAG == 0,
{
    match id {
        CanId::Standard(n) => {
            let w = n as u32;
            assert((w & 0x7FF) & 0x4000_0000 == 0 && (w & 0x7FF) & 0x2000_0000 == 0)
                by (bit_vector);
        },
        CanId::Extended(n) => {
            assert(((n & 0x1FFF_FFFF) | 0x8000_0000) & 0x4000_0000 == 0 && ((n & 0x1FFF_FFFF)
                | 0x8000_0000) & 0x2000_0000 == 0) by (bit_vector);
        },
    }
}

/// The RTR and error flags do not change the identifier that is read out of a
/// word.
pub proof fn law_from_wire_ignores_flags(wire: u32)
    ensures
        CanId::of_wire_word(wire | CAN_RTR_FLAG) == CanId::of_wire_word(wire),
        CanId::of_wire_word(wire | CAN_ERR_FLAG) == CanId::of_wire_word(wire),
{
    assert(forall|f: u32|
        f == 0x4000_0000 || f == 0x2000_0000 ==> #[trigger] (wire | f) & 0x8000_0000 == wire
            & 0x8000_0000 && (wire | f) & 0x1FFF_FFFF == wire & 0x1FFF_FFFF && (wire | f) & 0x7FF
            == wire & 0x7FF) by (bit_vector);
}

/// What is read out of a word always fits its format.
pub proof fn law_from_wire_in_range(wire: u32)
    ensures
        CanId::of_wire_word(wire).in_range(),
{
    assert(wire & 0x1FFF_FFFF <= 0x1FFF_FFFF && wire & 0x7FF <= 0x7FF) by (bit_vector);
}

// ---------------------------------------------------------------------------
// FdFlags and FrameKind

/// CAN-FD-specific flags carried in `canfd_frame.flags`.
#[derive(Clone, Copy, Debug, PartialEq, Eq, Structural)]
pub struct FdFlags {
    /// Bit Rate Switch: payload transmitted at the higher data-phase rate.
    pub brs: bool,
    /// Error State Indicator: set by the transmitter when error-passive.
    pub esi: bool,
}

impl Default for FdFlags {
    /// Neither flag set.
    fn default() -> (r: Self)
        ensures
            r == (FdFlags { brs: false, esi: false }),
    {
        FdFlags { brs: false, esi: false }
    }
}

impl FdFlags {
    /// The kernel's `canfd_frame.flags` byte.
    pub open spec fn wire_byte(self) -> u8 {
        ((if self.brs {
            1int
        } else {
            0
        }) + (if self.esi {
            2int
        } else {
            0
        })) as u8
    }

    /// The flags in a kernel `canfd_frame.flags` byte.
    pub open spec fn of_wire_byte(wire: u8) -> FdFlags {
        FdFlags { brs: wire & CANFD_BRS != 0, esi: wire & CANFD_ESI != 0 }
    }

    /// Encode into the kernel `canfd_frame.flags` byte.
    pub fn to_wire(self) -> (r: u8)
        ensures
            r == self.wire_byte(),
    {
        proof {
            assert(0u8 | 1u8 == 1u8 && 0u8 | 2u8 == 2u8 && 1u8 | 2u8 == 3u8) by (bit_vector);
        }
        let mut f: u8 = 0;
        if self.brs {
            f = f | CANFD_BRS;
        }
        if self.esi {
            f = f | CANFD_ESI;
        }
        f
    }

    /// Parse from the kernel `canfd_frame.flags` byte.
    pub fn from_wire(wire: u8) -> (r: Self)
        ensures
            r == FdFlags::of_wire_byte(wire),
    {
        FdFlags { brs: wire & CANFD_BRS != 0, esi: wire & CANFD_ESI != 0 }
    }
}

/// Flags survive the trip through the kernel's flags byte.
pub proof fn law_fd_flags_round_trip(flags: FdFlags)
    ensures
        FdFlags::of_wire_byte(flags.wire_byte()) == flags,
{
    assert(0u8 & 1u8 == 0 && 0u8 & 2u8 == 0 && 1u8 & 1u8 != 0 && 1u8 & 2u8 == 0 && 2u8 & 1u8 == 0
        && 2u8 & 2u8 != 0 && 3u8 & 1u8 != 0 && 3u8 & 2u8 != 0) by (bit_vector);
}

/// Whether a frame is classic CAN 2.0 or CAN-FD.
#[derive(Clone, Copy, Debug, PartialEq, Eq, Structural)]
pub enum FrameKind {
    /// Classic CAN 2.0 frame, payload of at most 8 bytes.
    Classic,
    /// CAN-FD frame, payload of at most 64 bytes.
    Fd(FdFlags),
}

impl FrameKind {
    /// The largest payload of a frame of this kind.
    pub open spec fn max_payload(self) -> nat {
        match self {
            FrameKind::Classic => 8,
            FrameKind::Fd(_) => 64,
        }
    }

    /// The flags byte of a frame of this kind: zero for a classic frame.
    pub open spec fn flags_byte(self) -> u8 {
        match self {
            FrameKind::Classic => 0,
            FrameKind::Fd(flags) => flags.wire_byte(),
        }
    }

    /// Whether this is a CAN-FD frame.
    pub fn is_fd(self) -> (r: bool)
        ensures
            r == (self is Fd),
    {
        match self {
            FrameKind::Classic => false,
            FrameKind::Fd(_) => true,
        }
    }

    /// CAN-FD flags, or the default (no flag) for classic frames.
    pub fn fd_flags(self) -> (r: FdFlags)
        ensures
            r == (match self {
                FrameKind::Fd(f) => f,
                FrameKind::Classic => (FdFlags { brs: false, esi: false }),
            }),
    {
        match self {
            FrameKind::Fd(f) => f,
            FrameKind::Classic => FdFlags { brs: false, esi: false },
        }
    }
}

// ---------------------------------------------------------------------------
// Frame

/// Errors that can occur when constructing a [`Frame`].
#[derive(Debug, Clone, Copy, PartialEq, Eq, Structural)]
pub enum FrameError {
    /// Payload exceeded the maximum for the requested frame kind
    /// (8 bytes classic, 64 bytes FD).
    DataTooLong {
        /// Length that was attempted.
        len: usize,
        /// Maximum permitted for this kind.
        max: usize,
    },
}

impl FrameError {
    /// What [`FrameError::to_string`] says.
    pub open spec fn text(self) -> Seq<char> {
        match self {
            FrameError::DataTooLong { len, max } => "payload "@ + text::dec_digits(len as nat)
                + " bytes exceeds maximum "@ + text::dec_digits(max as nat) + " bytes"@,
        }
    }

    /// The error as a sentence.
    pub fn to_string(&self) -> (s: String)
        ensures
            s@ == self.text(),
    {
        match *self {
            FrameError::DataTooLong { len, max } => {
                let mut s = String::from_str("payload ");
                push_dec(&mut s, len as u64);
                s.append(" bytes exceeds maximum ");
                push_dec(&mut s, max as u64);
                s.append(" bytes");
                s
            },
        }
    }
}

/// What a frame says: identifier, kind, payload and reception time.
#[verifier::ext_equal]
pub struct FrameView {
    pub id: CanId,
    pub kind: FrameKind,
    pub payload: Seq<u8>,
    pub timestamp_ns: Option<u64>,
}

impl FrameView {
    /// Whether the payload fits the frame's kind and the identifier its format.
    pub open spec fn valid(self) -> bool {
        &&& self.id.in_range()
        &&& self.payload.len() <= self.kind.max_payload()
    }

    /// The frame as `candump` writes it: `123#DEADBEEF` (classic) or
    /// `123##0DEADBEEF` (FD, with the flags byte after the double `##`).
    pub open spec fn text(self) -> Seq<char> {
        let mark = match self.kind {
            FrameKind::Classic => "#"@,
            FrameKind::Fd(flags) => "##"@ + text::hex_text(flags.wire_byte() as nat, 1),
        };
        self.id.text() + mark + text::hex_dump(self.payload)
    }
}

/// A CAN or CAN-FD frame.
///
/// Payload is held inline in a 64-byte buffer; `len` is the meaningful prefix.
/// [`Frame::data`] is the convenient borrow.
///
/// `timestamp_ns` is filled in on reception when the kernel provides a
/// timestamp. It is in nanoseconds since the UNIX epoch. For transmission it
/// is always `None`.
#[derive(Clone, Copy, Debug)]
pub struct Frame {
    /// Identifier.
    pub id: CanId,
    /// Frame kind (classic or FD).
    pub kind: FrameKind,
    /// Length of the meaningful prefix of `data_buf`.
    pub len: u8,
    /// Inline data buffer; only `data_buf[..len]` is valid.
    pub data_buf: [u8; MAX_FD_DATA_LEN],
    /// Reception time in nanoseconds since the UNIX epoch, when available.
    pub timestamp_ns: Option<u64>,
}

impl View for Frame {
    type V = FrameView;

    open spec fn view(&self) -> FrameView {
        FrameView {
            id: self.id,
            kind: self.kind,
            payload: self.data_buf@.take(self.len as int),
            timestamp_ns: self.timestamp_ns,
        }
    }
}

/// `n` zero bytes.
pub open spec fn zero_bytes(n: nat) -> Seq<u8> {
    Seq::new(n, |i: int| 0u8)
}

/// A 64-byte buffer that starts with `data`; the rest is zero.
fn padded_copy(data: &[u8]) -> (buf: [u8; 64])
    requires
        data@.len() <= 64,
    ensures
        buf@ == data@ + zero_bytes((64 - data@.len()) as nat),
{
    let mut buf = [0u8; 64];
    for i in 0..data.len()
        invariant
            data@.len() <= 64,
            buf@ == data@.take(i as int) + zero_bytes((64 - i) as nat),
    {
        buf[i] = data[i];
        assert(buf@ =~= data@.take(i + 1) + zero_bytes((64 - (i + 1)) as nat));
    }
    assert(data@.take(data@.len() as int) == data@);
    buf
}

impl Frame {
    /// Whether `len` stays inside the buffer.
    pub open spec fn wf(&self) -> bool {
        self.len <= MAX_FD_DATA_LEN
    }

    /// Whether the buffer is zero behind the payload.
    pub open spec fn zero_tail(&self) -> bool {
        self.data_buf@ == self.data_buf@.take(self.len as int) + zero_bytes(
            (MAX_FD_DATA_LEN - self.len) as nat,
        )
    }

    /// Construct a classic CAN 2.0 frame.
    pub fn new_classic(id: CanId, data: &[u8]) -> (r: Result<Self, FrameError>)
        ensures
            match r {
                Ok(f) => {
                    &&& data@.len() <= MAX_DATA_LEN
                    &&& f.wf()
                    &&& f.zero_tail()
                    &&& f@ == (FrameView {
                        id,
                        kind: FrameKind::Classic,
                        payload: data@,
                        timestamp_ns: None,
                    })
                },
                Err(e) => {
                    &&& data@.len() > MAX_DATA_LEN
                    &&& e == (FrameError::DataTooLong { len: data.len(), max: MAX_DATA_LEN })
                },
            },
    {
        if data.len() > MAX_DATA_LEN {
            return Err(FrameError::DataTooLong { len: data.len(), max: MAX_DATA_LEN });
        }
        let buf = padded_copy(data);
        assert(buf@.take(data@.len() as int) =~= data@);
        Ok(
            Frame {
                id,
                kind: FrameKind::Classic,
                len: data.len() as u8,
                data_buf: buf,
                timestamp_ns: None,
            },
        )
    }

    /// Construct a CAN-FD frame with the given flags.
    pub fn new_fd(id: CanId, data: &[u8], flags: FdFlags) -> (r: Result<Self, FrameError>)
        ensures
            match r {
                Ok(f) => {
                    &&& data@.len() <= MAX_FD_DATA_LEN
                    &&& f.wf()
                    &&& f.zero_tail()
                    &&& f@ == (FrameView {
                        id,
                        kind: FrameKind::Fd(flags),
                        payload: data@,
                        timestamp_ns: None,
                    })
                },
                Err(e) => {
                    &&& data@.len() > MAX_FD_DATA_LEN
                    &&& e == (FrameError::DataTooLong { len: data.len(), max: MAX_FD_DATA_LEN })
                },
            },
    {
        if data.len() > MAX_FD_DATA_LEN {
            return Err(FrameError::DataTooLong { len: data.len(), max: MAX_FD_DATA_LEN });
        }
        let buf = padded_copy(data);
        assert(buf@.take(data@.len() as int) =~= data@);
        Ok(
            Frame {
                id,
                kind: FrameKind::Fd(flags),
                len: data.len() as u8,
                data_buf: buf,
                timestamp_ns: None,
            },
        )
    }

    /// A zero-initialised placeholder useful when sizing batch buffers. The
    /// result is a valid classic frame with id 0 and no payload.
    pub fn zeroed() -> (f: Self)
        ensures
            f.wf(),
            f.zero_tail(),
            f@ == (FrameView {
                id: CanId::Standard(0),
                kind: FrameKind::Classic,
                payload: Seq::<u8>::empty(),
                timestamp_ns: None,
            }),
    {
        let data_buf = [0u8; 64];
        assert(data_buf@ =~= data_buf@.take(0) + zero_bytes(64));
        Frame { id: CanId::Standard(0), kind: FrameKind::Classic, len: 0, data_buf, timestamp_ns: None }
    }

    /// The valid prefix of the data buffer.
    pub fn data(&self) -> (r: &[u8])
        requires
            self.wf(),
        ensures
            r@ == self@.payload,
    {
        slice_subrange(self.data_buf.as_slice(), 0, self.len as usize)
    }

    /// Whether this frame is CAN-FD.
    pub fn is_fd(&self) -> (r: bool)
        ensures
            r == (self.kind is Fd),
    {
        self.kind.is_fd()
    }

    /// The frame as `candump` writes it: `123#DEADBEEF` (classic) or
    /// `123##0DEADBEEF` (FD, with the flags byte after the double `##`).
    pub fn to_string(&self) -> (s: String)
        requires
            self.wf(),
        ensures
            s@ == self@.text(),
    {
        let mut s = self.id.to_string();
        match self.kind {
            FrameKind::Classic => s.append("#"),
            FrameKind::Fd(flags) => {
                s.append("##");
                push_hex(&mut s, flags.to_wire() as u64, 1);
            },
        }
        push_hex_dump(&mut s, self.data());
        assert(s@ =~= self@.text());
        s
    }
}

// ---------------------------------------------------------------------------
// Wire format

/// Kernel `struct canfd_frame`, field by field.
#[derive(Clone, Copy)]
pub struct WireFrame {
    /// `can_id`: packed identifier with EFF/RTR/ERR flag bits.
    pub can_id: u32,
    /// Payload length in bytes (0..=8 classic, 0..=64 FD).
    pub len: u8,
    /// FD flags byte (BRS/ESI). Zero for classic frames.
    pub flags: u8,
    /// Reserved.
    pub __res0: u8,
    /// Reserved (classic frames: `len_8_dlc`).
    pub __res1: u8,
    /// Payload (only `len` bytes are meaningful).
    pub data: [u8; MAX_FD_DATA_LEN],
}

/// Number of bytes of a frame on the wire.
pub open spec fn size_on_wire(is_fd: bool) -> nat {
    if is_fd {
        72
    } else {
        16
    }
}

/// The bytes of a frame in kernel format, as many as its kind takes: the
/// `can_id` word, the length, the flags, two reserved bytes, then the payload,
/// filled up with zeros.
pub open spec fn wire_image(order: ByteOrder, frame: FrameView) -> Seq<u8> {
    let payload = frame.payload;
    let room = size_on_wire(frame.kind is Fd) - 8;
    bytes::u32_bytes(order, frame.id.wire_word()) + seq![
        payload.len() as u8,
        frame.kind.flags_byte(),
        0u8,
        0u8,
    ] + payload + zero_bytes((room - payload.len()) as nat)
}

impl WireFrame {
    /// The 72 bytes of the structure in memory, in the given byte order.
    pub open spec fn image(self, order: ByteOrder) -> Seq<u8> {
        bytes::u32_bytes(order, self.can_id) + seq![
            self.len,
            self.flags,
            self.__res0,
            self.__res1,
        ] + self.data@
    }

    /// Zero-initialised wire frame.
    pub fn zeroed() -> (w: Self)
        ensures
            w.can_id == 0,
            w.len == 0,
            w.flags == 0,
            w.__res0 == 0,
            w.__res1 == 0,
            w.data@ == zero_bytes(64),
    {
        let data = [0u8; 64];
        assert(data@ =~= zero_bytes(64));
        WireFrame { can_id: 0, len: 0, flags: 0, __res0: 0, __res1: 0, data }
    }

    /// Build from a [`Frame`]. The first [`WireFrame::wire_size`] bytes of the
    /// result are what a `CAN_RAW` socket takes.
    pub fn from_frame(frame: &Frame) -> (w: Self)
        requires
            frame.wf(),
        ensures
            w.can_id == frame.id.wire_word(),
            w.len == frame.len,
            w.flags == frame.kind.flags_byte(),
            w.__res0 == 0,
            w.__res1 == 0,
            w.data@ == frame@.payload + zero_bytes((64 - frame@.payload.len()) as nat),
    {
        let mut w = WireFrame::zeroed();
        w.can_id = frame.id.to_wire();
        w.len = frame.len;
        if let FrameKind::Fd(flags) = frame.kind {
            w.flags = flags.to_wire();
        }
        w.data = padded_copy(frame.data());
        w
    }

    /// Number of bytes to write or read on the wire for this frame kind.
    pub fn wire_size(is_fd: bool) -> (n: usize)
        ensures
            n == size_on_wire(is_fd),
    {
        if is_fd {
            CANFD_FRAME_SIZE
        } else {
            CAN_FRAME_SIZE
        }
    }

    /// The bytes of the structure, in the given byte order.
    pub fn to_bytes_in(&self, order: ByteOrder) -> (b: [u8; 72])
        ensures
            b@ == self.image(order),
    {
        let id = put_u32(order, self.can_id);
        let mut b = [0u8; 72];
        b[0] = id[0];
        b[1] = id[1];
        b[2] = id[2];
        b[3] = id[3];
        b[4] = self.len;
        b[5] = self.flags;
        b[6] = self.__res0;
        b[7] = self.__res1;
        let ghost head = bytes::u32_bytes(order, self.can_id) + seq![
            self.len,
            self.flags,
            self.__res0,
            self.__res1,
        ];
        for i in 0..64usize
            invariant
                head.len() == 8,
                b@.take(8) == head,
                forall|j: int| 0 <= j < i ==> b@[8 + j] == self.data@[j],
        {
            let ghost prev = b@;
            b[8 + i] = self.data[i];
            assert(b@.take(8) =~= prev.take(8));
        }
        assert(b@ =~= b@.take(8) + self.data@);
        b
    }

    /// The bytes of the structure, in the byte order of this machine.
    pub fn to_bytes(&self) -> (b: [u8; 72])
        ensures
            b@ == self.image(ByteOrder::Little) || b@ == self.image(ByteOrder::Big),
    {
        self.to_bytes_in(native_order())
    }
}

/// What a buffer in kernel format says.
#[verifier::ext_equal]
pub enum DecodedView {
    /// A data frame.
    Data(FrameView),
    /// A remote transmission request.
    Rtr { id: CanId, len: u8 },
    /// An error frame.
    Error { class: u32, detail: Seq<u8> },
}

/// Outcome of decoding a wire-format frame.
#[derive(Debug, Clone, Copy)]
pub enum DecodedFrame {
    /// A normal data frame.
    Data(Frame),
    /// A remote transmission request (`CAN_RTR_FLAG` set). Length and ID kept;
    /// no payload is delivered by the kernel.
    Rtr {
        /// Identifier of the requested frame.
        id: CanId,
        /// Requested DLC.
        len: u8,
    },
    /// An error frame (`CAN_ERR_FLAG` set). The error class is in the low bits
    /// of the raw `can_id`; the payload (up to 8 bytes) carries
    /// driver-specific detail per `linux/can/error.h`.
    Error {
        /// Error class bits (a subset of the `CAN_ERR_*` constants).
        class: u32,
        /// Up to 8 bytes of error-specific data.
        data: [u8; 8],
        /// Length of the meaningful prefix in `data`.
        len: u8,
    },
}

impl View for DecodedFrame {
    type V = DecodedView;

    open spec fn view(&self) -> DecodedView {
        match *self {
            DecodedFrame::Data(f) => DecodedView::Data(f@),
            DecodedFrame::Rtr { id, len } => DecodedView::Rtr { id, len },
            DecodedFrame::Error { class, data, len } => DecodedView::Error {
                class,
                detail: data@.take(len as int),
            },
        }
    }
}

impl DecodedFrame {
    /// Whether the lengths stay inside their buffers, with zeros behind the
    /// meaningful prefix.
    pub open spec fn wf(&self) -> bool {
        match *self {
            DecodedFrame::Data(f) => f.wf() && f.zero_tail(),
            DecodedFrame::Rtr { .. } => true,
            DecodedFrame::Error { data, len, .. } => {
                &&& len <= 8
                &&& data@ == data@.take(len as int) + zero_bytes((8 - len) as nat)
            },
        }
    }
}

/// What the buffer `buf` in kernel format says, or `None` if it is shorter
/// than the shortest frame.
///
/// A buffer of exactly 72 bytes holds a CAN-FD frame, any other a classic one.
/// A length byte above what the kind allows counts as the maximum.
pub open spec fn decoded(order: ByteOrder, buf: Seq<u8>, timestamp_ns: Option<u64>) -> Option<
    DecodedView,
> {
    if buf.len() < 16 {
        None
    } else {
        let can_id = bytes::u32_of(order, buf.subrange(0, 4));
        let len = buf[4];
        if can_id & CAN_ERR_FLAG != 0 {
            let n = if len > 8 {
                8
            } else {
                len as int
            };
            Some(
                DecodedView::Error { class: can_id & CAN_ERR_MASK, detail: buf.subrange(8, 8 + n) },
            )
        } else if can_id & CAN_RTR_FLAG != 0 {
            Some(DecodedView::Rtr { id: CanId::of_wire_word(can_id), len })
        } else {
            let kind = if buf.len() == 72 {
                FrameKind::Fd(FdFlags::of_wire_byte(buf[5]))
            } else {
                FrameKind::Classic
            };
            let n = if len > kind.max_payload() {
                kind.max_payload() as int
            } else {
                len as int
            };
            Some(
                DecodedView::Data(
                    FrameView {
                        id: CanId::of_wire_word(can_id),
                        kind,
                        payload: buf.subrange(8, 8 + n),
                        timestamp_ns,
                    },
                ),
            )
        }
    }
}

/// Decode a kernel-format buffer (16 bytes for classic, 72 for FD) whose
/// integers stand in the given byte order.
pub fn decode_wire_in(order: ByteOrder, buf: &[u8], timestamp_ns: Option<u64>) -> (r: Option<
    DecodedFrame,
>)
    ensures
        r is Some == (decoded(order, buf@, timestamp_ns) is Some),
        r matches Some(d) ==> {
            &&& d.wf()
            &&& Some(d@) == decoded(order, buf@, timestamp_ns)
        },
{
    if buf.len() < CAN_FRAME_SIZE {
        return None;
    }
    let can_id = read_u32(order, buf, 0);
    let payload_len = buf[4] as usize;
    let fd_flags = buf[5];

    let is_rtr = can_id & CAN_RTR_FLAG != 0;
    let is_err = can_id & CAN_ERR_FLAG != 0;

    if is_err {
        let n: usize = if payload_len > 8 {
            8
        } else {
            payload_len
        };
        let mut data = [0u8; 8];
        for i in 0..n
            invariant
                n <= 8,
                buf@.len() >= 16,
                data@ == buf@.subrange(8, 8 + i) + zero_bytes((8 - i) as nat),
        {
            data[i] = buf[8 + i];
            assert(data@ =~= buf@.subrange(8, 8 + (i + 1)) + zero_bytes((8 - (i + 1)) as nat));
        }
        assert(data@.take(n as int) =~= buf@.subrange(8, 8 + n));
        return Some(
            DecodedFrame::Error { class: can_id & CAN_ERR_MASK, data, len: n as u8 },
        );
    }
    let id = CanId::from_wire(can_id);
    if is_rtr {
        return Some(DecodedFrame::Rtr { id, len: buf[4] });
    }
    let is_fd = buf.len() == CANFD_FRAME_SIZE;
    let max_payload: usize = if is_fd {
        MAX_FD_DATA_LEN
    } else {
        MAX_DATA_LEN
    };
    let len: usize = if payload_len > max_payload {
        max_payload
    } else {
        payload_len
    };
    let data_buf = padded_copy(slice_subrange(buf, 8, 8 + len));
    let kind = if is_fd {
        FrameKind::Fd(FdFlags::from_wire(fd_flags))
    } else {
        FrameKind::Classic
    };
    assert(data_buf@.take(len as int) =~= buf@.subrange(8, 8 + len));
    Some(DecodedFrame::Data(Frame { id, kind, len: len as u8, data_buf, timestamp_ns }))
}

/// Decode a kernel-format buffer (16 bytes for classic, 72 for FD), whose
/// integers stand in the byte order of this machine, into a [`DecodedFrame`].
///
/// Returns `None` if the buffer is shorter than [`CAN_FRAME_SIZE`].
///
/// `timestamp_ns` is attached to the resulting [`Frame`] (data variant only).
pub fn decode_wire(buf: &[u8], timestamp_ns: Option<u64>) -> (r: Option<DecodedFrame>)
    ensures
        r is Some == (buf@.len() >= CAN_FRAME_SIZE),
        r matches Some(d) ==> {
            &&& d.wf()
            &&& {
                ||| Some(d@) == decoded(ByteOrder::Little, buf@, timestamp_ns)
                ||| Some(d@) == decoded(ByteOrder::Big, buf@, timestamp_ns)
            }
        },
{
    decode_wire_in(native_order(), buf, timestamp_ns)
}

/// The bytes that are sent for a frame are the first bytes of its wire
/// structure.
pub proof fn law_wire_image_is_prefix(order: ByteOrder, frame: FrameView, w: WireFrame)
    requires
        frame.payload.len() <= frame.kind.max_payload(),
        w.can_id == frame.id.wire_word(),
        w.len == frame.payload.len(),
        w.flags == frame.kind.flags_byte(),
        w.__res0 == 0,
        w.__res1 == 0,
        w.data@ == frame.payload + zero_bytes((64 - frame.payload.len()) as nat),
    ensures
        w.image(order).take(size_on_wire(frame.kind is Fd) as int) == wire_image(order, frame),
{
    let size = size_on_wire(frame.kind is Fd) as int;
    assert(w.image(order).take(size) =~= wire_image(order, frame));
}

/// A frame survives the wire: decoding the bytes that are sent for it, in the
/// byte order in which they were written, gives a data frame with the same
/// identifier, kind and payload, and the time of its reception.
pub proof fn law_frame_round_trip(order: ByteOrder, frame: FrameView, received_at: Option<u64>)
    requires
        frame.valid(),
    ensures
        decoded(order, wire_image(order, frame), received_at) == Some(
            DecodedView::Data(FrameView { timestamp_ns: received_at, ..frame }),
        ),
{
    let word = frame.id.wire_word();
    let image = wire_image(order, frame);
    bytes::law_u32_round_trip(order, word);
    assert(image.subrange(0, 4) =~= bytes::u32_bytes(order, word));
    assert(image.subrange(8, 8 + frame.payload.len() as int) =~= frame.payload);
    assert(image[4] == frame.payload.len());
    assert(image[5] == frame.kind.flags_byte());
    law_can_id_round_trip(frame.id);
    law_can_id_word_is_data(frame.id);
    match frame.kind {
        FrameKind::Classic => {},
        FrameKind::Fd(flags) => law_fd_flags_round_trip(flags),
    }
}

/// What is decoded as a data frame is a valid frame.
pub proof fn law_decoded_data_is_valid(order: ByteOrder, buf: Seq<u8>, timestamp_ns: Option<u64>)
    ensures
        decoded(order, buf, timestamp_ns) matches Some(DecodedView::Data(f)) ==> f.valid(),
{
    if buf.len() >= 16 {
        law_from_wire_in_range(bytes::u32_of(order, buf.subrange(0, 4)));
    }
}

/// The word of an identifier is its number in the low bits, 11 of them for a
/// standard one and 29 for an extended one, and the topmost bit tells the two apart.
pub proof fn law_can_id_word_has_the_low_bits(id: CanId)
    ensures
        id.wire_word() == match id {
            CanId::Standard(n) => n as int % 0x800,
            CanId::Extended(n) => n as int % 0x2000_0000 + 0x8000_0000,
        },
{
    match id {
        CanId::Standard(n) => {
            let w = n as u32;
            lemma_word_bits(w);
        },
        CanId::Extended(n) => {
            assert((n & 0x1FFF_FFFF) | 0x8000_0000 == n % 0x2000_0000 + 0x8000_0000)
                by (bit_vector);
        },
    }
}

proof fn lemma_word_bits(w: u32)
    ensures
        (w & 0x2000_0000 != 0) == (w / 0x2000_0000 % 2 == 1),
        (w & 0x4000_0000 != 0) == (w / 0x4000_0000 % 2 == 1),
        (w & 0x8000_0000 != 0) == (w >= 0x8000_0000),
        w & 0x1FFF_FFFF == w % 0x2000_0000,
        w & 0x7FF == w % 0x800,
{
    assert((w & 0x2000_0000 != 0) == (w / 0x2000_0000 % 2 == 1) && (w & 0x4000_0000 != 0) == (w
        / 0x4000_0000 % 2 == 1) && (w & 0x8000_0000 != 0) == (w >= 0x8000_0000) && w & 0x1FFF_FFFF
        == w % 0x2000_0000 && w & 0x7FF == w % 0x800) by (bit_vector);
}

proof fn lemma_flag_bits(b: u8)
    ensures
        (b & 1 != 0) == (b % 2 == 1),
        (b & 2 != 0) == (b / 2 % 2 == 1),
{
    assert((b & 1 != 0) == (b % 2 == 1) && (b & 2 != 0) == (b / 2 % 2 == 1)) by (bit_vector);
}

/// The identifier that a word holds: the low 29 bits of an extended one, the low 11
/// of a standard one, told apart by the topmost bit.
pub proof fn law_word_holds_the_identifier(wire: u32)
    ensures
        CanId::of_wire_word(wire) == if wire >= 0x8000_0000 {
            CanId::Extended((wire % 0x2000_0000) as u32)
        } else {
            CanId::Standard((wire % 0x800) as u16)
        },
{
    lemma_word_bits(wire);
}

/// The flags of a CAN-FD frame are the two lowest bits of their byte.
pub proof fn law_flags_are_bits(flags: FdFlags, wire: u8)
    ensures
        flags.wire_byte() < 4,
        (flags.wire_byte() % 2 == 1) == flags.brs,
        (flags.wire_byte() / 2 == 1) == flags.esi,
        FdFlags::of_wire_byte(wire).brs == (wire % 2 == 1),
        FdFlags::of_wire_byte(wire).esi == (wire / 2 % 2 == 1),
{
    lemma_flag_bits(wire);
}

/// What a buffer from the kernel says, byte by byte. The first four make a word:
/// its third bit from the top marks an error frame, whose class is in the other
/// bits; its second bit marks a remote request. Else it is a data frame: a CAN-FD
/// one where there are 72 bytes, with its flags in the sixth byte. The fifth byte
/// is the length of what starts at the ninth; more than there is room for counts as
/// the room. Less than 16 bytes are no frame.
pub proof fn law_buffer_is_decoded(order: ByteOrder, buf: Seq<u8>, timestamp_ns: Option<u64>)
    ensures
        buf.len() < 16 ==> decoded(order, buf, timestamp_ns) is None,
        buf.len() >= 16 ==> {
            let w = bytes::sum_of_four(order, buf[0], buf[1], buf[2], buf[3]);
            let room = if buf.len() == 72 {
                64
            } else {
                8int
            };
            let id = if w >= 0x8000_0000 {
                CanId::Extended((w % 0x2000_0000) as u32)
            } else {
                CanId::Standard((w % 0x800) as u16)
            };
            match decoded(order, buf, timestamp_ns) {
                None => false,
                Some(DecodedView::Error { class, detail }) => {
                    &&& w / 0x2000_0000 % 2 == 1
                    &&& class == w % 0x2000_0000
                    &&& detail.len() == if buf[4] > 8 {
                        8
                    } else {
                        buf[4] as nat
                    }
                    &&& forall|i: int|
                        0 <= i < detail.len() ==> #[trigger] detail[i] == buf[8 + i]
                },
                Some(DecodedView::Rtr { id: asked, len }) => {
                    &&& w / 0x2000_0000 % 2 == 0 && w / 0x4000_0000 % 2 == 1
                    &&& asked == id
                    &&& len == buf[4]
                },
                Some(DecodedView::Data(f)) => {
                    &&& w / 0x2000_0000 % 2 == 0 && w / 0x4000_0000 % 2 == 0
                    &&& f.id == id
                    &&& f.kind == if buf.len() == 72 {
                        FrameKind::Fd(
                            FdFlags { brs: buf[5] % 2 == 1, esi: buf[5] / 2 % 2 == 1 },
                        )
                    } else {
                        FrameKind::Classic
                    }
                    &&& f.payload.len() == if buf[4] > room {
                        room
                    } else {
                        buf[4] as int
                    }
                    &&& forall|i: int|
                        0 <= i < f.payload.len() ==> #[trigger] f.payload[i] == buf[8 + i]
                    &&& f.timestamp_ns == timestamp_ns
                },
            }
        },
{
    if buf.len() >= 16 {
        let head = buf.subrange(0, 4);
        bytes::law_bytes_stand_in_order(order, head, 0, 0);
        let w = bytes::u32_of(order, head);
        lemma_word_bits(w);
        lemma_flag_bits(buf[5]);
    }
}

/// The number of an identifier is the one it was made from.
pub proof fn law_number_of_an_identifier(standard: u16, extended: u32)
    ensures
        CanId::Standard(standard).number() == standard,
        CanId::Extended(extended).number() == extended,
        CanId::Standard(standard).in_range() == (standard < 0x800),
        CanId::Extended(extended).in_range() == (extended < 0x2000_0000),
{
}

/// A frame in text is its identifier, a mark and its payload. The mark is `#` for a
/// classic frame, and `##` with the flags as one digit for a CAN-FD frame; the payload
/// is two digits for each byte, the high one first.
pub proof fn law_frame_in_text(f: FrameView)
    ensures
        ({
            let t = f.text();
            let n = f.id.text().len() as int;
            let at = if f.kind is Fd {
                n + 3
            } else {
                n + 1
            };
            &&& t.len() == at + 2 * f.payload.len()
            &&& t.take(n) == f.id.text()
            &&& t[n] == '#'
            &&& f.kind matches FrameKind::Fd(flags) ==> t[n + 1] == '#' && text::digit_value(
                t[n + 2],
                16,
            ) == Some(
                ((if flags.brs {
                    1int
                } else {
                    0
                }) + (if flags.esi {
                    2int
                } else {
                    0
                })) as nat,
            )
            &&& forall|i: int|
                0 <= i < f.payload.len() ==> #[trigger] f.payload[i] == 16 * text::digit_value(
                    t[at + 2 * i],
                    16,
                )->Some_0 + text::digit_value(t[at + 2 * i + 1], 16)->Some_0
        }),
{
    reveal_strlit("#");
    reveal_strlit("##");
    let t = f.text();
    let n = f.id.text().len() as int;
    let dump = text::hex_dump(f.payload);
    let at = if f.kind is Fd {
        n + 3
    } else {
        n + 1
    };
    assert("#"@ =~= seq!['#']);
    assert("##"@ =~= seq!['#', '#']);
    if let FrameKind::Fd(flags) = f.kind {
        let h = text::hex_text(flags.wire_byte() as nat, 1);
        assert(flags.wire_byte() < 4);
        assert(text::hex_digits(flags.wire_byte() as nat) == seq![
            text::hex_digit(flags.wire_byte() as int),
        ]);
        assert(h.len() == 1);
        assert(t[n + 2] == h[0]);
    }
    assert(t.len() == at + dump.len());
    assert(t.take(n) =~= f.id.text());
    text::law_hex_dump_tells_every_byte(f.payload);
    assert forall|i: int| 0 <= i < f.payload.len() implies #[trigger] f.payload[i] == 16
        * text::digit_value(t[at + 2 * i], 16)->Some_0 + text::digit_value(
        t[at + 2 * i + 1],
        16,
    )->Some_0 by {
        assert(t[at + 2 * i] == dump[2 * i]);
        assert(t[at + 2 * i + 1] == dump[2 * i + 1]);
    }
}

/// The wire structure in memory, byte by byte.
pub proof fn law_wire_structure_byte_by_byte(w: WireFrame, order: ByteOrder)
    ensures
        ({
            let b = w.image(order);
            &&& b.len() == 72
            &&& bytes::sum_of_four(order, b[0], b[1], b[2], b[3]) == w.can_id
            &&& b[4] == w.len && b[5] == w.flags && b[6] == w.__res0 && b[7] == w.__res1
            &&& forall|i: int| 8 <= i < 72 ==> #[trigger] b[i] == w.data@[i - 8]
        }),
{
    let x = bytes::u32_bytes(order, w.can_id);
    bytes::law_bytes_stand_in_order(order, x, w.can_id, 0);
    let b = w.image(order);
    assert(b[0] == x[0] && b[1] == x[1] && b[2] == x[2] && b[3] == x[3]);
}

/// The message on a payload that is too long tells both lengths.
pub proof fn law_too_long_is_told(len: usize, max: usize)
    ensures
        (FrameError::DataTooLong { len, max }).text() == "payload "@ + text::dec_digits(len as nat)
            + " bytes exceeds maximum "@ + text::dec_digits(max as nat) + " bytes"@,
{
}

} // verus!
