//! `CAN_RAW` sockets: how one is opened, what goes through it, and what comes
//! out of it.
//!
//! [`open`] gives an [`Opening`]: the stages that are to be gone through with
//! the kernel, one after the other, and what a refusal means at each of them.
//! [`send`] and [`send_batch`] give the bytes that are to be written; [`recv`],
//! [`recv_decoded`] and [`recv_batch`] take what the kernel handed over.
//!
//! # Timestamps
//!
//! By default the socket asks the kernel for `SO_TIMESTAMPING` (hardware
//! preferred, software otherwise). When that is denied, it falls back to
//! `SO_TIMESTAMPNS`. Either way frames carry a `timestamp_ns` from the best
//! source available, and the time of the caller's clock where there is none.
use vstd::prelude::*;

use crate::bytes;
use crate::bytes::{as_unsigned, low_i32, low_i64, ByteOrder};
use crate::consts::{
    CAN_EFF_FLAG, CAN_EFF_MASK, CAN_FRAME_SIZE, CAN_SFF_MASK, EAGAIN, EINTR, IFNAMSIZ,
    SOF_TIMESTAMPING_RAW_HARDWARE, SOF_TIMESTAMPING_RX_HARDWARE, SOF_TIMESTAMPING_RX_SOFTWARE,
    SOF_TIMESTAMPING_SOFTWARE,
};
use crate::error::ErrorKind;
use crate::frame;
use crate::frame::{
    decode_wire_in, CanId, DecodedFrame, DecodedView, Frame, FrameView, WireFrame,
};
use crate::time::TimeSpan;

verus! {

// ---------------------------------------------------------------------------
// Filters

/// A single `CAN_RAW_FILTER` entry. The kernel delivers a frame when
/// `frame.can_id & mask == id & mask`.
///
/// The high bits of `id` and `mask` carry the same flag conventions as
/// `can_id` itself: set [`CAN_EFF_FLAG`] in `mask` to require that the
/// extended/standard distinction matches.
#[derive(Clone, Copy, Debug, PartialEq, Eq, Structural)]
pub struct CanFilter {
    /// The ID pattern (with EFF/RTR/ERR flag bits where appropriate).
    pub id: u32,
    /// The mask applied to both `id` and the incoming `can_id` for comparison.
    pub mask: u32,
}

impl CanFilter {
    /// Whether the kernel delivers a frame with this `can_id` word.
    pub open spec fn accepts(self, can_id: u32) -> bool {
        can_id & self.mask == self.id & self.mask
    }

    /// Match exactly one standard ID.
    pub fn standard_exact(id: u16) -> (r: Self)
        ensures
            r.id == id % 0x800,
            r.mask == 0x8000_07FF,
            forall|x: CanId| #[trigger]
                x.in_range() ==> r.accepts(x.wire_word()) == (x == CanId::Standard(id % 0x800)),
    {
        proof {
            let f = CanFilter { id: (id % 0x800) as u32, mask: 0x8000_07FF };
            assert forall|x: CanId| #[trigger] x.in_range() implies f.accepts(x.wire_word()) == (x
                == CanId::Standard(id % 0x800)) by {
                law_standard_exact_matches_one(f, id, x);
            }
            assert((id as u32) & 0x7FF == id % 0x800) by (bit_vector);
            assert(0x7FFu32 | 0x8000_0000u32 == 0x8000_07FFu32) by (bit_vector);
        }
        // Match the SFF id bits and require EFF=0.
        CanFilter { id: (id as u32) & CAN_SFF_MASK, mask: CAN_SFF_MASK | CAN_EFF_FLAG }
    }

    /// Match exactly one extended ID.
    pub fn extended_exact(id: u32) -> (r: Self)
        ensures
            r.id == id % 0x2000_0000 + 0x8000_0000,
            r.mask == 0x9FFF_FFFF,
            forall|x: CanId| #[trigger]
                x.in_range() ==> r.accepts(x.wire_word()) == (x == CanId::Extended(
                    id % 0x2000_0000,
                )),
    {
        proof {
            let f = CanFilter {
                id: (id % 0x2000_0000 + 0x8000_0000) as u32,
                mask: 0x9FFF_FFFF,
            };
            assert forall|x: CanId| #[trigger] x.in_range() implies f.accepts(x.wire_word()) == (x
                == CanId::Extended(id % 0x2000_0000)) by {
                law_extended_exact_matches_one(f, id, x);
            }
            assert((id & 0x1FFF_FFFF) | 0x8000_0000 == id % 0x2000_0000 + 0x8000_0000)
                by (bit_vector);
            assert(0x1FFF_FFFFu32 | 0x8000_0000u32 == 0x9FFF_FFFFu32) by (bit_vector);
        }
        CanFilter { id: (id & CAN_EFF_MASK) | CAN_EFF_FLAG, mask: CAN_EFF_MASK | CAN_EFF_FLAG }
    }

    /// Match any ID where `id & mask` equals `pattern & mask` (standard frames
    /// only).
    pub fn standard_masked(pattern: u16, mask: u16) -> (r: Self)
        ensures
            r.id == pattern % 0x800,
            r.mask == mask % 0x800 + 0x8000_0000,
            forall|x: CanId| #[trigger]
                x.in_range() ==> r.accepts(x.wire_word()) == match x {
                    CanId::Standard(n) => n & mask == (pattern % 0x800) & mask,
                    CanId::Extended(_) => false,
                },
    {
        proof {
            let f = CanFilter {
                id: (pattern % 0x800) as u32,
                mask: (mask % 0x800 + 0x8000_0000) as u32,
            };
            assert forall|x: CanId| #[trigger] x.in_range() implies f.accepts(x.wire_word())
                == match x {
                CanId::Standard(n) => n & mask == (pattern % 0x800) & mask,
                CanId::Extended(_) => false,
            } by {
                law_standard_masked_matches(f, pattern, mask, x);
            }
            assert((pattern as u32) & 0x7FF == pattern % 0x800) by (bit_vector);
            assert(((mask as u32) & 0x7FF) | 0x8000_0000 == mask % 0x800 + 0x8000_0000)
                by (bit_vector);
        }
        CanFilter {
            id: (pattern as u32) & CAN_SFF_MASK,
            mask: ((mask as u32) & CAN_SFF_MASK) | CAN_EFF_FLAG,
        }
    }
}

/// Whether a set of filters lets a frame with this `can_id` word through: one of
/// them accepts it.
pub open spec fn delivered(filters: Seq<CanFilter>, can_id: u32) -> bool {
    exists|i: int| 0 <= i < filters.len() && #[trigger] filters[i].accepts(can_id)
}

/// An exact standard filter lets through the data frames with its identifier,
/// and no other data frames.
pub proof fn law_standard_exact_matches_one(filter: CanFilter, id: u16, other: CanId)
    requires
        filter.id == id % 0x800,
        filter.mask == 0x8000_07FF,
        other.in_range(),
    ensures
        filter.accepts(other.wire_word()) == (other == CanId::Standard(id % 0x800)),
{
    frame::law_can_id_word_is_number(other);
    let w = other.wire_word();
    let f = filter.id;
    match other {
        CanId::Standard(x) => {
            assert((w & 0x8000_07FFu32 == f & 0x8000_07FFu32) == (w == f)) by (bit_vector)
                requires
                    w < 0x800,
                    f < 0x800,
            ;
        },
        CanId::Extended(x) => {
            assert(w & 0x8000_07FFu32 != f & 0x8000_07FFu32) by (bit_vector)
                requires
                    w >= 0x8000_0000,
                    f < 0x800,
            ;
        },
    }
}

/// An exact extended filter lets through the data frames with its identifier,
/// and no other data frames.
pub proof fn law_extended_exact_matches_one(filter: CanFilter, id: u32, other: CanId)
    requires
        filter.id == id % 0x2000_0000 + 0x8000_0000,
        filter.mask == 0x9FFF_FFFF,
        other.in_range(),
    ensures
        filter.accepts(other.wire_word()) == (other == CanId::Extended(id % 0x2000_0000)),
{
    frame::law_can_id_word_is_number(other);
    let w = other.wire_word();
    let f = filter.id;
    match other {
        CanId::Standard(x) => {
            assert(w & 0x9FFF_FFFFu32 != f & 0x9FFF_FFFFu32) by (bit_vector)
                requires
                    w < 0x800,
                    f >= 0x8000_0000,
            ;
        },
        CanId::Extended(x) => {
            assert((w & 0x9FFF_FFFFu32 == f & 0x9FFF_FFFFu32) == (w == f)) by (bit_vector)
                requires
                    0x8000_0000 <= w < 0xA000_0000,
                    0x8000_0000 <= f < 0xA000_0000,
            ;
        },
    }
}

/// A masked standard filter lets through the standard data frames whose
/// identifier agrees with the pattern in the bits of the mask, and no extended
/// ones.
pub proof fn law_standard_masked_matches(filter: CanFilter, pattern: u16, mask: u16, other: CanId)
    requires
        filter.id == pattern % 0x800,
        filter.mask == mask % 0x800 + 0x8000_0000,
        other.in_range(),
    ensures
        filter.accepts(other.wire_word()) == match other {
            CanId::Standard(x) => x & mask == (pattern % 0x800) & mask,
            CanId::Extended(_) => false,
        },
{
    frame::law_can_id_word_is_number(other);
    let w = other.wire_word();
    let f = filter.id;
    let m = filter.mask;
    match other {
        CanId::Standard(x) => {
            let p = pattern % 0x800;
            assert(((w & m) == (f & m)) == ((x & mask) == (p & mask))) by (bit_vector)
                requires
                    w == x,
                    x < 0x800,
                    p < 0x800,
                    f == p,
                    m == mask % 0x800 + 0x8000_0000,
            ;
        },
        CanId::Extended(x) => {
            assert(w & m != f & m) by (bit_vector)
                requires
                    w >= 0x8000_0000,
                    m >= 0x8000_0000,
                    f < 0x800,
            ;
        },
    }
}

/// An empty set of filters lets nothing through.
pub proof fn law_no_filters_deliver_nothing(can_id: u32)
    ensures
        !delivered(Seq::<CanFilter>::empty(), can_id),
{
}

// ---------------------------------------------------------------------------
// Options

/// Timestamp source to request from the kernel.
#[derive(Clone, Copy, Debug, PartialEq, Eq, Structural)]
pub enum Timestamping {
    /// Best available: `SO_TIMESTAMPING` with hardware preferred, software
    /// otherwise, then `SO_TIMESTAMPNS` if that was not granted.
    BestAvailable,
    /// Force `SO_TIMESTAMPNS` (kernel software, nanosecond resolution).
    Software,
    /// Don't request kernel timestamps; the caller's clock is used.
    Off,
}

impl Default for Timestamping {
    fn default() -> (t: Self)
        ensures
            t == Timestamping::BestAvailable,
    {
        Timestamping::BestAvailable
    }
}

/// Configuration for [`open`].
#[derive(Clone, Debug)]
pub struct OpenOpts {
    /// Enable `CAN_RAW_FD_FRAMES` so CAN-FD traffic is delivered. Non-fatal
    /// if the controller doesn't support FD: the socket falls back to
    /// classic-only delivery.
    pub fd: bool,
    /// `SO_RCVBUF` in bytes. `None` leaves the kernel default.
    pub recv_buf_bytes: Option<usize>,
    /// `SO_SNDBUF` in bytes. `None` leaves the kernel default.
    pub send_buf_bytes: Option<usize>,
    /// Kernel timestamp source.
    pub timestamping: Timestamping,
    /// `SO_RCVTIMEO`. A small value lets a read loop poll a stop flag without
    /// blocking forever.
    pub recv_timeout: Option<TimeSpan>,
    /// `CAN_RAW_FILTER` entries. When `Some` (even if empty), the kernel
    /// receive filter is overridden: only frames matching one of these
    /// patterns are delivered. When `None` the kernel default applies (all
    /// frames matching the bound interface).
    ///
    /// An empty `Some(vec![])` is the same as `clear_filter`: no frames at
    /// all (useful for an error-only socket).
    pub filter: Option<Vec<CanFilter>>,
    /// Mask passed to `CAN_RAW_ERR_FILTER`. When set, error frames matching
    /// these classes are delivered alongside data frames as
    /// [`DecodedFrame::Error`] (only visible via [`recv_decoded`]).
    pub error_filter: Option<u32>,
    /// Clear the default RX filter so no classic frames are delivered. Useful
    /// for an error-only monitor socket. Equivalent to `filter: Some(vec![])`.
    pub clear_filter: bool,
    /// Set `O_NONBLOCK` on the socket.
    pub nonblocking: bool,
}

impl OpenOpts {
    /// Whether the timeout is a proper span of time.
    pub open spec fn wf(&self) -> bool {
        self.recv_timeout matches Some(t) ==> t.wf()
    }

    /// The filters that replace the kernel's own, if any.
    pub open spec fn filters(&self) -> Option<Seq<CanFilter>> {
        match self.filter {
            Some(f) => Some(f@),
            None => if self.clear_filter {
                Some(Seq::<CanFilter>::empty())
            } else {
                None
            },
        }
    }
}

impl Default for OpenOpts {
    fn default() -> (o: Self)
        ensures
            o.wf(),
            o.fd,
            o.recv_buf_bytes == Some(8388608usize),
            o.send_buf_bytes == Some(1048576usize),
            o.timestamping == Timestamping::BestAvailable,
            o.recv_timeout matches Some(t) && t.nanos() == 500_000_000,
            o.filter is None,
            o.error_filter is None,
            !o.clear_filter,
            !o.nonblocking,
    {
        OpenOpts {
            fd: true,
            recv_buf_bytes: Some(8 * 1024 * 1024),
            send_buf_bytes: Some(1024 * 1024),
            timestamping: Timestamping::BestAvailable,
            recv_timeout: Some(TimeSpan::from_millis(500)),
            filter: None,
            error_filter: None,
            clear_filter: false,
            nonblocking: false,
        }
    }
}

// ---------------------------------------------------------------------------
// Errors

/// Why a socket operation failed.
#[derive(Clone, Copy, Debug, PartialEq, Eq, Structural)]
pub enum SocketError {
    /// The interface name is empty or too long for the kernel.
    NameLength,
    /// Less was written than the frame takes.
    ShortWrite,
    /// The system refused, with this error number.
    Os { errno: i32 },
}

impl SocketError {
    /// The category of the error; `None` where the error number says it.
    pub open spec fn category(self) -> Option<ErrorKind> {
        match self {
            SocketError::NameLength => Some(ErrorKind::InvalidInput),
            SocketError::ShortWrite => Some(ErrorKind::WriteZero),
            SocketError::Os { .. } => None,
        }
    }

    /// What [`SocketError::message`] says.
    pub open spec fn text(self) -> Seq<char> {
        match self {
            SocketError::NameLength => "interface name has invalid length"@,
            SocketError::ShortWrite => "short CAN frame write"@,
            SocketError::Os { .. } => ""@,
        }
    }

    /// The category of the error; `None` where the error number says it.
    pub fn kind(self) -> (k: Option<ErrorKind>)
        ensures
            k == self.category(),
    {
        match self {
            SocketError::NameLength => Some(ErrorKind::InvalidInput),
            SocketError::ShortWrite => Some(ErrorKind::WriteZero),
            SocketError::Os { .. } => None,
        }
    }

    /// The error as a sentence; empty where the error number says it all.
    pub fn message(self) -> (s: &'static str)
        ensures
            s@ == self.text(),
    {
        match self {
            SocketError::NameLength => "interface name has invalid length",
            SocketError::ShortWrite => "short CAN frame write",
            SocketError::Os { .. } => "",
        }
    }
}

// ---------------------------------------------------------------------------
// Opening

/// One thing to be done with the kernel while a socket is opened.
#[derive(Clone, Copy, Debug, PartialEq, Eq, Structural)]
pub enum Stage {
    /// Create a raw CAN socket.
    Create,
    /// Look up the index of the interface.
    Resolve,
    /// Enable `CAN_RAW_FD_FRAMES`.
    FdFrames,
    /// Set `CAN_RAW_FILTER` to the filters of the opening.
    Filter,
    /// Set `CAN_RAW_ERR_FILTER` to this mask.
    ErrorFilter(u32),
    /// Set `SO_RCVBUF` to this number.
    RecvBuffer(i32),
    /// Set `SO_SNDBUF` to this number.
    SendBuffer(i32),
    /// Set `SO_TIMESTAMPING` to these flags.
    Timestamping(u32),
    /// Enable `SO_TIMESTAMPNS`.
    TimestampNs,
    /// Set `SO_RCVTIMEO`.
    RecvTimeout { secs: i64, micros: u32 },
    /// Set `O_NONBLOCK`.
    Nonblocking,
    /// Bind the socket to the interface.
    Bind,
}

/// The flags for `SO_TIMESTAMPING`: times taken on reception by the hardware (4)
/// and by the kernel (8), reported by the kernel (16) and raw from the hardware
/// (64).
pub const BEST_TIMESTAMPS: u32 = 92;

impl Stage {
    /// Whether the socket is of no use where the kernel refuses this. Otherwise
    /// the opening goes on without.
    pub open spec fn is_fatal(self) -> bool {
        match self {
            Stage::Create => true,
            Stage::Resolve => true,
            Stage::Filter => true,
            Stage::ErrorFilter(_) => true,
            Stage::Bind => true,
            _ => false,
        }
    }
}

/// One stage or none.
pub open spec fn optional(wanted: bool, stage: Stage) -> Seq<Stage> {
    if wanted {
        seq![stage]
    } else {
        Seq::<Stage>::empty()
    }
}

impl OpenOpts {
    /// The stage for the error classes.
    pub open spec fn error_filter_stages(&self) -> Seq<Stage> {
        match self.error_filter {
            Some(mask) => seq![Stage::ErrorFilter(mask)],
            None => Seq::<Stage>::empty(),
        }
    }

    /// The stage for the receive buffer.
    pub open spec fn recv_buffer_stages(&self) -> Seq<Stage> {
        match self.recv_buf_bytes {
            Some(n) => seq![Stage::RecvBuffer(bytes::i32_wrapped(n))],
            None => Seq::<Stage>::empty(),
        }
    }

    /// The stage for the send buffer.
    pub open spec fn send_buffer_stages(&self) -> Seq<Stage> {
        match self.send_buf_bytes {
            Some(n) => seq![Stage::SendBuffer(bytes::i32_wrapped(n))],
            None => Seq::<Stage>::empty(),
        }
    }

    /// The stage for the timestamps.
    pub open spec fn timestamp_stages(&self) -> Seq<Stage> {
        match self.timestamping {
            Timestamping::BestAvailable => seq![Stage::Timestamping(BEST_TIMESTAMPS)],
            Timestamping::Software => seq![Stage::TimestampNs],
            Timestamping::Off => Seq::<Stage>::empty(),
        }
    }

    /// The stage for the receive timeout: whole seconds and microseconds.
    pub open spec fn timeout_stages(&self) -> Seq<Stage> {
        match self.recv_timeout {
            Some(t) => seq![
                Stage::RecvTimeout {
                    secs: bytes::i64_wrapped((t.nanos() / 1_000_000_000) as u64),
                    micros: (t.nanos() % 1_000_000_000 / 1000) as u32,
                },
            ],
            None => Seq::<Stage>::empty(),
        }
    }

    /// The stages of an opening, in order.
    pub open spec fn stages(&self) -> Seq<Stage> {
        seq![Stage::Create, Stage::Resolve] + optional(self.fd, Stage::FdFrames) + optional(
            self.filters() is Some,
            Stage::Filter,
        ) + self.error_filter_stages() + self.recv_buffer_stages() + self.send_buffer_stages()
            + self.timestamp_stages() + self.timeout_stages() + optional(
            self.nonblocking,
            Stage::Nonblocking,
        ) + seq![Stage::Bind]
    }
}

/// An opening: what is left to do, and what came of it so far.
#[verifier::ext_equal]
pub struct OpeningView {
    /// The name of the interface as the kernel takes it: 16 bytes, with zeros
    /// behind the name.
    pub name: Seq<u8>,
    /// The filters to be set.
    pub filters: Seq<CanFilter>,
    /// The stages that are left.
    pub todo: Seq<Stage>,
    /// Whether CAN-FD frames are delivered.
    pub fd_rx_enabled: bool,
    /// The error number that ended the opening, if one did.
    pub failure: Option<i32>,
}

/// How an opening ended.
#[derive(Clone, Copy, Debug, PartialEq, Eq, Structural)]
pub struct Opened {
    /// Whether `CAN_RAW_FD_FRAMES` is enabled on the socket.
    ///
    /// This only describes the receive path. It says nothing about whether the
    /// controller can transmit CAN-FD frames: the honest test for that is to
    /// send a small FD frame and inspect the result.
    pub fd_rx_enabled: bool,
}

/// The name field of the kernel's request: the bytes of the name, then zeros.
pub open spec fn name_field(name: Seq<char>) -> Seq<u8> {
    let b = vstd::utf8::encode_utf8(name);
    b + frame::zero_bytes((16 - b.len()) as nat)
}

/// Whether the kernel can take the name: it is not empty and leaves room for a
/// terminating NUL.
pub open spec fn name_fits(name: Seq<char>) -> bool {
    0 < vstd::utf8::encode_utf8(name).len() < IFNAMSIZ
}

impl OpeningView {
    /// An opening that has not begun.
    pub open spec fn start(name: Seq<char>, opts: &OpenOpts) -> OpeningView {
        OpeningView {
            name: name_field(name),
            filters: match opts.filters() {
                Some(f) => f,
                None => Seq::<CanFilter>::empty(),
            },
            todo: opts.stages(),
            fd_rx_enabled: false,
            failure: None,
        }
    }

    /// The opening after the kernel granted the next stage.
    pub open spec fn after_success(self) -> OpeningView {
        if self.todo.len() == 0 {
            self
        } else {
            OpeningView {
                todo: self.todo.skip(1),
                fd_rx_enabled: self.fd_rx_enabled || self.todo[0] is FdFrames,
                ..self
            }
        }
    }

    /// The opening after the kernel refused the next stage.
    pub open spec fn after_failure(self, errno: i32) -> OpeningView {
        if self.todo.len() == 0 {
            self
        } else if self.todo[0].is_fatal() {
            OpeningView { todo: Seq::<Stage>::empty(), failure: Some(errno), ..self }
        } else if self.todo[0] is Timestamping {
            OpeningView { todo: seq![Stage::TimestampNs] + self.todo.skip(1), ..self }
        } else {
            OpeningView { todo: self.todo.skip(1), ..self }
        }
    }

    /// The next stage; `None` once the opening has ended.
    pub open spec fn stage(self) -> Option<Stage> {
        if self.todo.len() == 0 {
            None
        } else {
            Some(self.todo[0])
        }
    }

    /// How an opening without further stages ended.
    pub open spec fn result(self) -> Result<Opened, SocketError> {
        match self.failure {
            Some(errno) => Err(SocketError::Os { errno }),
            None => Ok(Opened { fd_rx_enabled: self.fd_rx_enabled }),
        }
    }
}

/// A socket that is being opened.
#[derive(Debug)]
pub struct Opening {
    name: [u8; 16],
    filters: Vec<CanFilter>,
    todo: Vec<Stage>,
    fd_rx_enabled: bool,
    failure: Option<i32>,
}

impl View for Opening {
    type V = OpeningView;

    closed spec fn view(&self) -> OpeningView {
        OpeningView {
            name: self.name@,
            filters: self.filters@,
            todo: self.todo@,
            fd_rx_enabled: self.fd_rx_enabled,
            failure: self.failure,
        }
    }
}

fn push_stage(v: &mut Vec<Stage>, wanted: bool, stage: Stage)
    ensures
        final(v)@ == old(v)@ + optional(wanted, stage),
{
    if wanted {
        v.push(stage);
    }
    assert(v@ =~= old(v)@ + optional(wanted, stage));
}

fn push_buffer_stages(v: &mut Vec<Stage>, opts: &OpenOpts)
    ensures
        final(v)@ == old(v)@ + opts.error_filter_stages() + opts.recv_buffer_stages()
            + opts.send_buffer_stages(),
{
    if let Some(mask) = opts.error_filter {
        v.push(Stage::ErrorFilter(mask));
    }
    let ghost s1 = old(v)@ + opts.error_filter_stages();
    assert(v@ =~= s1);
    if let Some(n) = opts.recv_buf_bytes {
        v.push(Stage::RecvBuffer(low_i32(n)));
    }
    let ghost s2 = s1 + opts.recv_buffer_stages();
    assert(v@ =~= s2);
    if let Some(n) = opts.send_buf_bytes {
        v.push(Stage::SendBuffer(low_i32(n)));
    }
    assert(v@ =~= s2 + opts.send_buffer_stages());
}

fn push_time_stages(v: &mut Vec<Stage>, opts: &OpenOpts)
    requires
        opts.wf(),
    ensures
        final(v)@ == old(v)@ + opts.timestamp_stages() + opts.timeout_stages(),
{
    match opts.timestamping {
        Timestamping::BestAvailable => {
            proof {
                assert(4u32 | 8u32 | 16u32 | 64u32 == 92u32) by (bit_vector);
            }
            v.push(
                Stage::Timestamping(
                    SOF_TIMESTAMPING_RX_HARDWARE | SOF_TIMESTAMPING_RX_SOFTWARE
                        | SOF_TIMESTAMPING_SOFTWARE | SOF_TIMESTAMPING_RAW_HARDWARE,
                ),
            );
        },
        Timestamping::Software => v.push(Stage::TimestampNs),
        Timestamping::Off => {},
    }
    let ghost s1 = old(v)@ + opts.timestamp_stages();
    assert(v@ =~= s1);
    if let Some(t) = opts.recv_timeout {
        v.push(Stage::RecvTimeout { secs: low_i64(t.as_secs()), micros: t.subsec_micros() });
    }
    assert(v@ =~= s1 + opts.timeout_stages());
}

fn stages_of(opts: &OpenOpts) -> (v: Vec<Stage>)
    requires
        opts.wf(),
    ensures
        v@ == opts.stages(),
{
    let mut v: Vec<Stage> = Vec::new();
    v.push(Stage::Create);
    v.push(Stage::Resolve);
    assert(v@ =~= seq![Stage::Create, Stage::Resolve]);
    push_stage(&mut v, opts.fd, Stage::FdFrames);
    push_stage(&mut v, opts.filter.is_some() || opts.clear_filter, Stage::Filter);
    push_buffer_stages(&mut v, opts);
    push_time_stages(&mut v, opts);
    push_stage(&mut v, opts.nonblocking, Stage::Nonblocking);
    push_stage(&mut v, true, Stage::Bind);
    v
}

/// Opens and binds a `CAN_RAW` socket on `iface`, stage by stage.
///
/// An interface name that is empty, or of more than 15 bytes, is refused right
/// away.
pub fn open(iface: &str, opts: &OpenOpts) -> (r: Result<Opening, SocketError>)
    requires
        opts.wf(),
    ensures
        match r {
            Ok(o) => name_fits(iface@) && o@ == OpeningView::start(iface@, opts),
            Err(e) => !name_fits(iface@) && e == SocketError::NameLength,
        },
{
    let b = iface.as_bytes();
    if b.len() == 0 || b.len() >= IFNAMSIZ {
        return Err(SocketError::NameLength);
    }
    let mut name = [0u8; 16];
    for i in 0..b.len()
        invariant
            b@.len() < 16,
            name@ == b@.take(i as int) + frame::zero_bytes((16 - i) as nat),
    {
        name[i] = b[i];
        assert(name@ =~= b@.take(i + 1) + frame::zero_bytes((16 - (i + 1)) as nat));
    }
    assert(b@.take(b@.len() as int) =~= b@);
    let mut filters: Vec<CanFilter> = Vec::new();
    if let Some(f) = &opts.filter {
        for i in 0..f.len()
            invariant
                filters@ == f@.take(i as int),
        {
            filters.push(f[i]);
            assert(filters@ =~= f@.take(i + 1));
        }
        assert(f@.take(f@.len() as int) =~= f@);
    }
    Ok(Opening { name, filters, todo: stages_of(opts), fd_rx_enabled: false, failure: None })
}

impl Opening {
    /// What is to be done next; `None` once the opening has ended.
    pub fn stage(&self) -> (s: Option<Stage>)
        ensures
            s == self@.stage(),
    {
        if self.todo.len() == 0 {
            None
        } else {
            Some(self.todo[0])
        }
    }

    /// The name of the interface as the kernel takes it.
    pub fn name(&self) -> (n: &[u8])
        ensures
            n@ == self@.name,
    {
        self.name.as_slice()
    }

    /// The filters to be set.
    pub fn filters(&self) -> (f: &[CanFilter])
        ensures
            f@ == self@.filters,
    {
        self.filters.as_slice()
    }

    /// The kernel granted the next stage.
    pub fn granted(&mut self)
        ensures
            final(self)@ == old(self)@.after_success(),
    {
        if self.todo.len() == 0 {
            return;
        }
        let stage = self.todo.remove(0);
        assert(self.todo@ =~= old(self)@.todo.skip(1));
        if matches!(stage, Stage::FdFrames) {
            self.fd_rx_enabled = true;
        }
    }

    /// The kernel refused the next stage.
    pub fn refused(&mut self, errno: i32)
        ensures
            final(self)@ == old(self)@.after_failure(errno),
    {
        if self.todo.len() == 0 {
            return;
        }
        let stage = self.todo.remove(0);
        assert(self.todo@ =~= old(self)@.todo.skip(1));
        match stage {
            Stage::Create | Stage::Resolve | Stage::Filter | Stage::ErrorFilter(_) | Stage::Bind => {
                self.todo = Vec::new();
                self.failure = Some(errno);
            },
            Stage::Timestamping(_) => {
                self.todo.insert(0, Stage::TimestampNs);
                assert(self.todo@ =~= seq![Stage::TimestampNs] + old(self)@.todo.skip(1));
            },
            _ => {},
        }
    }

    /// How the opening ended. Stages that are left do not count.
    pub fn result(&self) -> (r: Result<Opened, SocketError>)
        ensures
            r == self@.result(),
    {
        match self.failure {
            Some(errno) => Err(SocketError::Os { errno }),
            None => Ok(Opened { fd_rx_enabled: self.fd_rx_enabled }),
        }
    }
}

/// The kernel's answer to a stage: granted, or refused with an error number.
pub type Answer = Result<(), i32>;

/// An opening after a run of answers.
pub open spec fn after_answers(v: OpeningView, answers: Seq<Answer>) -> OpeningView
    decreases answers.len(),
{
    if answers.len() == 0 {
        v
    } else {
        let next = match answers[0] {
            Ok(()) => v.after_success(),
            Err(errno) => v.after_failure(errno),
        };
        after_answers(next, answers.skip(1))
    }
}

/// The error number of the first refusal, among the answers, of a stage that the
/// socket cannot do without.
pub open spec fn fatal_refusal(v: OpeningView, answers: Seq<Answer>) -> Option<i32>
    decreases answers.len(),
{
    if answers.len() == 0 || v.todo.len() == 0 {
        None
    } else {
        match answers[0] {
            Ok(()) => fatal_refusal(v.after_success(), answers.skip(1)),
            Err(errno) => if v.todo[0].is_fatal() {
                Some(errno)
            } else {
                fatal_refusal(v.after_failure(errno), answers.skip(1))
            },
        }
    }
}

/// An opening that has ended takes no notice of further answers.
pub proof fn law_ended_opening_stays(v: OpeningView, answers: Seq<Answer>)
    requires
        v.todo.len() == 0,
    ensures
        after_answers(v, answers) == v,
    decreases answers.len(),
{
    if answers.len() > 0 {
        law_ended_opening_stays(v, answers.skip(1));
    }
}

/// An opening fails just where a stage is refused that the socket cannot do
/// without, and with the error number of that refusal. A refusal of anything
/// else (CAN-FD, buffer sizes, timestamps, timeout, non-blocking mode) never
/// fails it.
pub proof fn law_only_fatal_refusals_fail(v: OpeningView, answers: Seq<Answer>)
    requires
        v.failure is None,
    ensures
        after_answers(v, answers).failure == fatal_refusal(v, answers),
    decreases answers.len(),
{
    if answers.len() > 0 {
        if v.todo.len() == 0 {
            law_ended_opening_stays(v, answers);
        } else {
            match answers[0] {
                Ok(()) => law_only_fatal_refusals_fail(v.after_success(), answers.skip(1)),
                Err(errno) => {
                    if v.todo[0].is_fatal() {
                        law_ended_opening_stays(v.after_failure(errno), answers.skip(1));
                    } else {
                        law_only_fatal_refusals_fail(v.after_failure(errno), answers.skip(1));
                    }
                },
            }
        }
    }
}

/// How many answers an opening can still take: one for each stage, and one more
/// for the stage that has a second best.
pub open spec fn answers_left(todo: Seq<Stage>) -> nat
    decreases todo.len(),
{
    if todo.len() == 0 {
        0
    } else {
        (if todo[0] is Timestamping {
            2
        } else {
            1nat
        }) + answers_left(todo.skip(1))
    }
}

/// Every answer brings an opening nearer to its end.
pub proof fn law_opening_ends(v: OpeningView, errno: i32)
    requires
        v.todo.len() > 0,
    ensures
        answers_left(v.after_success().todo) < answers_left(v.todo),
        answers_left(v.after_failure(errno).todo) < answers_left(v.todo),
{
    if !v.todo[0].is_fatal() && v.todo[0] is Timestamping {
        assert(v.after_failure(errno).todo.skip(1) =~= v.todo.skip(1));
    }
}

/// Where the best timestamps are refused, software timestamps are asked for
/// next.
pub proof fn law_timestamps_fall_back(v: OpeningView, errno: i32)
    requires
        v.todo.len() > 0,
        v.todo[0] is Timestamping,
    ensures
        v.after_failure(errno).stage() == Some(Stage::TimestampNs),
        v.after_failure(errno).failure == v.failure,
{
}

/// Clearing the filter is the same as setting an empty one.
pub proof fn law_clear_filter_is_empty_filter(name: Seq<char>, cleared: &OpenOpts, empty: &OpenOpts)
    requires
        cleared.filter is None,
        cleared.clear_filter,
        empty.filter matches Some(f) && f@.len() == 0,
        cleared.fd == empty.fd,
        cleared.recv_buf_bytes == empty.recv_buf_bytes,
        cleared.send_buf_bytes == empty.send_buf_bytes,
        cleared.timestamping == empty.timestamping,
        cleared.recv_timeout == empty.recv_timeout,
        cleared.error_filter == empty.error_filter,
        cleared.nonblocking == empty.nonblocking,
    ensures
        OpeningView::start(name, cleared) == OpeningView::start(name, empty),
{
    assert(OpeningView::start(name, cleared).filters =~= OpeningView::start(name, empty).filters);
}

/// An opening after its next `n` stages were granted.
pub open spec fn after_grants(v: OpeningView, n: nat) -> OpeningView
    decreases n,
{
    if n == 0 {
        v
    } else {
        after_grants(v.after_success(), (n - 1) as nat)
    }
}

/// Whether CAN-FD is among the stages.
pub open spec fn has_fd(s: Seq<Stage>) -> bool {
    s.contains(Stage::FdFrames)
}

proof fn lemma_has_fd_concat(a: Seq<Stage>, b: Seq<Stage>)
    ensures
        has_fd(a + b) == (has_fd(a) || has_fd(b)),
{
    if has_fd(a) {
        let i = choose|i: int| 0 <= i < a.len() && a[i] == Stage::FdFrames;
        assert((a + b)[i] == Stage::FdFrames);
    }
    if has_fd(b) {
        let i = choose|i: int| 0 <= i < b.len() && b[i] == Stage::FdFrames;
        assert((a + b)[a.len() + i] == Stage::FdFrames);
    }
}

proof fn lemma_stages_have_fd(opts: &OpenOpts)
    ensures
        has_fd(opts.stages()) == opts.fd,
{
    let s0 = seq![Stage::Create, Stage::Resolve];
    let p1 = optional(opts.fd, Stage::FdFrames);
    let p2 = optional(opts.filters() is Some, Stage::Filter);
    let p3 = opts.error_filter_stages();
    let p4 = opts.recv_buffer_stages();
    let p5 = opts.send_buffer_stages();
    let p6 = opts.timestamp_stages();
    let p7 = opts.timeout_stages();
    let p8 = optional(opts.nonblocking, Stage::Nonblocking);
    let p9 = seq![Stage::Bind];
    lemma_has_fd_concat(s0, p1);
    lemma_has_fd_concat(s0 + p1, p2);
    lemma_has_fd_concat(s0 + p1 + p2, p3);
    lemma_has_fd_concat(s0 + p1 + p2 + p3, p4);
    lemma_has_fd_concat(s0 + p1 + p2 + p3 + p4, p5);
    lemma_has_fd_concat(s0 + p1 + p2 + p3 + p4 + p5, p6);
    lemma_has_fd_concat(s0 + p1 + p2 + p3 + p4 + p5 + p6, p7);
    lemma_has_fd_concat(s0 + p1 + p2 + p3 + p4 + p5 + p6 + p7, p8);
    lemma_has_fd_concat(s0 + p1 + p2 + p3 + p4 + p5 + p6 + p7 + p8, p9);
    if opts.fd {
        assert(p1[0] == Stage::FdFrames);
    }
}

proof fn lemma_grants(v: OpeningView)
    ensures
        after_grants(v, v.todo.len()).todo.len() == 0,
        after_grants(v, v.todo.len()).failure == v.failure,
        after_grants(v, v.todo.len()).fd_rx_enabled == (v.fd_rx_enabled || has_fd(v.todo)),
    decreases v.todo.len(),
{
    if v.todo.len() > 0 {
        let first = seq![v.todo[0]];
        assert(v.todo =~= first + v.todo.skip(1));
        lemma_has_fd_concat(first, v.todo.skip(1));
        if v.todo[0] is FdFrames {
            assert(first[0] == Stage::FdFrames);
        }
        lemma_grants(v.after_success());
    }
}

/// An opening all of whose stages are granted succeeds, and delivers CAN-FD
/// frames just where that was asked for.
pub proof fn law_granted_opening_succeeds(name: Seq<char>, opts: &OpenOpts)
    ensures
        ({
            let end = after_grants(OpeningView::start(name, opts), opts.stages().len());
            &&& end.stage() is None
            &&& end.result() == Ok::<Opened, SocketError>(Opened { fd_rx_enabled: opts.fd })
        }),
{
    lemma_grants(OpeningView::start(name, opts));
    lemma_stages_have_fd(opts);
}

// ---------------------------------------------------------------------------
// Timestamps

/// A time as the kernel hands it over.
#[derive(Clone, Copy, Debug, PartialEq, Eq, Structural)]
pub struct TimeSpec {
    /// Seconds.
    pub sec: i64,
    /// Nanoseconds.
    pub nsec: i64,
}

impl TimeSpec {
    /// Whether there is a time at all.
    pub open spec fn is_set(self) -> bool {
        self.sec != 0 || self.nsec != 0
    }

    /// The time in nanoseconds, in as many of the low bits as a `u64` has.
    pub open spec fn nanos(self) -> int {
        (bytes::u64_wrapped(self.sec) * 1_000_000_000 + bytes::u64_wrapped(self.nsec))
            % 0x1_0000_0000_0000_0000
    }

    /// Whether there is a time at all.
    pub fn set(self) -> (r: bool)
        ensures
            r == self.is_set(),
    {
        self.sec != 0 || self.nsec != 0
    }

    /// The time in nanoseconds. It wraps around where it does not fit 64 bits.
    pub fn to_ns(self) -> (ns: u64)
        ensures
            ns == self.nanos(),
    {
        let sec = as_unsigned(self.sec) as u128;
        let nsec = as_unsigned(self.nsec) as u128;
        ((sec * 1_000_000_000 + nsec) % 0x1_0000_0000_0000_0000) as u64
    }
}

/// A control message that came with a frame.
#[derive(Clone, Copy, Debug, PartialEq, Eq, Structural)]
pub enum ControlMessage {
    /// `SO_TIMESTAMPING`: the time of the kernel and that of the hardware.
    Timestamping { software: TimeSpec, hardware: TimeSpec },
    /// `SO_TIMESTAMPNS`: the time of the kernel.
    TimestampNs(TimeSpec),
    /// Anything else.
    Other,
}

/// The numbers by which the system knows the control messages that hold times.
#[derive(Clone, Copy, Debug, PartialEq, Eq, Structural)]
pub struct ControlNumbers {
    /// `SOL_SOCKET`, the level of both.
    pub socket_level: i32,
    /// `SO_TIMESTAMPING`.
    pub timestamping: i32,
    /// `SO_TIMESTAMPNS`.
    pub timestamp_ns: i32,
}

/// A control message, by its level, its type and the times that it holds. Of the
/// three times in `SO_TIMESTAMPING` the first is that of the kernel and the last
/// that of the hardware.
pub open spec fn control_message(
    numbers: ControlNumbers,
    level: i32,
    kind: i32,
    times: Seq<TimeSpec>,
) -> ControlMessage {
    if level != numbers.socket_level {
        ControlMessage::Other
    } else if kind == numbers.timestamping && times.len() >= 3 {
        ControlMessage::Timestamping { software: times[0], hardware: times[2] }
    } else if kind == numbers.timestamp_ns && kind != numbers.timestamping && times.len() >= 1 {
        ControlMessage::TimestampNs(times[0])
    } else {
        ControlMessage::Other
    }
}

impl ControlMessage {
    /// Reads a control message.
    pub fn read(numbers: ControlNumbers, level: i32, kind: i32, times: &[TimeSpec]) -> (m: Self)
        ensures
            m == control_message(numbers, level, kind, times@),
    {
        if level != numbers.socket_level {
            return ControlMessage::Other;
        }
        if kind == numbers.timestamping {
            if times.len() >= 3 {
                ControlMessage::Timestamping { software: times[0], hardware: times[2] }
            } else {
                ControlMessage::Other
            }
        } else if kind == numbers.timestamp_ns && times.len() >= 1 {
            ControlMessage::TimestampNs(times[0])
        } else {
            ControlMessage::Other
        }
    }
}

/// The first hardware time.
pub open spec fn first_hardware(msgs: Seq<ControlMessage>) -> Option<TimeSpec>
    decreases msgs.len(),
{
    if msgs.len() == 0 {
        None
    } else {
        match msgs[0] {
            ControlMessage::Timestamping { hardware, .. } if hardware.is_set() => Some(hardware),
            _ => first_hardware(msgs.skip(1)),
        }
    }
}

/// The last time of the kernel in a `SO_TIMESTAMPING` message.
pub open spec fn last_software(msgs: Seq<ControlMessage>) -> Option<TimeSpec>
    decreases msgs.len(),
{
    if msgs.len() == 0 {
        None
    } else {
        match msgs.last() {
            ControlMessage::Timestamping { software, .. } if software.is_set() => Some(software),
            _ => last_software(msgs.drop_last()),
        }
    }
}

/// The first `SO_TIMESTAMPNS` time.
pub open spec fn first_plain(msgs: Seq<ControlMessage>) -> Option<TimeSpec>
    decreases msgs.len(),
{
    if msgs.len() == 0 {
        None
    } else {
        match msgs[0] {
            ControlMessage::TimestampNs(t) => Some(t),
            _ => first_plain(msgs.skip(1)),
        }
    }
}

/// The best time that came with a frame: that of the hardware, else that of the
/// kernel from `SO_TIMESTAMPING`, else that from `SO_TIMESTAMPNS`.
pub open spec fn best_time(msgs: Seq<ControlMessage>) -> Option<TimeSpec> {
    if first_hardware(msgs) is Some {
        first_hardware(msgs)
    } else if last_software(msgs) is Some {
        last_software(msgs)
    } else {
        first_plain(msgs)
    }
}

proof fn lemma_first_hardware_from(msgs: Seq<ControlMessage>, i: int)
    requires
        0 <= i <= msgs.len(),
        forall|j: int| 0 <= j < i ==> first_hardware(seq![#[trigger] msgs[j]]) is None,
    ensures
        first_hardware(msgs) == first_hardware(msgs.skip(i)),
    decreases i,
{
    if i == 0 {
        assert(msgs.skip(0) =~= msgs);
    } else {
        lemma_first_hardware_from(msgs, i - 1);
        let rest = msgs.skip(i - 1);
        assert(rest[0] == msgs[i - 1]);
        assert(first_hardware(seq![msgs[i - 1]]) is None);
        assert(rest.skip(1) =~= msgs.skip(i));
    }
}

proof fn lemma_first_plain_push(msgs: Seq<ControlMessage>, m: ControlMessage)
    ensures
        first_plain(msgs.push(m)) == match first_plain(msgs) {
            Some(t) => Some(t),
            None => match m {
                ControlMessage::TimestampNs(t) => Some(t),
                _ => None,
            },
        },
    decreases msgs.len(),
{
    if msgs.len() == 0 {
        assert(msgs.push(m).skip(1).len() == 0);
        assert(first_plain(msgs.push(m).skip(1)) is None);
    } else {
        assert(msgs.push(m).skip(1) =~= msgs.skip(1).push(m));
        lemma_first_plain_push(msgs.skip(1), m);
    }
}

/// Finds the best time among the control messages that came with a frame.
pub fn extract_timestamp(msgs: &[ControlMessage]) -> (r: Option<TimeSpec>)
    ensures
        r == best_time(msgs@),
{
    let mut software: Option<TimeSpec> = None;
    let mut plain: Option<TimeSpec> = None;
    assert(msgs@.take(0) =~= Seq::<ControlMessage>::empty());
    for i in 0..msgs.len()
        invariant
            software == last_software(msgs@.take(i as int)),
            plain == first_plain(msgs@.take(i as int)),
            forall|j: int| 0 <= j < i ==> first_hardware(seq![#[trigger] msgs@[j]]) is None,
    {
        proof {
            assert(msgs@.take(i + 1) =~= msgs@.take(i as int).push(msgs@[i as int]));
            assert(msgs@.take(i + 1).drop_last() =~= msgs@.take(i as int));
            lemma_first_plain_push(msgs@.take(i as int), msgs@[i as int]);
            lemma_first_hardware_from(msgs@, i as int);
            let one = seq![msgs@[i as int]];
            assert(one.skip(1).len() == 0);
            assert(first_hardware(one.skip(1)) is None);
            assert(msgs@.skip(i as int)[0] == msgs@[i as int]);
        }
        match msgs[i] {
            ControlMessage::Timestamping { software: sw, hardware: hw } => {
                if hw.set() {
                    return Some(hw);
                }
                if sw.set() {
                    software = Some(sw);
                }
            },
            ControlMessage::TimestampNs(t) => {
                if plain.is_none() {
                    plain = Some(t);
                }
            },
            ControlMessage::Other => {},
        }
    }
    proof {
        lemma_first_hardware_from(msgs@, msgs@.len() as int);
        assert(msgs@.take(msgs@.len() as int) =~= msgs@);
        assert(msgs@.skip(msgs@.len() as int).len() == 0);
    }
    if software.is_some() {
        software
    } else {
        plain
    }
}

/// A hardware time is preferred to any other.
pub proof fn law_hardware_time_is_preferred(msgs: Seq<ControlMessage>, at: int)
    requires
        0 <= at < msgs.len(),
        msgs[at] matches ControlMessage::Timestamping { hardware, .. } && hardware.is_set(),
    ensures
        best_time(msgs) == first_hardware(msgs),
        best_time(msgs) is Some,
    decreases at,
{
    if at > 0 {
        assert(msgs.skip(1)[at - 1] == msgs[at]);
        law_hardware_time_is_preferred(msgs.skip(1), at - 1);
    }
}

// ---------------------------------------------------------------------------
// Receiving

/// What one reception brought.
#[derive(Debug)]
pub struct Reception {
    /// The bytes of the frame.
    pub bytes: Vec<u8>,
    /// The control messages that came with it.
    pub control: Vec<ControlMessage>,
    /// The time of the caller's clock, in nanoseconds since the UNIX epoch.
    pub clock_ns: Option<u64>,
}

impl Reception {
    /// The timestamp of the frame: the kernel's, else the clock's.
    pub open spec fn timestamp(&self) -> Option<u64> {
        match best_time(self.control@) {
            Some(t) => Some(t.nanos() as u64),
            None => self.clock_ns,
        }
    }

    /// What was received; `None` where the bytes are too few for a frame.
    pub open spec fn frame(&self, order: ByteOrder) -> Option<DecodedView> {
        frame::decoded(order, self.bytes@, self.timestamp())
    }
}

/// Whether the error number means that there is nothing to receive this time:
/// the timeout expired, a non-blocking socket would block, or a signal came in.
pub open spec fn nothing_yet(errno: i32) -> bool {
    errno == EAGAIN || errno == EINTR
}

fn decode_reception(order: ByteOrder, received: &Reception) -> (r: Option<DecodedFrame>)
    ensures
        r is Some == (received.frame(order) is Some),
        r matches Some(d) ==> d.wf() && Some(d@) == received.frame(order),
{
    if received.bytes.len() < CAN_FRAME_SIZE {
        return None;
    }
    let timestamp_ns = match extract_timestamp(received.control.as_slice()) {
        Some(t) => Some(t.to_ns()),
        None => received.clock_ns,
    };
    decode_wire_in(order, received.bytes.as_slice(), timestamp_ns)
}

/// Receive a single frame and report it as a [`DecodedFrame`], so callers
/// can distinguish data, RTR, and error frames.
///
/// `received` is what the kernel handed over, or its error number. `None` where
/// there was nothing to receive, or too little for a frame.
pub fn recv_decoded(order: ByteOrder, received: Result<Reception, i32>) -> (r: Result<
    Option<DecodedFrame>,
    SocketError,
>)
    ensures
        match received {
            Ok(m) => {
                &&& r matches Ok(f) && f is Some == (m.frame(order) is Some)
                &&& r matches Ok(Some(d)) ==> d.wf() && Some(d@) == m.frame(order)
            },
            Err(errno) => if nothing_yet(errno) {
                r matches Ok(f) && f is None
            } else {
                r matches Err(e) && e == (SocketError::Os { errno })
            },
        },
{
    match received {
        Ok(m) => Ok(decode_reception(order, &m)),
        Err(errno) => {
            if errno == EAGAIN || errno == EINTR {
                Ok(None)
            } else {
                Err(SocketError::Os { errno })
            }
        },
    }
}

/// The data frame that was received, if it is one.
pub open spec fn data_frame(d: Option<DecodedView>) -> Option<FrameView> {
    match d {
        Some(DecodedView::Data(f)) => Some(f),
        _ => None,
    }
}

/// Receive a single data frame.
///
/// `None` where there was nothing to receive, or the kernel delivered a frame
/// the caller usually doesn't want (RTR, error frame). Use [`recv_decoded`] to
/// surface those.
pub fn recv(order: ByteOrder, received: Result<Reception, i32>) -> (r: Result<
    Option<Frame>,
    SocketError,
>)
    ensures
        match received {
            Ok(m) => {
                &&& r matches Ok(f) && f is Some == (data_frame(m.frame(order)) is Some)
                &&& r matches Ok(Some(f)) ==> f.wf() && f.zero_tail() && Some(f@) == data_frame(
                    m.frame(order),
                )
            },
            Err(errno) => if nothing_yet(errno) {
                r matches Ok(f) && f is None
            } else {
                r matches Err(e) && e == (SocketError::Os { errno })
            },
        },
{
    match recv_decoded(order, received) {
        Ok(Some(DecodedFrame::Data(frame))) => Ok(Some(frame)),
        Ok(_) => Ok(None),
        Err(e) => Err(e),
    }
}

/// How many frames go through the kernel at once, at most.
pub const MAX_BATCH: usize = 64;

/// How many frames to ask the kernel for, where there is room for `room`.
pub fn batch_size(room: usize) -> (n: usize)
    ensures
        n == if room < 64 {
            room
        } else {
            64
        },
{
    if room < MAX_BATCH {
        room
    } else {
        MAX_BATCH
    }
}

/// The data frames among what was received, in order.
pub open spec fn data_frames(order: ByteOrder, received: Seq<Reception>) -> Seq<FrameView>
    decreases received.len(),
{
    if received.len() == 0 {
        Seq::<FrameView>::empty()
    } else {
        let before = data_frames(order, received.drop_last());
        match data_frame(received.last().frame(order)) {
            Some(f) => before.push(f),
            None => before,
        }
    }
}

/// Receive up to `out.len()` frames at once, as many as [`batch_size`] says.
///
/// Gives the number of frames actually delivered, zero where there was nothing
/// to receive. RTR and error frames are **dropped** here (they have no good
/// place in a batch). Use [`recv_decoded`] in a loop if you need them.
pub fn recv_batch(order: ByteOrder, received: Result<Vec<Reception>, i32>, out: &mut [Frame])
    -> (r: Result<usize, SocketError>)
    requires
        received matches Ok(v) ==> v@.len() <= old(out)@.len(),
    ensures
        final(out)@.len() == old(out)@.len(),
        match received {
            Ok(v) => {
                &&& r matches Ok(n) && {
                    let frames = data_frames(order, v@);
                    &&& n == frames.len()
                    &&& forall|i: int| 0 <= i < n ==> #[trigger] final(out)@[i]@ == frames[i]
                    &&& forall|i: int|
                        0 <= i < n ==> (#[trigger] final(out)@[i]).wf()
                            && final(out)@[i].zero_tail()
                    &&& forall|i: int|
                        n <= i < old(out)@.len() ==> #[trigger] final(out)@[i] == old(out)@[i]
                }
            },
            Err(errno) => {
                &&& final(out)@ == old(out)@
                &&& if nothing_yet(errno) {
                    r matches Ok(n) && n == 0
                } else {
                    r matches Err(e) && e == (SocketError::Os { errno })
                }
            },
        },
{
    let v = match received {
        Ok(v) => v,
        Err(errno) => {
            if errno == EAGAIN || errno == EINTR {
                return Ok(0);
            }
            return Err(SocketError::Os { errno });
        },
    };
    let mut delivered: usize = 0;
    assert(v@.take(0) =~= Seq::<Reception>::empty());
    for i in 0..v.len()
        invariant
            v@.len() <= old(out)@.len(),
            out@.len() == old(out)@.len(),
            delivered <= i,
            delivered == data_frames(order, v@.take(i as int)).len(),
            forall|j: int|
                0 <= j < delivered ==> #[trigger] out@[j]@ == data_frames(
                    order,
                    v@.take(i as int),
                )[j],
            forall|j: int|
                0 <= j < delivered ==> (#[trigger] out@[j]).wf() && out@[j].zero_tail(),
            forall|j: int| delivered <= j < out@.len() ==> #[trigger] out@[j] == old(out)@[j],
    {
        proof {
            assert(v@.take(i + 1).drop_last() =~= v@.take(i as int));
            assert(v@.take(i + 1).last() == v@[i as int]);
        }
        if let Some(DecodedFrame::Data(frame)) = decode_reception(order, &v[i]) {
            out[delivered] = frame;
            delivered = delivered + 1;
        }
    }
    assert(v@.take(v@.len() as int) =~= v@);
    Ok(delivered)
}

// ---------------------------------------------------------------------------
// Sending

/// The bytes that go to the kernel for a frame: as many of the first bytes of
/// its wire structure as its kind takes.
pub open spec fn sent_bytes(order: ByteOrder, frame: FrameView) -> Seq<u8> {
    let whole = bytes::u32_bytes(order, frame.id.wire_word()) + seq![
        frame.payload.len() as u8,
        frame.kind.flags_byte(),
        0u8,
        0u8,
    ] + frame.payload + frame::zero_bytes((64 - frame.payload.len()) as nat);
    whole.take(frame::size_on_wire(frame.kind is Fd) as int)
}

/// The bytes to be written to the socket in order to send a single frame.
pub fn send(order: ByteOrder, frame: &Frame) -> (b: Vec<u8>)
    requires
        frame.wf(),
    ensures
        b@ == sent_bytes(order, frame@),
        b@.len() == frame::size_on_wire(frame.kind is Fd),
{
    let wire = WireFrame::from_frame(frame);
    let size = WireFrame::wire_size(frame.is_fd());
    let image = wire.to_bytes_in(order);
    let mut b: Vec<u8> = Vec::new();
    for i in 0..size
        invariant
            size <= 72,
            b@ == image@.take(i as int),
    {
        b.push(image[i]);
        assert(b@ =~= image@.take(i + 1));
    }
    proof {
        let f = frame@;
        let whole = bytes::u32_bytes(order, f.id.wire_word()) + seq![
            f.payload.len() as u8,
            f.kind.flags_byte(),
            0u8,
            0u8,
        ] + f.payload + frame::zero_bytes((64 - f.payload.len()) as nat);
        assert(image@ =~= whole);
    }
    b
}

/// What came of writing the bytes of a frame: `written` is the number of bytes
/// that the kernel took, or its error number. Errors are handed on as they are,
/// notably `ENOBUFS` (transmit queue full) and `ENETDOWN` (interface dropped).
pub fn sent(frame: &Frame, written: Result<usize, i32>) -> (r: Result<(), SocketError>)
    ensures
        r == match written {
            Err(errno) => Err::<(), SocketError>(SocketError::Os { errno }),
            Ok(n) => if n == frame::size_on_wire(frame.kind is Fd) {
                Ok(())
            } else {
                Err(SocketError::ShortWrite)
            },
        },
{
    match written {
        Err(errno) => Err(SocketError::Os { errno }),
        Ok(n) => {
            if n == WireFrame::wire_size(frame.is_fd()) {
                Ok(())
            } else {
                Err(SocketError::ShortWrite)
            }
        },
    }
}

/// The messages to be handed to the kernel in order to send frames at once: one
/// for each frame, up to as many as [`batch_size`] says. The kernel tells how
/// many of them it accepted.
pub fn send_batch(order: ByteOrder, frames: &[Frame]) -> (r: Vec<Vec<u8>>)
    requires
        forall|i: int| 0 <= i < frames@.len() ==> (#[trigger] frames@[i]).wf(),
    ensures
        r@.len() == if frames@.len() < 64 {
            frames@.len()
        } else {
            64
        },
        forall|i: int| 0 <= i < r@.len() ==> #[trigger] r@[i]@ == sent_bytes(order, frames@[i]@),
{
    let count = batch_size(frames.len());
    let mut r: Vec<Vec<u8>> = Vec::new();
    for i in 0..count
        invariant
            count <= frames@.len(),
            forall|j: int| 0 <= j < frames@.len() ==> (#[trigger] frames@[j]).wf(),
            r@.len() == i,
            forall|j: int| 0 <= j < i ==> #[trigger] r@[j]@ == sent_bytes(order, frames@[j]@),
    {
        r.push(send(order, &frames[i]));
    }
    r
}

/// For a frame whose payload fits its kind, the bytes that are sent are its
/// image on the wire.
pub proof fn law_sent_bytes_are_the_image(order: ByteOrder, frame: FrameView)
    requires
        frame.payload.len() <= frame.kind.max_payload(),
    ensures
        sent_bytes(order, frame) == frame::wire_image(order, frame),
{
    assert(sent_bytes(order, frame) =~= frame::wire_image(order, frame));
}

/// What is sent is received: a frame whose bytes reach a socket comes out of it
/// with the same identifier, kind and payload, and with the time at which it was
/// received.
pub proof fn law_sent_frame_is_received(order: ByteOrder, frame: FrameView, received: Reception)
    requires
        frame.valid(),
        received.bytes@ == sent_bytes(order, frame),
    ensures
        data_frame(received.frame(order)) == Some(
            FrameView { timestamp_ns: received.timestamp(), ..frame },
        ),
{
    law_sent_bytes_are_the_image(order, frame);
    frame::law_frame_round_trip(order, frame, received.timestamp());
}

/// Where the caller's clock can be read, every data frame that is received has a
/// timestamp.
pub proof fn law_received_frames_are_stamped(order: ByteOrder, received: Reception)
    requires
        received.clock_ns is Some,
    ensures
        data_frame(received.frame(order)) matches Some(f) ==> f.timestamp_ns is Some,
{
}

/// A batch that is sent is received: where the bytes of valid frames arrive in
/// order, the batch that is received holds these frames in that order, each with
/// the time of its reception.
pub proof fn law_sent_batch_is_received(
    order: ByteOrder,
    frames: Seq<FrameView>,
    received: Seq<Reception>,
)
    requires
        frames.len() == received.len(),
        forall|i: int| 0 <= i < frames.len() ==> (#[trigger] frames[i]).valid(),
        forall|i: int|
            0 <= i < frames.len() ==> #[trigger] received[i].bytes@ == sent_bytes(
                order,
                frames[i],
            ),
    ensures
        data_frames(order, received).len() == frames.len(),
        forall|i: int|
            0 <= i < frames.len() ==> #[trigger] data_frames(order, received)[i] == (FrameView {
                timestamp_ns: received[i].timestamp(),
                ..frames[i]
            }),
    decreases frames.len(),
{
    if frames.len() > 0 {
        let n = (frames.len() - 1) as int;
        assert(frames[n].valid());
        assert(received[n].bytes@ == sent_bytes(order, frames[n]));
        law_sent_frame_is_received(order, frames[n], received[n]);
        let f0 = frames.drop_last();
        let r0 = received.drop_last();
        assert forall|i: int| 0 <= i < f0.len() implies (#[trigger] f0[i]).valid() by {
            assert(f0[i] == frames[i]);
        }
        assert forall|i: int| 0 <= i < f0.len() implies #[trigger] r0[i].bytes@ == sent_bytes(
            order,
            f0[i],
        ) by {
            assert(r0[i] == received[i]);
        }
        law_sent_batch_is_received(order, f0, r0);
    }
}

/// The bytes that are sent for a frame, one by one: the word of its identifier, its
/// length, its flags, two zeros, then its payload up to the room that its kind has,
/// filled up with zeros.
pub proof fn law_sent_bytes_one_by_one(order: ByteOrder, f: FrameView)
    requires
        f.payload.len() <= 64,
    ensures
        ({
            let b = sent_bytes(order, f);
            &&& b.len() == if f.kind is Fd {
                72
            } else {
                16nat
            }
            &&& bytes::sum_of_four(order, b[0], b[1], b[2], b[3]) == match f.id {
                CanId::Standard(n) => n as int % 0x800,
                CanId::Extended(n) => n as int % 0x2000_0000 + 0x8000_0000,
            }
            &&& b[4] == f.payload.len()
            &&& b[5] == match f.kind {
                frame::FrameKind::Classic => 0int,
                frame::FrameKind::Fd(flags) => (if flags.brs {
                    1int
                } else {
                    0
                }) + (if flags.esi {
                    2int
                } else {
                    0
                }),
            }
            &&& b[6] == 0 && b[7] == 0
            &&& forall|i: int|
                8 <= i < b.len() ==> #[trigger] b[i] == if i - 8 < f.payload.len() {
                    f.payload[i - 8]
                } else {
                    0
                }
        }),
{
    let b = sent_bytes(order, f);
    let word = bytes::u32_bytes(order, f.id.wire_word());
    frame::law_can_id_word_has_the_low_bits(f.id);
    bytes::law_bytes_stand_in_order(order, word, f.id.wire_word(), 0);
    assert(b[0] == word[0] && b[1] == word[1] && b[2] == word[2] && b[3] == word[3]);
    assert forall|i: int| 8 <= i < b.len() implies #[trigger] b[i] == if i - 8 < f.payload.len() {
        f.payload[i - 8]
    } else {
        0
    } by {}
}

/// The nanoseconds of a time are its seconds times a billion and its nanoseconds,
/// in the low 64 bits.
pub proof fn law_nanos_of_a_time(t: TimeSpec)
    ensures
        t.nanos() == (t.sec * 1_000_000_000 + t.nsec) % 0x1_0000_0000_0000_0000,
        0 <= t.sec && 0 <= t.nsec && t.sec * 1_000_000_000 + t.nsec <= u64::MAX ==> t.nanos()
            == t.sec * 1_000_000_000 + t.nsec,
{
    let m: int = 0x1_0000_0000_0000_0000;
    let x = t.sec * 1_000_000_000 + t.nsec;
    let k = (if t.sec < 0 {
        1_000_000_000int
    } else {
        0
    }) + (if t.nsec < 0 {
        1int
    } else {
        0
    });
    assert(bytes::u64_wrapped(t.sec) * 1_000_000_000 + bytes::u64_wrapped(t.nsec) == m * k + x);
    vstd::arithmetic::div_mod::lemma_mod_multiples_vanish(k, x, m);
}

/// Whether the message holds a time of the hardware.
pub open spec fn has_hardware_time(m: ControlMessage) -> bool {
    m matches ControlMessage::Timestamping { hardware, .. } && (hardware.sec != 0 || hardware.nsec
        != 0)
}

/// Whether the message holds a time of the kernel beside one of the hardware.
pub open spec fn has_software_time(m: ControlMessage) -> bool {
    m matches ControlMessage::Timestamping { software, .. } && (software.sec != 0 || software.nsec
        != 0)
}

/// Whether a frame that was received carries this time, in nanoseconds.
pub open spec fn stamped(f: FrameView, t: TimeSpec) -> bool {
    f.timestamp_ns matches Some(ns) && ns == (t.sec * 1_000_000_000 + t.nsec)
        % 0x1_0000_0000_0000_0000
}

proof fn lemma_first_hardware_at(msgs: Seq<ControlMessage>, at: int)
    requires
        0 <= at < msgs.len(),
        has_hardware_time(msgs[at]),
        forall|j: int| 0 <= j < at ==> !has_hardware_time(#[trigger] msgs[j]),
    ensures
        first_hardware(msgs) == Some(msgs[at]->hardware),
    decreases at,
{
    if at > 0 {
        let rest = msgs.skip(1);
        assert(!has_hardware_time(msgs[0]));
        assert(rest[at - 1] == msgs[at]);
        assert forall|j: int| 0 <= j < at - 1 implies !has_hardware_time(#[trigger] rest[j]) by {
            assert(rest[j] == msgs[j + 1]);
        }
        lemma_first_hardware_at(rest, at - 1);
    }
}

proof fn lemma_no_hardware(msgs: Seq<ControlMessage>)
    requires
        forall|j: int| 0 <= j < msgs.len() ==> !has_hardware_time(#[trigger] msgs[j]),
    ensures
        first_hardware(msgs) is None,
    decreases msgs.len(),
{
    if msgs.len() > 0 {
        let rest = msgs.skip(1);
        assert(!has_hardware_time(msgs[0]));
        assert forall|j: int| 0 <= j < rest.len() implies !has_hardware_time(
            #[trigger] rest[j],
        ) by {
            assert(rest[j] == msgs[j + 1]);
        }
        lemma_no_hardware(rest);
    }
}

proof fn lemma_last_software_at(msgs: Seq<ControlMessage>, at: int)
    requires
        0 <= at < msgs.len(),
        has_software_time(msgs[at]),
        forall|j: int| at < j < msgs.len() ==> !has_software_time(#[trigger] msgs[j]),
    ensures
        last_software(msgs) == Some(msgs[at]->software),
    decreases msgs.len(),
{
    if at < msgs.len() - 1 {
        let rest = msgs.drop_last();
        assert(!has_software_time(msgs[msgs.len() - 1]));
        assert(rest[at] == msgs[at]);
        assert forall|j: int| at < j < rest.len() implies !has_software_time(
            #[trigger] rest[j],
        ) by {
            assert(rest[j] == msgs[j]);
        }
        lemma_last_software_at(rest, at);
    }
}

proof fn lemma_no_software(msgs: Seq<ControlMessage>)
    requires
        forall|j: int| 0 <= j < msgs.len() ==> !has_software_time(#[trigger] msgs[j]),
    ensures
        last_software(msgs) is None,
    decreases msgs.len(),
{
    if msgs.len() > 0 {
        let rest = msgs.drop_last();
        assert(!has_software_time(msgs[msgs.len() - 1]));
        assert forall|j: int| 0 <= j < rest.len() implies !has_software_time(
            #[trigger] rest[j],
        ) by {
            assert(rest[j] == msgs[j]);
        }
        lemma_no_software(rest);
    }
}

proof fn lemma_first_plain_at(msgs: Seq<ControlMessage>, at: int)
    requires
        0 <= at < msgs.len(),
        msgs[at] is TimestampNs,
        forall|j: int| 0 <= j < at ==> !((#[trigger] msgs[j]) is TimestampNs),
    ensures
        first_plain(msgs) == Some(msgs[at]->TimestampNs_0),
    decreases at,
{
    if at > 0 {
        let rest = msgs.skip(1);
        assert(!(msgs[0] is TimestampNs));
        assert(rest[at - 1] == msgs[at]);
        assert forall|j: int| 0 <= j < at - 1 implies !((#[trigger] rest[j]) is TimestampNs) by {
            assert(rest[j] == msgs[j + 1]);
        }
        lemma_first_plain_at(rest, at - 1);
    }
}

proof fn lemma_no_plain(msgs: Seq<ControlMessage>)
    requires
        forall|j: int| 0 <= j < msgs.len() ==> !((#[trigger] msgs[j]) is TimestampNs),
    ensures
        first_plain(msgs) is None,
    decreases msgs.len(),
{
    if msgs.len() > 0 {
        let rest = msgs.skip(1);
        assert(!(msgs[0] is TimestampNs));
        assert forall|j: int| 0 <= j < rest.len() implies !((
        #[trigger] rest[j]) is TimestampNs) by {
            assert(rest[j] == msgs[j + 1]);
        }
        lemma_no_plain(rest);
    }
}

/// A data frame is stamped with the first time of the hardware that came with it.
pub proof fn law_frames_carry_the_hardware_time(order: ByteOrder, received: Reception, at: int)
    requires
        0 <= at < received.control@.len(),
        has_hardware_time(received.control@[at]),
        forall|j: int| 0 <= j < at ==> !has_hardware_time(#[trigger] received.control@[j]),
    ensures
        data_frame(received.frame(order)) matches Some(f) ==> stamped(
            f,
            received.control@[at]->hardware,
        ),
{
    lemma_first_hardware_at(received.control@, at);
    law_nanos_of_a_time(received.control@[at]->hardware);
}

/// Where there is no time of the hardware, a data frame is stamped with the last
/// time of the kernel beside one.
pub proof fn law_else_frames_carry_the_software_time(
    order: ByteOrder,
    received: Reception,
    at: int,
)
    requires
        forall|j: int|
            0 <= j < received.control@.len() ==> !has_hardware_time(
                #[trigger] received.control@[j],
            ),
        0 <= at < received.control@.len(),
        has_software_time(received.control@[at]),
        forall|j: int|
            at < j < received.control@.len() ==> !has_software_time(
                #[trigger] received.control@[j],
            ),
    ensures
        data_frame(received.frame(order)) matches Some(f) ==> stamped(
            f,
            received.control@[at]->software,
        ),
{
    lemma_no_hardware(received.control@);
    lemma_last_software_at(received.control@, at);
    law_nanos_of_a_time(received.control@[at]->software);
}

/// Where there is none of these, a data frame is stamped with the first plain time
/// of the kernel.
pub proof fn law_else_frames_carry_the_plain_time(order: ByteOrder, received: Reception, at: int)
    requires
        forall|j: int|
            0 <= j < received.control@.len() ==> !has_hardware_time(#[trigger] received.control@[j])
                && !has_software_time(received.control@[j]),
        0 <= at < received.control@.len(),
        received.control@[at] is TimestampNs,
        forall|j: int| 0 <= j < at ==> !((#[trigger] received.control@[j]) is TimestampNs),
    ensures
        data_frame(received.frame(order)) matches Some(f) ==> stamped(
            f,
            received.control@[at]->TimestampNs_0,
        ),
{
    lemma_no_hardware(received.control@);
    lemma_no_software(received.control@);
    lemma_first_plain_at(received.control@, at);
    law_nanos_of_a_time(received.control@[at]->TimestampNs_0);
}

/// Only where no time came with it is a data frame stamped by the caller's clock.
pub proof fn law_else_frames_carry_the_time_of_the_clock(order: ByteOrder, received: Reception)
    requires
        forall|j: int|
            0 <= j < received.control@.len() ==> !has_hardware_time(#[trigger] received.control@[j])
                && !has_software_time(received.control@[j]) && !(
            received.control@[j] is TimestampNs),
    ensures
        data_frame(received.frame(order)) matches Some(f) ==> f.timestamp_ns == received.clock_ns,
{
    lemma_no_hardware(received.control@);
    lemma_no_software(received.control@);
    lemma_no_plain(received.control@);
}

/// A control message of the socket level holds times by its type: the first time
/// of three is that of the kernel, the last that of the hardware; a plain one is
/// that of the kernel. Anything else holds none.
pub proof fn law_control_messages_hold_times(
    numbers: ControlNumbers,
    level: i32,
    kind: i32,
    times: Seq<TimeSpec>,
)
    requires
        numbers.timestamping != numbers.timestamp_ns,
    ensures
        match control_message(numbers, level, kind, times) {
            ControlMessage::Timestamping { software, hardware } => level == numbers.socket_level
                && kind == numbers.timestamping && times.len() >= 3 && software == times[0]
                && hardware == times[2],
            ControlMessage::TimestampNs(t) => level == numbers.socket_level && kind
                == numbers.timestamp_ns && times.len() >= 1 && t == times[0],
            ControlMessage::Other => level != numbers.socket_level || (kind
                != numbers.timestamping && kind != numbers.timestamp_ns) || (kind
                == numbers.timestamping && times.len() < 3) || (kind == numbers.timestamp_ns
                && times.len() < 1),
        },
{
}

/// What is received is decoded from its bytes: a data frame has the identifier,
/// kind and payload that they hold.
pub proof fn law_reception_is_decoded(order: ByteOrder, received: Reception)
    ensures
        ({
            let r = received.frame(order);
            let d = frame::decoded(order, received.bytes@, None);
            &&& r is Some == (received.bytes@.len() >= 16)
            &&& match (r, d) {
                (Some(DecodedView::Data(f)), Some(DecodedView::Data(g))) => f == (FrameView {
                    timestamp_ns: f.timestamp_ns,
                    ..g
                }),
                _ => r == d,
            }
        }),
{
}

/// A batch is what came, in order, without what is no data frame.
pub proof fn law_batch_grows_by_data_frames(
    order: ByteOrder,
    received: Seq<Reception>,
    more: Reception,
)
    ensures
        data_frames(order, Seq::<Reception>::empty()).len() == 0,
        data_frames(order, received.push(more)) == match more.frame(order) {
            Some(DecodedView::Data(f)) => data_frames(order, received).push(f),
            _ => data_frames(order, received),
        },
{
    assert(received.push(more).drop_last() =~= received);
}

/// There is nothing to receive where the kernel says so, or was interrupted.
pub proof fn law_nothing_yet_is_told_by_two_numbers(errno: i32)
    ensures
        nothing_yet(errno) == (errno == 11 || errno == 4),
{
}

// ---------------------------------------------------------------------------
// What an opening asks for

proof fn lemma_contains_concat(a: Seq<Stage>, b: Seq<Stage>, x: Stage)
    ensures
        (a + b).contains(x) == (a.contains(x) || b.contains(x)),
{
    if a.contains(x) {
        let i = choose|i: int| 0 <= i < a.len() && a[i] == x;
        assert((a + b)[i] == x);
    }
    if b.contains(x) {
        let i = choose|i: int| 0 <= i < b.len() && b[i] == x;
        assert((a + b)[a.len() + i] == x);
    }
}

proof fn lemma_one_contains(y: Stage, x: Stage)
    ensures
        seq![y].contains(x) == (x == y),
        !Seq::<Stage>::empty().contains(x),
{
    if x == y {
        assert(seq![y][0] == x);
    }
}

proof fn lemma_stages_contain(opts: &OpenOpts, x: Stage)
    ensures
        opts.stages().contains(x) == (x == Stage::Create || x == Stage::Resolve || optional(
            opts.fd,
            Stage::FdFrames,
        ).contains(x) || optional(opts.filters() is Some, Stage::Filter).contains(x)
            || opts.error_filter_stages().contains(x) || opts.recv_buffer_stages().contains(x)
            || opts.send_buffer_stages().contains(x) || opts.timestamp_stages().contains(x)
            || opts.timeout_stages().contains(x) || optional(
            opts.nonblocking,
            Stage::Nonblocking,
        ).contains(x) || x == Stage::Bind),
        opts.stages().len() >= 3,
        opts.stages()[0] == Stage::Create,
        opts.stages()[1] == Stage::Resolve,
        opts.stages().last() == Stage::Bind,
{
    let s0 = seq![Stage::Create, Stage::Resolve];
    let p1 = optional(opts.fd, Stage::FdFrames);
    let p2 = optional(opts.filters() is Some, Stage::Filter);
    let p3 = opts.error_filter_stages();
    let p4 = opts.recv_buffer_stages();
    let p5 = opts.send_buffer_stages();
    let p6 = opts.timestamp_stages();
    let p7 = opts.timeout_stages();
    let p8 = optional(opts.nonblocking, Stage::Nonblocking);
    let p9 = seq![Stage::Bind];
    assert(s0 =~= seq![Stage::Create] + seq![Stage::Resolve]);
    lemma_contains_concat(seq![Stage::Create], seq![Stage::Resolve], x);
    lemma_one_contains(Stage::Create, x);
    lemma_one_contains(Stage::Resolve, x);
    lemma_one_contains(Stage::Bind, x);
    lemma_contains_concat(s0, p1, x);
    lemma_contains_concat(s0 + p1, p2, x);
    lemma_contains_concat(s0 + p1 + p2, p3, x);
    lemma_contains_concat(s0 + p1 + p2 + p3, p4, x);
    lemma_contains_concat(s0 + p1 + p2 + p3 + p4, p5, x);
    lemma_contains_concat(s0 + p1 + p2 + p3 + p4 + p5, p6, x);
    lemma_contains_concat(s0 + p1 + p2 + p3 + p4 + p5 + p6, p7, x);
    lemma_contains_concat(s0 + p1 + p2 + p3 + p4 + p5 + p6 + p7, p8, x);
    lemma_contains_concat(s0 + p1 + p2 + p3 + p4 + p5 + p6 + p7 + p8, p9, x);
}

/// Opening a socket asks the kernel for just what the options want: each of it, as
/// they give it, and nothing else. The socket is created first and bound last, when
/// everything is set.
pub proof fn law_opening_asks_for_what_is_wanted(opts: &OpenOpts, x: Stage)
    ensures
        ({
            let all = opts.stages();
            &&& all.len() >= 3 && all[0] == Stage::Create && all[1] == Stage::Resolve
            &&& all.last() == Stage::Bind
            &&& all.contains(x) == match x {
                Stage::Create | Stage::Resolve | Stage::Bind => true,
                Stage::FdFrames => opts.fd,
                Stage::Filter => opts.filter is Some || opts.clear_filter,
                Stage::ErrorFilter(mask) => opts.error_filter == Some(mask),
                Stage::RecvBuffer(n) => opts.recv_buf_bytes matches Some(b) && (b <= i32::MAX
                    ==> n == b) && (b - n) % 0x1_0000_0000 == 0,
                Stage::SendBuffer(n) => opts.send_buf_bytes matches Some(b) && (b <= i32::MAX
                    ==> n == b) && (b - n) % 0x1_0000_0000 == 0,
                Stage::Timestamping(flags) => opts.timestamping == Timestamping::BestAvailable
                    && flags == 4 + 8 + 16 + 64,
                Stage::TimestampNs => opts.timestamping == Timestamping::Software,
                Stage::RecvTimeout { secs, micros } => opts.recv_timeout matches Some(t) && micros
                    == t.nanos() / 1000 % 1_000_000 && secs == bytes::i64_wrapped(
                    (t.nanos() / 1_000_000_000) as u64,
                ),
                Stage::Nonblocking => opts.nonblocking,
            }
        }),
{
    lemma_stages_contain(opts, x);
    lemma_one_contains(Stage::FdFrames, x);
    lemma_one_contains(Stage::Filter, x);
    lemma_one_contains(Stage::Nonblocking, x);
    lemma_one_contains(Stage::TimestampNs, x);
    lemma_one_contains(Stage::Timestamping(BEST_TIMESTAMPS), x);
    if let Some(mask) = opts.error_filter {
        lemma_one_contains(Stage::ErrorFilter(mask), x);
    }
    if let Some(n) = opts.recv_buf_bytes {
        lemma_one_contains(Stage::RecvBuffer(bytes::i32_wrapped(n)), x);
        bytes::law_conversions_keep_the_number(n, 0, 0);
        if let Stage::RecvBuffer(k) = x {
            lemma_same_low_bits(n as int, bytes::i32_wrapped(n) as int, k as int);
        }
    }
    if let Some(n) = opts.send_buf_bytes {
        lemma_one_contains(Stage::SendBuffer(bytes::i32_wrapped(n)), x);
        bytes::law_conversions_keep_the_number(n, 0, 0);
        if let Stage::SendBuffer(k) = x {
            lemma_same_low_bits(n as int, bytes::i32_wrapped(n) as int, k as int);
        }
    }
    if let Some(t) = opts.recv_timeout {
        let secs = bytes::i64_wrapped((t.nanos() / 1_000_000_000) as u64);
        let micros = (t.nanos() % 1_000_000_000 / 1000) as u32;
        lemma_one_contains(Stage::RecvTimeout { secs, micros }, x);
        assert(t.nanos() % 1_000_000_000 / 1000 == t.nanos() / 1000 % 1_000_000);
    }
}

proof fn lemma_same_low_bits(n: int, a: int, b: int)
    requires
        (n - a) % 0x1_0000_0000 == 0,
        -0x8000_0000 <= a < 0x8000_0000,
        -0x8000_0000 <= b < 0x8000_0000,
    ensures
        ((n - b) % 0x1_0000_0000 == 0) == (a == b),
{
}

/// The timeout that is set is the whole seconds of the one that is wanted; the rest
/// is told in microseconds.
pub proof fn law_timeout_keeps_whole_seconds(opts: &OpenOpts, secs: i64, micros: u32)
    requires
        opts.stages().contains(Stage::RecvTimeout { secs, micros }),
        opts.recv_timeout matches Some(t) && t.nanos() / 1_000_000_000 <= i64::MAX,
    ensures
        opts.recv_timeout matches Some(t) && secs * 1_000_000 + micros == t.nanos() / 1000,
{
    law_opening_asks_for_what_is_wanted(opts, Stage::RecvTimeout { secs, micros });
    let t = opts.recv_timeout->Some_0;
    bytes::law_conversions_keep_the_number(0, (t.nanos() / 1_000_000_000) as u64, 0);
}

/// An opening starts with everything that is wanted left to do, with the filters
/// that the options give, and with the bytes of the name, filled up to 16 with
/// zeros.
pub proof fn law_opening_starts_afresh(name: Seq<char>, opts: &OpenOpts)
    requires
        name_fits(name),
    ensures
        ({
            let v = OpeningView::start(name, opts);
            let b = vstd::utf8::encode_utf8(name);
            &&& v.todo == opts.stages()
            &&& !v.fd_rx_enabled && v.failure is None
            &&& opts.filter matches Some(f) ==> v.filters == f@
            &&& opts.filter is None ==> v.filters.len() == 0
            &&& 0 < b.len() < 16 && v.name.len() == 16
            &&& forall|i: int|
                0 <= i < 16 ==> #[trigger] v.name[i] == if i < b.len() {
                    b[i]
                } else {
                    0
                }
        }),
{
}

/// The kernel can take a name of 1 to 15 bytes, and no other.
pub proof fn law_names_have_up_to_fifteen_bytes(name: Seq<char>)
    ensures
        name_fits(name) == (1 <= vstd::utf8::encode_utf8(name).len() <= 15),
{
}

/// A stage that is granted is done with, and that of CAN-FD frames switches their
/// reception on. A refusal ends the opening with its error number where the socket
/// could not be created or bound, the interface not be found, or a filter not be
/// set. Where the best timestamps are refused, plain ones are asked for next. Any
/// other refusal is passed over.
pub proof fn law_answers_move_an_opening_on(v: OpeningView, errno: i32)
    requires
        v.todo.len() > 0,
    ensures
        ({
            let yes = v.after_success();
            let no = v.after_failure(errno);
            let x = v.todo[0];
            &&& v.stage() == Some(x)
            &&& yes.name == v.name && yes.filters == v.filters && yes.failure == v.failure
            &&& yes.todo == v.todo.skip(1)
            &&& yes.fd_rx_enabled == (v.fd_rx_enabled || x == Stage::FdFrames)
            &&& no.name == v.name && no.filters == v.filters && no.fd_rx_enabled == v.fd_rx_enabled
            &&& match x {
                Stage::Create
                | Stage::Resolve
                | Stage::Filter
                | Stage::ErrorFilter(_)
                | Stage::Bind => no.todo.len() == 0 && no.stage() is None && no.failure == Some(
                    errno,
                ) && no.result() == Err::<Opened, SocketError>(SocketError::Os { errno }),
                Stage::Timestamping(_) => no.todo == seq![Stage::TimestampNs] + v.todo.skip(1)
                    && no.failure == v.failure,
                _ => no.todo == v.todo.skip(1) && no.failure == v.failure,
            }
        }),
{
}

/// An opening succeeds unless it failed, and then says whether CAN-FD frames are
/// delivered.
pub proof fn law_result_of_an_opening(v: OpeningView)
    ensures
        v.failure is None ==> v.result() == Ok::<Opened, SocketError>(
            Opened { fd_rx_enabled: v.fd_rx_enabled },
        ),
        v.failure matches Some(errno) ==> v.result() == Err::<Opened, SocketError>(
            SocketError::Os { errno },
        ),
        v.todo.len() == 0 ==> v.stage() is None,
{
}

/// A bad name is invalid input, and a short write is one of too few bytes; an error
/// number speaks for itself.
pub proof fn law_socket_errors_have_their_categories(e: SocketError)
    ensures
        (e is NameLength) == (e.category() == Some(ErrorKind::InvalidInput)),
        (e is ShortWrite) == (e.category() == Some(ErrorKind::WriteZero)),
        (e is Os) == (e.category() is None),
{
}

} // verus!
