//! The request/response exchange as a state machine.
//!
//! A [`Session`] says what to do next ([`Session::action`]) and is told what
//! came of it ([`Session::sent`], [`Session::paused`], [`Session::received`],
//! [`Session::expired`]). Who drives it sends the frames, sleeps, receives
//! frames and watches the clock.
use vstd::prelude::*;
use vstd::slice::{slice_subrange, slice_to_vec};

use super::{
    decode_st_min, encode_cf_frame, encode_fc_frame, encode_ff_frame, encode_sf_frame, IsoTpError,
    Options, CF_PAYLOAD, FC_CTS, FC_OVERFLOW, FC_WAIT, FF_FIRST_PAYLOAD, MAX_FF_LENGTH, SF_MAX_LEN,
};
use crate::frame::{CanId, Frame, FrameKind, FrameView};

verus! {

// ---------------------------------------------------------------------------
// What a received frame means

/// What a frame says where Flow Control is due.
#[derive(Clone, Copy, Debug, PartialEq, Eq, Structural)]
pub enum FlowControl {
    /// Nothing: the frame is empty.
    Nothing,
    /// Go on, in blocks of so many frames, so many milliseconds apart.
    ClearToSend { block_size: u8, st_min_ms: u8 },
    /// Wait for the next Flow Control.
    Wait,
    /// Give up.
    Refused(IsoTpError),
}

/// The meaning of a frame with payload `data` where Flow Control is due.
pub open spec fn flow_control_of(data: Seq<u8>) -> FlowControl {
    if data.len() == 0 {
        FlowControl::Nothing
    } else if data[0] / 16 != 3 {
        FlowControl::Refused(IsoTpError::NotFlowControl { pci: data[0] })
    } else if data[0] % 16 == FC_CTS {
        FlowControl::ClearToSend {
            block_size: if data.len() >= 2 {
                data[1]
            } else {
                0
            },
            st_min_ms: super::st_min_of(
                if data.len() >= 3 {
                    data[2]
                } else {
                    0
                },
            ),
        }
    } else if data[0] % 16 == FC_WAIT {
        FlowControl::Wait
    } else if data[0] % 16 == FC_OVERFLOW {
        FlowControl::Refused(IsoTpError::FlowControlOverflow)
    } else {
        FlowControl::Refused(IsoTpError::UnknownFlowStatus { status: data[0] % 16 })
    }
}

/// Reads a frame where Flow Control is due.
pub fn decode_flow_control(data: &[u8]) -> (r: FlowControl)
    ensures
        r == flow_control_of(data@),
{
    if data.len() == 0 {
        return FlowControl::Nothing;
    }
    let pci = data[0];
    if pci / 16 != 3 {
        return FlowControl::Refused(IsoTpError::NotFlowControl { pci });
    }
    let status = pci % 16;
    if status == FC_CTS {
        let block_size: u8 = if data.len() >= 2 {
            data[1]
        } else {
            0
        };
        let st: u8 = if data.len() >= 3 {
            data[2]
        } else {
            0
        };
        FlowControl::ClearToSend { block_size, st_min_ms: decode_st_min(st) }
    } else if status == FC_WAIT {
        FlowControl::Wait
    } else if status == FC_OVERFLOW {
        FlowControl::Refused(IsoTpError::FlowControlOverflow)
    } else {
        FlowControl::Refused(IsoTpError::UnknownFlowStatus { status })
    }
}

/// What the first frame of a response says.
#[verifier::ext_equal]
pub enum ResponseStartView {
    /// The whole response.
    Whole(Seq<u8>),
    /// The length of the response, and its beginning.
    Segmented { total: nat, first: Seq<u8> },
    /// No response.
    Malformed(IsoTpError),
}

/// What the first frame of a response says.
#[derive(Clone, Debug)]
pub enum ResponseStart {
    /// The whole response.
    Whole(Vec<u8>),
    /// The length of the response, and its beginning.
    Segmented { total: usize, first: Vec<u8> },
    /// No response.
    Malformed(IsoTpError),
}

impl View for ResponseStart {
    type V = ResponseStartView;

    open spec fn view(&self) -> ResponseStartView {
        match *self {
            ResponseStart::Whole(v) => ResponseStartView::Whole(v@),
            ResponseStart::Segmented { total, first } => ResponseStartView::Segmented {
                total: total as nat,
                first: first@,
            },
            ResponseStart::Malformed(e) => ResponseStartView::Malformed(e),
        }
    }
}

/// The meaning of a frame with payload `data` at the start of a response.
pub open spec fn response_start_of(data: Seq<u8>) -> ResponseStartView {
    if data.len() == 0 {
        ResponseStartView::Malformed(IsoTpError::EmptyResponse)
    } else if data[0] / 16 == 0 {
        let len = (data[0] % 16) as int;
        if len == 0 || len > 7 || 1 + len > data.len() {
            ResponseStartView::Malformed(IsoTpError::BadSingleFrameLength { pci: data[0] })
        } else {
            ResponseStartView::Whole(data.subrange(1, 1 + len))
        }
    } else if data[0] / 16 == 1 {
        if data.len() < 2 {
            ResponseStartView::Malformed(IsoTpError::FirstFrameTooShort)
        } else {
            let total = ((data[0] % 16) * 256 + data[1]) as nat;
            let n = if data.len() - 2 < total {
                data.len() - 2
            } else {
                total as int
            };
            if total <= 7 {
                ResponseStartView::Malformed(
                    IsoTpError::FirstFrameTooSmall { total: total as usize },
                )
            } else {
                ResponseStartView::Segmented { total, first: data.subrange(2, 2 + n) }
            }
        }
    } else if data[0] / 16 == 2 {
        ResponseStartView::Malformed(IsoTpError::UnsolicitedConsecutive)
    } else if data[0] / 16 == 3 {
        ResponseStartView::Malformed(IsoTpError::UnexpectedFlowControl)
    } else {
        ResponseStartView::Malformed(IsoTpError::UnknownPci { pci: data[0] })
    }
}

/// Reads the first frame of a response.
pub fn decode_response_start(data: &[u8]) -> (r: ResponseStart)
    ensures
        r@ == response_start_of(data@),
{
    if data.len() == 0 {
        return ResponseStart::Malformed(IsoTpError::EmptyResponse);
    }
    let pci = data[0];
    if pci / 16 == 0 {
        let len = (pci % 16) as usize;
        if len == 0 || len > SF_MAX_LEN || data.len() < 1 + len {
            ResponseStart::Malformed(IsoTpError::BadSingleFrameLength { pci })
        } else {
            ResponseStart::Whole(slice_to_vec(slice_subrange(data, 1, 1 + len)))
        }
    } else if pci / 16 == 1 {
        if data.len() < 2 {
            return ResponseStart::Malformed(IsoTpError::FirstFrameTooShort);
        }
        let total = (pci % 16) as usize * 256 + data[1] as usize;
        if total <= SF_MAX_LEN {
            return ResponseStart::Malformed(IsoTpError::FirstFrameTooSmall { total });
        }
        let n = if data.len() - 2 < total {
            data.len() - 2
        } else {
            total
        };
        ResponseStart::Segmented { total, first: slice_to_vec(slice_subrange(data, 2, 2 + n)) }
    } else if pci / 16 == 2 {
        ResponseStart::Malformed(IsoTpError::UnsolicitedConsecutive)
    } else if pci / 16 == 3 {
        ResponseStart::Malformed(IsoTpError::UnexpectedFlowControl)
    } else {
        ResponseStart::Malformed(IsoTpError::UnknownPci { pci })
    }
}

/// What a Consecutive Frame with payload `data` adds to a response of which
/// `missing` bytes are due, `expected` being the sequence number that is due:
/// at most seven bytes, and no more than are missing.
pub open spec fn consecutive_of(missing: nat, expected: u8, data: Seq<u8>) -> Result<
    Seq<u8>,
    IsoTpError,
> {
    if data.len() == 0 {
        Err(IsoTpError::NotConsecutive { pci: 0 })
    } else if data[0] / 16 != 2 {
        Err(IsoTpError::NotConsecutive { pci: data[0] })
    } else if data[0] % 16 != expected {
        Err(IsoTpError::SequenceMismatch { expected, got: data[0] % 16 })
    } else {
        let most = if missing < 7 {
            missing as int
        } else {
            7
        };
        let n = if data.len() - 1 < most {
            data.len() - 1
        } else {
            most
        };
        Ok(data.subrange(1, 1 + n))
    }
}

/// Reads a Consecutive Frame of a response.
pub fn decode_consecutive(missing: usize, expected: u8, data: &[u8]) -> (r: Result<
    Vec<u8>,
    IsoTpError,
>)
    ensures
        match (r, consecutive_of(missing as nat, expected, data@)) {
            (Ok(v), Ok(s)) => v@ == s,
            (Err(e), Err(f)) => e == f,
            _ => false,
        },
{
    if data.len() == 0 {
        return Err(IsoTpError::NotConsecutive { pci: 0 });
    }
    let pci = data[0];
    if pci / 16 != 2 {
        return Err(IsoTpError::NotConsecutive { pci });
    }
    if pci % 16 != expected {
        return Err(IsoTpError::SequenceMismatch { expected, got: pci % 16 });
    }
    let most = if missing < CF_PAYLOAD {
        missing
    } else {
        CF_PAYLOAD
    };
    let n = if data.len() - 1 < most {
        data.len() - 1
    } else {
        most
    };
    Ok(slice_to_vec(slice_subrange(data, 1, 1 + n)))
}

// ---------------------------------------------------------------------------
// The exchange as a mathematical object

/// How far an exchange has come.
#[verifier::ext_equal]
pub enum PhaseView {
    /// The request goes out as a Single Frame.
    SendSingle,
    /// The First Frame of the request goes out.
    SendFirst,
    /// Flow Control is due; so many `Wait`s have come.
    AwaitFlowControl { waits: nat },
    /// The Consecutive Frame that starts at `offset` goes out.
    SendConsecutive { offset: nat, seq: u8, st_min_ms: u8 },
    /// The separation time before the next Consecutive Frame passes.
    Pause { offset: nat, seq: u8, st_min_ms: u8 },
    /// The first frame of the response is due.
    AwaitResponse,
    /// Flow Control for the response goes out.
    SendFlowControl { total: nat, received: Seq<u8> },
    /// Consecutive Frames of the response are due.
    Collect { total: nat, received: Seq<u8>, expected: u8 },
    /// The exchange is over, with the response.
    Complete(Seq<u8>),
    /// The exchange is over, without a response.
    Failed(IsoTpError),
}

/// An exchange: between whom, what is asked, on what terms, and how far it
/// has come.
#[verifier::ext_equal]
pub struct SessionView {
    pub tx_id: CanId,
    pub rx_id: CanId,
    pub payload: Seq<u8>,
    pub padding: u8,
    pub block_size: u8,
    pub st_min_ms: u8,
    pub max_waits: u8,
    pub phase: PhaseView,
}

/// What is to be done next.
#[verifier::ext_equal]
pub enum ActionView {
    /// Send this frame.
    Send(FrameView),
    /// Let so many milliseconds pass.
    Pause(u8),
    /// Wait for a frame.
    Receive,
    /// Nothing: the exchange is over.
    Finish,
}

impl SessionView {
    /// The same exchange in another phase.
    pub open spec fn at(self, phase: PhaseView) -> SessionView {
        SessionView { phase, ..self }
    }

    /// Whether the phase fits the request.
    pub open spec fn wf(self) -> bool {
        &&& 1 <= self.payload.len() <= 4095
        &&& match self.phase {
            PhaseView::SendSingle => self.payload.len() <= 7,
            PhaseView::SendFirst => self.payload.len() > 7,
            PhaseView::AwaitFlowControl { waits } => self.payload.len() > 7 && waits
                <= self.max_waits,
            PhaseView::SendConsecutive { offset, seq, .. } => 6 <= offset < self.payload.len()
                && seq < 16,
            PhaseView::Pause { offset, seq, .. } => 6 <= offset < self.payload.len() && seq < 16,
            PhaseView::SendFlowControl { total, received } => received.len() <= total && 7 < total
                <= 4095,
            PhaseView::Collect { total, received, expected } => received.len() < total && 7 < total
                <= 4095 && expected < 16,
            _ => true,
        }
    }

    /// Where the chunk that starts at `offset` ends.
    pub open spec fn chunk_end(self, offset: nat) -> nat {
        if offset + 7 < self.payload.len() {
            offset + 7
        } else {
            self.payload.len()
        }
    }

    /// A frame of this exchange with the given payload.
    pub open spec fn frame(self, payload: Seq<u8>) -> FrameView {
        FrameView { id: self.tx_id, kind: FrameKind::Classic, payload, timestamp_ns: None }
    }

    /// What is to be done in this phase.
    pub open spec fn action(self) -> ActionView {
        match self.phase {
            PhaseView::SendSingle => ActionView::Send(
                self.frame(super::single_frame(self.payload, self.padding)),
            ),
            PhaseView::SendFirst => ActionView::Send(
                self.frame(super::first_frame(self.payload.len(), self.payload.take(6))),
            ),
            PhaseView::SendConsecutive { offset, seq, .. } => ActionView::Send(
                self.frame(
                    super::consecutive_frame(
                        seq as int,
                        self.payload.subrange(offset as int, self.chunk_end(offset) as int),
                        self.padding,
                    ),
                ),
            ),
            PhaseView::SendFlowControl { .. } => ActionView::Send(
                self.frame(
                    super::flow_control_frame(
                        FC_CTS,
                        self.block_size,
                        self.st_min_ms,
                        self.padding,
                    ),
                ),
            ),
            PhaseView::Pause { st_min_ms, .. } => ActionView::Pause(st_min_ms),
            PhaseView::AwaitFlowControl { .. }
            | PhaseView::AwaitResponse
            | PhaseView::Collect { .. } => ActionView::Receive,
            PhaseView::Complete(_) | PhaseView::Failed(_) => ActionView::Finish,
        }
    }

    /// The exchange once the frame that was due has been sent.
    pub open spec fn after_sent(self) -> SessionView {
        match self.phase {
            PhaseView::SendSingle => self.at(PhaseView::AwaitResponse),
            PhaseView::SendFirst => self.at(PhaseView::AwaitFlowControl { waits: 0 }),
            PhaseView::SendConsecutive { offset, seq, st_min_ms } => {
                let offset = self.chunk_end(offset);
                let seq = ((seq + 1) % 16) as u8;
                if offset >= self.payload.len() {
                    self.at(PhaseView::AwaitResponse)
                } else if st_min_ms > 0 {
                    self.at(PhaseView::Pause { offset, seq, st_min_ms })
                } else {
                    self.at(PhaseView::SendConsecutive { offset, seq, st_min_ms })
                }
            },
            PhaseView::SendFlowControl { total, received } => if received.len() < total {
                self.at(PhaseView::Collect { total, received, expected: 1 })
            } else {
                self.at(PhaseView::Complete(received))
            },
            _ => self,
        }
    }

    /// The exchange once the separation time has passed.
    pub open spec fn after_pause(self) -> SessionView {
        match self.phase {
            PhaseView::Pause { offset, seq, st_min_ms } => self.at(
                PhaseView::SendConsecutive { offset, seq, st_min_ms },
            ),
            _ => self,
        }
    }

    /// The exchange once time has run out: whoever waits for a frame gives up.
    pub open spec fn after_deadline(self) -> SessionView {
        match self.phase {
            PhaseView::AwaitFlowControl { .. } => self.at(
                PhaseView::Failed(IsoTpError::FlowControlTimeout),
            ),
            PhaseView::AwaitResponse => self.at(PhaseView::Failed(IsoTpError::NoResponse)),
            PhaseView::Collect { .. } => self.at(
                PhaseView::Failed(IsoTpError::ConsecutiveTimeout),
            ),
            _ => self,
        }
    }

    /// The exchange once a frame of the peer, with payload `data`, has come.
    pub open spec fn after_data(self, data: Seq<u8>) -> SessionView {
        match self.phase {
            PhaseView::AwaitFlowControl { waits } => match flow_control_of(data) {
                FlowControl::Nothing => self,
                FlowControl::ClearToSend { block_size, st_min_ms } => if block_size > 0 {
                    self.at(PhaseView::Failed(IsoTpError::BlockSizeUnsupported))
                } else {
                    self.at(PhaseView::SendConsecutive { offset: 6, seq: 1, st_min_ms })
                },
                FlowControl::Wait => if waits + 1 > self.max_waits {
                    self.at(PhaseView::Failed(IsoTpError::TooManyWaits { max: self.max_waits }))
                } else {
                    self.at(PhaseView::AwaitFlowControl { waits: waits + 1 })
                },
                FlowControl::Refused(e) => self.at(PhaseView::Failed(e)),
            },
            PhaseView::AwaitResponse => match response_start_of(data) {
                ResponseStartView::Whole(r) => self.at(PhaseView::Complete(r)),
                ResponseStartView::Segmented { total, first } => self.at(
                    PhaseView::SendFlowControl { total, received: first },
                ),
                ResponseStartView::Malformed(e) => self.at(PhaseView::Failed(e)),
            },
            PhaseView::Collect { total, received, expected } => match consecutive_of(
                (total - received.len()) as nat,
                expected,
                data,
            ) {
                Err(e) => self.at(PhaseView::Failed(e)),
                Ok(more) => if received.len() + more.len() < total {
                    self.at(
                        PhaseView::Collect {
                            total,
                            received: received + more,
                            expected: ((expected + 1) % 16) as u8,
                        },
                    )
                } else {
                    self.at(PhaseView::Complete(received + more))
                },
            },
            _ => self,
        }
    }

    /// The exchange once a frame has come: frames of others are dropped.
    pub open spec fn after_frame(self, frame: FrameView) -> SessionView {
        if frame.id == self.rx_id {
            self.after_data(frame.payload)
        } else {
            self
        }
    }

    /// The exchange at its start.
    pub open spec fn start(
        tx_id: CanId,
        rx_id: CanId,
        payload: Seq<u8>,
        opts: Options,
    ) -> SessionView {
        SessionView {
            tx_id,
            rx_id,
            payload,
            padding: opts.padding,
            block_size: opts.block_size,
            st_min_ms: opts.st_min_ms,
            max_waits: opts.max_waits,
            phase: if payload.len() <= 7 {
                PhaseView::SendSingle
            } else {
                PhaseView::SendFirst
            },
        }
    }
}

// ---------------------------------------------------------------------------
// The exchange as a program

#[derive(Clone, Debug)]
enum Phase {
    SendSingle,
    SendFirst,
    AwaitFlowControl { waits: u16 },
    SendConsecutive { offset: usize, seq: u8, st_min_ms: u8 },
    Pause { offset: usize, seq: u8, st_min_ms: u8 },
    AwaitResponse,
    SendFlowControl { total: usize, received: Vec<u8> },
    Collect { total: usize, received: Vec<u8>, expected: u8 },
    Complete(Vec<u8>),
    Failed(IsoTpError),
}

impl Phase {
    spec fn model(self) -> PhaseView {
        match self {
            Phase::SendSingle => PhaseView::SendSingle,
            Phase::SendFirst => PhaseView::SendFirst,
            Phase::AwaitFlowControl { waits } => PhaseView::AwaitFlowControl {
                waits: waits as nat,
            },
            Phase::SendConsecutive { offset, seq, st_min_ms } => PhaseView::SendConsecutive {
                offset: offset as nat,
                seq,
                st_min_ms,
            },
            Phase::Pause { offset, seq, st_min_ms } => PhaseView::Pause {
                offset: offset as nat,
                seq,
                st_min_ms,
            },
            Phase::AwaitResponse => PhaseView::AwaitResponse,
            Phase::SendFlowControl { total, received } => PhaseView::SendFlowControl {
                total: total as nat,
                received: received@,
            },
            Phase::Collect { total, received, expected } => PhaseView::Collect {
                total: total as nat,
                received: received@,
                expected,
            },
            Phase::Complete(v) => PhaseView::Complete(v@),
            Phase::Failed(e) => PhaseView::Failed(e),
        }
    }
}

/// What a [`Session`] wants done next.
#[derive(Clone, Debug)]
pub enum Action {
    /// Send this frame, then call [`Session::sent`].
    Send(Frame),
    /// Let so many milliseconds pass, then call [`Session::paused`].
    Pause(u8),
    /// Receive a frame and hand it to [`Session::received`]; if the time for
    /// the whole exchange is over, call [`Session::expired`].
    Receive,
    /// The exchange is over: [`Session::into_result`] has the outcome.
    Finish,
}

impl View for Action {
    type V = ActionView;

    open spec fn view(&self) -> ActionView {
        match *self {
            Action::Send(f) => ActionView::Send(f@),
            Action::Pause(ms) => ActionView::Pause(ms),
            Action::Receive => ActionView::Receive,
            Action::Finish => ActionView::Finish,
        }
    }
}

impl Action {
    /// Whether a frame to be sent keeps its length inside its buffer, with zeros
    /// behind.
    pub open spec fn wf(&self) -> bool {
        *self matches Action::Send(f) ==> f.wf() && f.zero_tail()
    }
}

/// An ISO-TP request/response exchange.
#[derive(Clone, Debug)]
pub struct Session {
    tx_id: CanId,
    rx_id: CanId,
    payload: Vec<u8>,
    padding: u8,
    block_size: u8,
    st_min_ms: u8,
    max_waits: u8,
    phase: Phase,
}

impl View for Session {
    type V = SessionView;

    closed spec fn view(&self) -> SessionView {
        SessionView {
            tx_id: self.tx_id,
            rx_id: self.rx_id,
            payload: self.payload@,
            padding: self.padding,
            block_size: self.block_size,
            st_min_ms: self.st_min_ms,
            max_waits: self.max_waits,
            phase: self.phase.model(),
        }
    }
}

/// Start an exchange: send `payload` to `tx_id` and collect a complete ISO-TP
/// response on `rx_id`.
pub fn request(tx_id: CanId, rx_id: CanId, payload: &[u8], opts: &Options) -> (r: Result<
    Session,
    IsoTpError,
>)
    ensures
        match r {
            Ok(session) => {
                &&& 1 <= payload@.len() <= MAX_FF_LENGTH
                &&& session@ == SessionView::start(tx_id, rx_id, payload@, *opts)
                &&& session@.wf()
            },
            Err(e) => {
                ||| payload@.len() == 0 && e == IsoTpError::EmptyPayload
                ||| payload@.len() > MAX_FF_LENGTH && e == (IsoTpError::PayloadTooLong {
                    len: payload.len(),
                })
            },
        },
{
    if payload.len() == 0 {
        return Err(IsoTpError::EmptyPayload);
    }
    if payload.len() > MAX_FF_LENGTH {
        return Err(IsoTpError::PayloadTooLong { len: payload.len() });
    }
    let phase = if payload.len() <= SF_MAX_LEN {
        Phase::SendSingle
    } else {
        Phase::SendFirst
    };
    Ok(
        Session {
            tx_id,
            rx_id,
            payload: slice_to_vec(payload),
            padding: opts.padding,
            block_size: opts.block_size,
            st_min_ms: opts.st_min_ms,
            max_waits: opts.max_waits,
            phase,
        },
    )
}

impl Session {
    /// A classic frame for the peer.
    fn frame(&self, data: [u8; 8]) -> (f: Frame)
        ensures
            f.wf(),
            f.zero_tail(),
            f@ == self@.frame(data@),
    {
        match Frame::new_classic(self.tx_id, data.as_slice()) {
            Ok(f) => f,
            Err(_) => Frame::zeroed(),
        }
    }

    fn chunk_end(&self, offset: usize) -> (end: usize)
        requires
            offset <= self@.payload.len() <= 4095,
        ensures
            end == self@.chunk_end(offset as nat),
    {
        if offset + CF_PAYLOAD < self.payload.len() {
            offset + CF_PAYLOAD
        } else {
            self.payload.len()
        }
    }

    /// What is to be done next.
    pub fn action(&self) -> (a: Action)
        requires
            self@.wf(),
        ensures
            a.wf(),
            a@ == self@.action(),
    {
        match &self.phase {
            Phase::SendSingle => Action::Send(
                self.frame(encode_sf_frame(self.payload.as_slice(), self.padding)),
            ),
            Phase::SendFirst => {
                let first = slice_subrange(self.payload.as_slice(), 0, FF_FIRST_PAYLOAD);
                assert(first@ =~= self.payload@.take(6));
                Action::Send(
                    self.frame(encode_ff_frame(self.payload.len() as u16, first, self.padding)),
                )
            },
            Phase::SendConsecutive { offset, seq, .. } => {
                let end = self.chunk_end(*offset);
                let chunk = slice_subrange(self.payload.as_slice(), *offset, end);
                Action::Send(self.frame(encode_cf_frame(*seq, chunk, self.padding)))
            },
            Phase::SendFlowControl { .. } => Action::Send(
                self.frame(encode_fc_frame(FC_CTS, self.block_size, self.st_min_ms, self.padding)),
            ),
            Phase::Pause { st_min_ms, .. } => Action::Pause(*st_min_ms),
            Phase::AwaitFlowControl { .. } | Phase::AwaitResponse | Phase::Collect { .. } =>
                Action::Receive,
            Phase::Complete(_) | Phase::Failed(_) => Action::Finish,
        }
    }

    /// The frame of the last [`Action::Send`] has been sent.
    pub fn sent(self) -> (next: Self)
        requires
            self@.wf(),
        ensures
            next@.wf(),
            next@ == self@.after_sent(),
    {
        let mut next = self;
        next.phase = match next.phase {
            Phase::SendSingle => Phase::AwaitResponse,
            Phase::SendFirst => Phase::AwaitFlowControl { waits: 0 },
            Phase::SendConsecutive { offset, seq, st_min_ms } => {
                let len = next.payload.len();
                let end = if offset + CF_PAYLOAD < len {
                    offset + CF_PAYLOAD
                } else {
                    len
                };
                let seq = (seq + 1) % 16;
                if end >= len {
                    Phase::AwaitResponse
                } else if st_min_ms > 0 {
                    Phase::Pause { offset: end, seq, st_min_ms }
                } else {
                    Phase::SendConsecutive { offset: end, seq, st_min_ms }
                }
            },
            Phase::SendFlowControl { total, received } => {
                if received.len() < total {
                    Phase::Collect { total, received, expected: 1 }
                } else {
                    Phase::Complete(received)
                }
            },
            other => other,
        };
        next
    }

    /// The time of the last [`Action::Pause`] has passed.
    pub fn paused(self) -> (next: Self)
        requires
            self@.wf(),
        ensures
            next@.wf(),
            next@ == self@.after_pause(),
    {
        let mut next = self;
        next.phase = match next.phase {
            Phase::Pause { offset, seq, st_min_ms } => Phase::SendConsecutive {
                offset,
                seq,
                st_min_ms,
            },
            other => other,
        };
        next
    }

    /// The time for the whole exchange is over.
    pub fn expired(self) -> (next: Self)
        requires
            self@.wf(),
        ensures
            next@.wf(),
            next@ == self@.after_deadline(),
    {
        let mut next = self;
        next.phase = match next.phase {
            Phase::AwaitFlowControl { .. } => Phase::Failed(IsoTpError::FlowControlTimeout),
            Phase::AwaitResponse => Phase::Failed(IsoTpError::NoResponse),
            Phase::Collect { .. } => Phase::Failed(IsoTpError::ConsecutiveTimeout),
            other => other,
        };
        next
    }

    /// A frame has come. Frames whose identifier is not the peer's are
    /// silently dropped, so this works over a socket with a broad filter or
    /// none.
    pub fn received(self, frame: &Frame) -> (next: Self)
        requires
            self@.wf(),
            frame.wf(),
        ensures
            next@.wf(),
            next@ == self@.after_frame(frame@),
    {
        let mut next = self;
        if frame.id != next.rx_id {
            return next;
        }
        let data = frame.data();
        let max_waits = next.max_waits;
        next.phase = match next.phase {
            Phase::AwaitFlowControl { waits } => match decode_flow_control(data) {
                FlowControl::Nothing => Phase::AwaitFlowControl { waits },
                FlowControl::ClearToSend { block_size, st_min_ms } => {
                    if block_size > 0 {
                        Phase::Failed(IsoTpError::BlockSizeUnsupported)
                    } else {
                        Phase::SendConsecutive { offset: FF_FIRST_PAYLOAD, seq: 1, st_min_ms }
                    }
                },
                FlowControl::Wait => {
                    if waits + 1 > max_waits as u16 {
                        Phase::Failed(IsoTpError::TooManyWaits { max: max_waits })
                    } else {
                        Phase::AwaitFlowControl { waits: waits + 1 }
                    }
                },
                FlowControl::Refused(e) => Phase::Failed(e),
            },
            Phase::AwaitResponse => match decode_response_start(data) {
                ResponseStart::Whole(v) => Phase::Complete(v),
                ResponseStart::Segmented { total, first } => Phase::SendFlowControl {
                    total,
                    received: first,
                },
                ResponseStart::Malformed(e) => Phase::Failed(e),
            },
            Phase::Collect { total, received, expected } => {
                match decode_consecutive(total - received.len(), expected, data) {
                    Err(e) => Phase::Failed(e),
                    Ok(more) => {
                        let mut received = received;
                        let mut more = more;
                        received.append(&mut more);
                        if received.len() < total {
                            Phase::Collect { total, received, expected: (expected + 1) % 16 }
                        } else {
                            Phase::Complete(received)
                        }
                    },
                }
            },
            other => other,
        };
        next
    }

    /// The outcome of an exchange that is over: the response, or why there is
    /// none. `None` while the exchange goes on.
    pub fn into_result(self) -> (r: Option<Result<Vec<u8>, IsoTpError>>)
        ensures
            match self@.phase {
                PhaseView::Complete(v) => r matches Some(Ok(w)) && w@ == v,
                PhaseView::Failed(e) => r == Some(Err::<Vec<u8>, IsoTpError>(e)),
                _ => r is None,
            },
    {
        match self.phase {
            Phase::Complete(v) => Some(Ok(v)),
            Phase::Failed(e) => Some(Err(e)),
            _ => None,
        }
    }
}

} // verus!
