//! What holds of whole exchanges.
use vstd::prelude::*;

use super::session::{ActionView, PhaseView, ResponseStartView, SessionView};
use super::session;
use super::{IsoTpError, Options};
use crate::error::ErrorKind;
use crate::frame::{CanId, FrameKind, FrameView};

verus! {

/// The Consecutive Frames that carry `rest`, numbered from `number` on.
pub open spec fn consecutive_frames(rest: Seq<u8>, number: int, padding: u8) -> Seq<Seq<u8>>
    decreases rest.len(),
{
    if rest.len() == 0 {
        seq![]
    } else {
        let n = if rest.len() < 7 {
            rest.len() as int
        } else {
            7
        };
        seq![super::consecutive_frame(number, rest.take(n), padding)] + consecutive_frames(
            rest.skip(n),
            number + 1,
            padding,
        )
    }
}

/// The frames that carry a payload: one Single Frame, or a First Frame and
/// the Consecutive Frames for the rest.
pub open spec fn segments(payload: Seq<u8>, padding: u8) -> Seq<Seq<u8>> {
    if payload.len() <= 7 {
        seq![super::single_frame(payload, padding)]
    } else {
        seq![super::first_frame(payload.len(), payload.take(6))] + consecutive_frames(
            payload.skip(6),
            1,
            padding,
        )
    }
}

/// The exchange once the peer has sent frames with these payloads, our own
/// Flow Control having gone out where it was due.
pub open spec fn after_hearing(s: SessionView, data: Seq<Seq<u8>>) -> SessionView
    decreases data.len(),
{
    if data.len() == 0 {
        s
    } else {
        let t = s.after_data(data[0]);
        let u = if t.phase is SendFlowControl {
            t.after_sent()
        } else {
            t
        };
        after_hearing(u, data.skip(1))
    }
}

/// The payloads that go out from here on until the exchange has to wait for
/// the peer, separation times having passed, and where it stands then.
pub open spec fn transmission(s: SessionView) -> (Seq<Seq<u8>>, SessionView)
    decreases
            (match s.phase {
                PhaseView::SendConsecutive { offset, .. } => s.payload.len() - offset,
                _ => 0,
            }),
    when s.wf()
{
    match s.phase {
        PhaseView::SendSingle | PhaseView::SendFirst => (
            seq![s.action()->Send_0.payload],
            s.after_sent(),
        ),
        PhaseView::SendConsecutive { .. } => {
            let (rest, end) = transmission(s.after_sent().after_pause());
            (seq![s.action()->Send_0.payload] + rest, end)
        },
        _ => (seq![], s),
    }
}

proof fn lemma_single_frame_is_whole(payload: Seq<u8>, padding: u8)
    requires
        1 <= payload.len() <= 7,
    ensures
        session::response_start_of(super::single_frame(payload, padding))
            == ResponseStartView::Whole(payload),
{
    let f = super::single_frame(payload, padding);
    assert(f[0] == payload.len());
    assert(f.subrange(1, 1 + payload.len() as int) =~= payload);
}

proof fn lemma_first_frame_is_segmented(payload: Seq<u8>)
    requires
        7 < payload.len() <= 4095,
    ensures
        session::response_start_of(super::first_frame(payload.len(), payload.take(6))) == (
        ResponseStartView::Segmented { total: payload.len(), first: payload.take(6) }),
{
    let f = super::first_frame(payload.len(), payload.take(6));
    assert(f[0] == 0x10 + payload.len() / 256);
    assert(f[1] == payload.len() % 256);
    assert(f.subrange(2, 8) =~= payload.take(6));
}

proof fn lemma_collects_rest(
    s: SessionView,
    total: nat,
    received: Seq<u8>,
    rest: Seq<u8>,
    number: int,
    padding: u8,
)
    requires
        rest.len() > 0,
        number >= 0,
        total == received.len() + rest.len(),
        s.phase == (PhaseView::Collect { total, received, expected: (number % 16) as u8 }),
    ensures
        after_hearing(s, consecutive_frames(rest, number, padding)) == s.at(
            PhaseView::Complete(received + rest),
        ),
    decreases rest.len(),
{
    let n = if rest.len() < 7 {
        rest.len() as int
    } else {
        7
    };
    let f = super::consecutive_frame(number, rest.take(n), padding);
    let frames = consecutive_frames(rest, number, padding);
    let others = consecutive_frames(rest.skip(n), number + 1, padding);
    assert(frames[0] == f);
    assert(frames.skip(1) =~= others);
    assert(f[0] == 0x20 + number % 16);
    assert(f.subrange(1, 1 + n) =~= rest.take(n));
    let t = s.after_data(f);
    if n == rest.len() {
        assert(rest.take(n) =~= rest);
        assert(others.len() == 0);
        assert(t == s.at(PhaseView::Complete(received + rest)));
        assert(after_hearing(t, frames.skip(1)) == t);
    } else {
        assert(t.phase == (PhaseView::Collect {
            total,
            received: received + rest.take(n),
            expected: ((number + 1) % 16) as u8,
        }));
        lemma_collects_rest(t, total, received + rest.take(n), rest.skip(n), number + 1, padding);
        assert(received + rest.take(n) + rest.skip(n) =~= received + rest);
    }
}

/// A response of any length from 1 to 4095 bytes, segmented by the peer with
/// whatever padding, comes out as it went in.
pub proof fn law_response_is_reassembled(s: SessionView, response: Seq<u8>, padding: u8)
    requires
        s.phase == PhaseView::AwaitResponse,
        1 <= response.len() <= 4095,
    ensures
        after_hearing(s, segments(response, padding)) == s.at(PhaseView::Complete(response)),
{
    let frames = segments(response, padding);
    if response.len() <= 7 {
        lemma_single_frame_is_whole(response, padding);
        assert(frames.skip(1) =~= seq![]);
        let t = s.at(PhaseView::Complete(response));
        assert(after_hearing(t, frames.skip(1)) == t);
    } else {
        lemma_first_frame_is_segmented(response);
        let first = response.take(6);
        let rest = response.skip(6);
        assert(frames.skip(1) =~= consecutive_frames(rest, 1, padding));
        let u = s.at(PhaseView::Collect { total: response.len(), received: first, expected: 1 });
        assert(s.after_data(frames[0]).after_sent() == u);
        lemma_collects_rest(u, response.len(), first, rest, 1, padding);
        assert(first + rest =~= response);
    }
}

proof fn lemma_transmits_rest(s: SessionView, offset: nat, number: int, st_min_ms: u8)
    requires
        s.wf(),
        number >= 0,
        s.phase == (PhaseView::SendConsecutive { offset, seq: (number % 16) as u8, st_min_ms }),
    ensures
        transmission(s) == (
            consecutive_frames(s.payload.skip(offset as int), number, s.padding),
            s.at(PhaseView::AwaitResponse),
        ),
    decreases s.payload.len() - offset,
{
    let rest = s.payload.skip(offset as int);
    let end = s.chunk_end(offset);
    let n = end - offset;
    assert(rest.take(n) =~= s.payload.subrange(offset as int, end as int));
    let next = s.after_sent().after_pause();
    let chunk = s.payload.subrange(offset as int, end as int);
    assert(super::consecutive_frame((number % 16) as u8 as int, chunk, s.padding)
        == super::consecutive_frame(number, chunk, s.padding));
    if end < s.payload.len() {
        lemma_transmits_rest(next, end, number + 1, st_min_ms);
        assert(rest.skip(n) =~= s.payload.skip(end as int));
    } else {
        assert(rest.skip(n) =~= seq![]);
        assert(consecutive_frames(rest.skip(n), number + 1, s.padding) =~= seq![]);
        assert(transmission(next) == (Seq::<Seq<u8>>::empty(), next));
    }
    assert(transmission(s).0 =~= consecutive_frames(rest, number, s.padding));
}

/// A request of up to 7 bytes goes out as one Single Frame, and the response
/// is due next.
pub proof fn law_short_request_is_transmitted(s: SessionView)
    requires
        s.wf(),
        s.phase == PhaseView::SendSingle,
    ensures
        transmission(s) == (segments(s.payload, s.padding), s.at(PhaseView::AwaitResponse)),
{
}

/// A longer request goes out as a First Frame; once the peer has answered it
/// with a Flow Control that clears the way without blocks, the Consecutive
/// Frames follow, whatever the separation time. Together they are the segments
/// of the request, and the response is due next.
pub proof fn law_long_request_is_transmitted(s: SessionView, flow_control: Seq<u8>, st_min_ms: u8)
    requires
        s.wf(),
        s.phase == PhaseView::SendFirst,
        session::flow_control_of(flow_control) == (session::FlowControl::ClearToSend {
            block_size: 0,
            st_min_ms,
        }),
    ensures
        ({
            let (first, waiting) = transmission(s);
            let (rest, end) = transmission(waiting.after_data(flow_control));
            &&& first + rest == segments(s.payload, s.padding)
            &&& end == s.at(PhaseView::AwaitResponse)
        }),
{
    let (first, waiting) = transmission(s);
    let cleared = waiting.after_data(flow_control);
    lemma_transmits_rest(cleared, 6, 1, st_min_ms);
    let (rest, end) = transmission(cleared);
    assert(first + rest =~= segments(s.payload, s.padding));
}

/// A request of 1 to 7 bytes and a response of 1 to 4095 bytes make a complete
/// exchange: the request goes out in its segments, and the response, which the
/// peer has segmented, is the outcome.
pub proof fn law_short_exchange_completes(
    tx_id: CanId,
    rx_id: CanId,
    request: Seq<u8>,
    opts: Options,
    response: Seq<u8>,
    padding: u8,
)
    requires
        1 <= request.len() <= 7,
        1 <= response.len() <= 4095,
    ensures
        ({
            let start = SessionView::start(tx_id, rx_id, request, opts);
            let (sent, waiting) = transmission(start);
            &&& sent == segments(request, opts.padding)
            &&& after_hearing(waiting, segments(response, padding)) == start.at(
                PhaseView::Complete(response),
            )
        }),
{
    let start = SessionView::start(tx_id, rx_id, request, opts);
    law_short_request_is_transmitted(start);
    law_response_is_reassembled(start.at(PhaseView::AwaitResponse), response, padding);
}

/// A request of 8 to 4095 bytes, cleared by a Flow Control without blocks, and a
/// response of 1 to 4095 bytes make a complete exchange.
pub proof fn law_long_exchange_completes(
    tx_id: CanId,
    rx_id: CanId,
    request: Seq<u8>,
    opts: Options,
    flow_control: Seq<u8>,
    st_min_ms: u8,
    response: Seq<u8>,
    padding: u8,
)
    requires
        8 <= request.len() <= 4095,
        session::flow_control_of(flow_control) == (session::FlowControl::ClearToSend {
            block_size: 0,
            st_min_ms,
        }),
        1 <= response.len() <= 4095,
    ensures
        ({
            let start = SessionView::start(tx_id, rx_id, request, opts);
            let (first, held) = transmission(start);
            let (rest, waiting) = transmission(held.after_data(flow_control));
            &&& first + rest == segments(request, opts.padding)
            &&& after_hearing(waiting, segments(response, padding)) == start.at(
                PhaseView::Complete(response),
            )
        }),
{
    let start = SessionView::start(tx_id, rx_id, request, opts);
    law_long_request_is_transmitted(start, flow_control, st_min_ms);
    law_response_is_reassembled(start.at(PhaseView::AwaitResponse), response, padding);
}

/// What a frame of the peer makes of an exchange that is under way, if it fails
/// it: malformed data, but for too many `Wait`s (a timeout), for Flow Control
/// that asks for blocks (unsupported), and for one that says `Overflow`.
pub proof fn law_failures_are_sorted(s: SessionView, data: Seq<u8>)
    requires
        !(s.action() is Finish),
    ensures
        s.after_data(data).phase matches PhaseView::Failed(e) ==> e.category() == match e {
            IsoTpError::TooManyWaits { .. } => ErrorKind::TimedOut,
            IsoTpError::BlockSizeUnsupported => ErrorKind::Unsupported,
            IsoTpError::FlowControlOverflow => ErrorKind::Other,
            _ => ErrorKind::InvalidData,
        },
{
}

/// A frame whose identifier is not the peer's changes nothing.
pub proof fn law_frames_of_others_are_dropped(s: SessionView, frame: FrameView)
    requires
        frame.id != s.rx_id,
    ensures
        s.after_frame(frame) == s,
{
}

/// Whoever waits for a frame when time runs out fails, and the failure is a
/// timeout.
pub proof fn law_deadline_is_a_timeout(s: SessionView)
    requires
        s.action() is Receive,
    ensures
        s.after_deadline().phase matches PhaseView::Failed(e) && e.category()
            == ErrorKind::TimedOut,
{
}

/// An exchange that is over stays as it is.
pub proof fn law_outcome_is_final(s: SessionView, frame: FrameView)
    requires
        s.action() is Finish,
    ensures
        s.after_sent() == s,
        s.after_pause() == s,
        s.after_deadline() == s,
        s.after_frame(frame) == s,
{
}

/// The exchange after `n` Flow Controls that say `Wait`.
pub open spec fn after_waits(s: SessionView, wait: Seq<u8>, n: nat) -> SessionView
    decreases n,
{
    if n == 0 {
        s
    } else {
        after_waits(s, wait, (n - 1) as nat).after_data(wait)
    }
}

proof fn lemma_waits(s: SessionView, wait: Seq<u8>, n: nat)
    requires
        s.phase == (PhaseView::AwaitFlowControl { waits: 0 }),
        session::flow_control_of(wait) == session::FlowControl::Wait,
        n <= s.max_waits,
    ensures
        after_waits(s, wait, n) == s.at(PhaseView::AwaitFlowControl { waits: n }),
    decreases n,
{
    if n > 0 {
        lemma_waits(s, wait, (n - 1) as nat);
    }
}

/// As many `Wait`s as are tolerated leave the exchange waiting for Flow
/// Control; one more ends it with a timeout.
pub proof fn law_waits_are_limited(s: SessionView, wait: Seq<u8>, n: nat)
    requires
        s.phase == (PhaseView::AwaitFlowControl { waits: 0 }),
        session::flow_control_of(wait) == session::FlowControl::Wait,
    ensures
        n <= s.max_waits ==> after_waits(s, wait, n) == s.at(
            PhaseView::AwaitFlowControl { waits: n },
        ),
        n > s.max_waits ==> after_waits(s, wait, n) == s.at(
            PhaseView::Failed(IsoTpError::TooManyWaits { max: s.max_waits }),
        ),
    decreases n,
{
    if n <= s.max_waits {
        lemma_waits(s, wait, n);
    } else if n == s.max_waits + 1 {
        lemma_waits(s, wait, s.max_waits as nat);
    } else {
        law_waits_are_limited(s, wait, (n - 1) as nat);
    }
}

/// A Flow Control that asks for blocks ends the exchange as unsupported.
pub proof fn law_block_size_is_unsupported(s: SessionView, data: Seq<u8>)
    requires
        s.phase is AwaitFlowControl,
        session::flow_control_of(data) matches session::FlowControl::ClearToSend { block_size, .. }
            && block_size > 0,
    ensures
        s.after_data(data) == s.at(PhaseView::Failed(IsoTpError::BlockSizeUnsupported)),
        IsoTpError::BlockSizeUnsupported.category() == ErrorKind::Unsupported,
{
}

/// Every step keeps the phase fitting the request.
pub proof fn law_steps_keep_wf(s: SessionView, frame: FrameView)
    requires
        s.wf(),
    ensures
        s.after_sent().wf(),
        s.after_pause().wf(),
        s.after_deadline().wf(),
        s.after_frame(frame).wf(),
{
}

// ---------------------------------------------------------------------------
// Byte by byte

/// Whether a frame is a classic one of eight bytes to the peer.
pub open spec fn goes_to_peer(f: FrameView, s: SessionView) -> bool {
    &&& f.id == s.tx_id
    &&& f.kind == FrameKind::Classic
    &&& f.timestamp_ns is None
    &&& f.payload.len() == 8
}

/// A request of up to seven bytes goes out in one frame: its length, its bytes,
/// padding. The response is due next.
pub proof fn law_short_request_on_the_wire(
    tx_id: CanId,
    rx_id: CanId,
    payload: Seq<u8>,
    opts: Options,
)
    requires
        1 <= payload.len() <= 7,
    ensures
        ({
            let s = SessionView::start(tx_id, rx_id, payload, opts);
            &&& s.tx_id == tx_id && s.rx_id == rx_id && s.payload == payload
            &&& s.padding == opts.padding && s.block_size == opts.block_size
            &&& s.st_min_ms == opts.st_min_ms && s.max_waits == opts.max_waits
            &&& s.action() matches ActionView::Send(f) && goes_to_peer(f, s) && f.payload[0]
                == payload.len() && forall|i: int|
                0 <= i < 7 ==> #[trigger] f.payload[1 + i] == if i < payload.len() {
                    payload[i]
                } else {
                    opts.padding
                }
            &&& s.after_sent() == s.at(PhaseView::AwaitResponse)
            &&& s.after_sent().action() == ActionView::Receive
        }),
{
    let s = SessionView::start(tx_id, rx_id, payload, opts);
    let f = s.action()->Send_0;
    assert forall|i: int| 0 <= i < 7 implies #[trigger] f.payload[1 + i] == if i < payload.len() {
        payload[i]
    } else {
        opts.padding
    } by {}
}

/// A longer request starts with a frame that holds its length in twelve bits
/// behind the digit 1, and its first six bytes. Flow Control is due next.
pub proof fn law_long_request_on_the_wire(
    tx_id: CanId,
    rx_id: CanId,
    payload: Seq<u8>,
    opts: Options,
)
    requires
        8 <= payload.len() <= 4095,
    ensures
        ({
            let s = SessionView::start(tx_id, rx_id, payload, opts);
            &&& s.tx_id == tx_id && s.rx_id == rx_id && s.payload == payload
            &&& s.padding == opts.padding && s.block_size == opts.block_size
            &&& s.st_min_ms == opts.st_min_ms && s.max_waits == opts.max_waits
            &&& s.action() matches ActionView::Send(f) && goes_to_peer(f, s) && f.payload[0] / 16
                == 1 && f.payload[0] % 16 * 256 + f.payload[1] == payload.len() && forall|i: int|
                0 <= i < 6 ==> #[trigger] f.payload[2 + i] == payload[i]
            &&& s.after_sent() == s.at(PhaseView::AwaitFlowControl { waits: 0 })
            &&& s.after_sent().action() == ActionView::Receive
        }),
{
    let s = SessionView::start(tx_id, rx_id, payload, opts);
    let f = s.action()->Send_0;
    assert(f.payload[0] == 0x10 + payload.len() / 256);
    assert(f.payload[1] == payload.len() % 256);
    assert forall|i: int| 0 <= i < 6 implies #[trigger] f.payload[2 + i] == payload[i] by {}
}

/// The exchange after what was due has been done: the frame sent, or the pause
/// made.
#[verifier::opaque]
pub open spec fn done(s: SessionView) -> SessionView {
    match s.action() {
        ActionView::Send(_) => s.after_sent(),
        ActionView::Pause(_) => s.after_pause(),
        _ => s,
    }
}

/// The exchange after what was due has been done so many times.
pub open spec fn done_times(s: SessionView, n: nat) -> SessionView
    decreases n,
{
    if n == 0 {
        s
    } else {
        done(done_times(s, (n - 1) as nat))
    }
}

/// Whether Flow Control with this payload clears the way without blocks, and asks
/// for frames to be so many milliseconds apart: up to 127 as they stand, less than
/// a millisecond as one, and a reserved value as the longest time.
pub open spec fn clears(data: Seq<u8>, st_min_ms: u8) -> bool {
    &&& data.len() >= 1
    &&& data[0] == 0x30
    &&& data.len() >= 2 ==> data[1] == 0
    &&& data.len() < 3 ==> st_min_ms == 0
    &&& data.len() >= 3 && data[2] <= 127 ==> st_min_ms == data[2]
    &&& data.len() >= 3 && 0xF1 <= data[2] <= 0xF9 ==> st_min_ms == 1
    &&& data.len() >= 3 && (127 < data[2] < 0xF1 || data[2] > 0xF9) ==> st_min_ms == 127
}

/// How many things have been done before the Consecutive Frame with this number,
/// counted from zero, is due: the frames before it and, where there is a
/// separation time, a pause behind each of them.
pub open spec fn done_before(j: nat, st_min_ms: u8) -> nat {
    if st_min_ms > 0 {
        2 * j
    } else {
        j
    }
}

#[verifier::rlimit(30)]
proof fn lemma_done_before(s: SessionView, j: nat, st_min_ms: u8)
    requires
        s.wf(),
        s.phase == (PhaseView::SendConsecutive { offset: 6, seq: 1, st_min_ms }),
        6 + 7 * j < s.payload.len(),
    ensures
        done_times(s, done_before(j, st_min_ms)) == s.at(
            PhaseView::SendConsecutive {
                offset: 6 + 7 * j,
                seq: ((j + 1) % 16) as u8,
                st_min_ms,
            },
        ),
    decreases j,
{
    if j == 0 {
        assert(done_times(s, 0) == s);
    } else {
        let i = (j - 1) as nat;
        lemma_done_before(s, i, st_min_ms);
        let n = done_before(i, st_min_ms);
        let t = done_times(s, n);
        lemma_one_frame_on(t, 6 + 7 * i, ((i + 1) % 16) as u8, st_min_ms);
        assert(done_times(s, n + 1) == done(t));
        if st_min_ms > 0 {
            assert(done_times(s, n + 2) == done(done_times(s, n + 1)));
            assert(done_before(j, st_min_ms) == n + 2);
        } else {
            assert(done_before(j, st_min_ms) == n + 1);
        }
    }
}

proof fn lemma_one_frame_on(s: SessionView, offset: nat, seq: u8, st_min_ms: u8)
    requires
        s.phase == (PhaseView::SendConsecutive { offset, seq, st_min_ms }),
        offset + 7 < s.payload.len(),
        seq < 16,
    ensures
        ({
            let next = s.at(
                PhaseView::SendConsecutive {
                    offset: offset + 7,
                    seq: ((seq + 1) % 16) as u8,
                    st_min_ms,
                },
            );
            &&& st_min_ms > 0 ==> done(done(s)) == next
            &&& st_min_ms == 0 ==> done(s) == next
        }),
{
    reveal(done);
}

/// Once Flow Control has cleared the way, the rest of a long request goes out in
/// frames of seven bytes, numbered from 1 on in the low four bits behind the digit
/// 2, the last one with padding. Between every two of them just the separation time
/// that was asked for passes, where there is one; behind the last the response is
/// due.
#[verifier::rlimit(30)]
pub proof fn law_separation_time_is_kept(s: SessionView, data: Seq<u8>, st_min_ms: u8, j: nat)
    requires
        s.wf(),
        s.phase is AwaitFlowControl,
        clears(data, st_min_ms),
        6 + 7 * j < s.payload.len(),
    ensures
        ({
            let n = done_before(j, st_min_ms);
            let here = done_times(s.after_data(data), n);
            let next = done_times(s.after_data(data), n + 1);
            &&& here.action() matches ActionView::Send(f) && goes_to_peer(f, s) && f.payload[0]
                == 0x20 + (j + 1) % 16 && forall|i: int|
                0 <= i < 7 ==> #[trigger] f.payload[1 + i] == if 6 + 7 * j + i < s.payload.len() {
                    s.payload[6 + 7 * j + i]
                } else {
                    s.padding
                }
            &&& 6 + 7 * (j + 1) < s.payload.len() && st_min_ms > 0 ==> next.action()
                == ActionView::Pause(st_min_ms)
            &&& 6 + 7 * (j + 1) < s.payload.len() && st_min_ms == 0 ==> next.action() is Send
            &&& 6 + 7 * (j + 1) >= s.payload.len() ==> next == s.at(PhaseView::AwaitResponse)
                && next.action() == ActionView::Receive
        }),
{
    reveal(done);
    let c = s.after_data(data);
    assert(c == s.at(PhaseView::SendConsecutive { offset: 6, seq: 1, st_min_ms }));
    lemma_done_before(c, j, st_min_ms);
    let n = done_before(j, st_min_ms);
    let here = done_times(c, n);
    assert(done_times(c, n + 1) == done(here));
    let f = here.action()->Send_0;
    assert forall|i: int| 0 <= i < 7 implies #[trigger] f.payload[1 + i] == if 6 + 7 * j + i
        < s.payload.len() {
        s.payload[6 + 7 * j + i]
    } else {
        s.padding
    } by {}
}

/// What any other frame of the peer does where Flow Control is due. An empty one
/// is passed over; one of another type fails the exchange; `Wait` is counted, and
/// one more than are tolerated fails it; so do `Overflow`, an unknown status, and
/// the wish for blocks.
pub proof fn law_flow_control_is_obeyed(s: SessionView, data: Seq<u8>, waits: nat)
    requires
        s.phase == (PhaseView::AwaitFlowControl { waits }),
    ensures
        data.len() == 0 ==> s.after_data(data) == s,
        data.len() > 0 && !(0x30 <= data[0] <= 0x3F) ==> s.after_data(data) == s.at(
            PhaseView::Failed(IsoTpError::NotFlowControl { pci: data[0] }),
        ),
        data.len() > 0 && data[0] == 0x31 && waits < s.max_waits ==> s.after_data(data) == s.at(
            PhaseView::AwaitFlowControl { waits: waits + 1 },
        ),
        data.len() > 0 && data[0] == 0x31 && waits >= s.max_waits ==> s.after_data(data) == s.at(
            PhaseView::Failed(IsoTpError::TooManyWaits { max: s.max_waits }),
        ),
        data.len() > 0 && data[0] == 0x32 ==> s.after_data(data) == s.at(
            PhaseView::Failed(IsoTpError::FlowControlOverflow),
        ),
        data.len() > 0 && 0x33 <= data[0] <= 0x3F ==> s.after_data(data) == s.at(
            PhaseView::Failed(IsoTpError::UnknownFlowStatus { status: (data[0] - 0x30) as u8 }),
        ),
        data.len() > 1 && data[0] == 0x30 && data[1] > 0 ==> s.after_data(data) == s.at(
            PhaseView::Failed(IsoTpError::BlockSizeUnsupported),
        ),
{
}

/// A Single Frame is the whole response, whatever stands behind it: its low four
/// bits are the length, and the bytes follow. A length of zero, of more than seven,
/// or of more than there are bytes, fails the exchange.
pub proof fn law_single_frame_is_the_response(s: SessionView, data: Seq<u8>)
    requires
        s.phase == PhaseView::AwaitResponse,
        data.len() > 0,
        data[0] < 0x10,
    ensures
        1 <= data[0] <= 7 && data[0] < data.len() ==> s.after_data(data) == s.at(
            PhaseView::Complete(data.subrange(1, 1 + data[0])),
        ),
        !(1 <= data[0] <= 7 && data[0] < data.len()) ==> s.after_data(data) == s.at(
            PhaseView::Failed(IsoTpError::BadSingleFrameLength { pci: data[0] }),
        ),
{
}

/// A First Frame is answered with Flow Control that clears the way, with the block
/// size and the separation time (of at most 127 ms) that were asked for. Then
/// Consecutive Frames are due, the first of them with number 1, unless the whole
/// response is there.
pub proof fn law_first_frame_is_answered(s: SessionView, data: Seq<u8>)
    requires
        s.phase == PhaseView::AwaitResponse,
        data.len() >= 2,
        0x10 <= data[0] < 0x20,
    ensures
        ({
            let total = ((data[0] - 0x10) * 256 + data[1]) as nat;
            let t = s.after_data(data);
            &&& total <= 7 ==> t == s.at(
                PhaseView::Failed(IsoTpError::FirstFrameTooSmall { total: total as usize }),
            )
            &&& total > 7 ==> {
                &&& t.action() matches ActionView::Send(f) && goes_to_peer(f, s) && f.payload[0]
                    == 0x30 && f.payload[1] == s.block_size && f.payload[2] == if s.st_min_ms
                    > 127 {
                    127
                } else {
                    s.st_min_ms
                } && forall|i: int| 3 <= i < 8 ==> #[trigger] f.payload[i] == s.padding
                &&& data.len() - 2 < total ==> t.after_sent() == s.at(
                    PhaseView::Collect { total, received: data.skip(2), expected: 1 },
                )
                &&& data.len() - 2 >= total ==> t.after_sent() == s.at(
                    PhaseView::Complete(data.subrange(2, 2 + total as int)),
                )
                &&& t.after_sent().action() == if data.len() - 2 < total {
                    ActionView::Receive
                } else {
                    ActionView::Finish
                }
            }
        }),
{
    let total = ((data[0] - 0x10) * 256 + data[1]) as nat;
    if total > 7 && data.len() - 2 < total {
        assert(data.subrange(2, data.len() as int) =~= data.skip(2));
    }
}

/// What cannot start a response fails the exchange.
pub proof fn law_bad_response_starts_fail(s: SessionView, data: Seq<u8>)
    requires
        s.phase == PhaseView::AwaitResponse,
    ensures
        data.len() == 0 ==> s.after_data(data) == s.at(
            PhaseView::Failed(IsoTpError::EmptyResponse),
        ),
        data.len() == 1 && 0x10 <= data[0] < 0x20 ==> s.after_data(data) == s.at(
            PhaseView::Failed(IsoTpError::FirstFrameTooShort),
        ),
        data.len() > 0 && 0x20 <= data[0] < 0x30 ==> s.after_data(data) == s.at(
            PhaseView::Failed(IsoTpError::UnsolicitedConsecutive),
        ),
        data.len() > 0 && 0x30 <= data[0] < 0x40 ==> s.after_data(data) == s.at(
            PhaseView::Failed(IsoTpError::UnexpectedFlowControl),
        ),
        data.len() > 0 && data[0] >= 0x40 ==> s.after_data(data) == s.at(
            PhaseView::Failed(IsoTpError::UnknownPci { pci: data[0] }),
        ),
{
}

/// A Consecutive Frame with the number that is due adds up to seven bytes, and no
/// more than are missing. Once none is missing the exchange is complete; else the
/// next number is due, with 0 behind 15. Any other frame fails it.
pub proof fn law_consecutive_frames_add_up(
    s: SessionView,
    total: nat,
    received: Seq<u8>,
    expected: u8,
    data: Seq<u8>,
)
    requires
        s.phase == (PhaseView::Collect { total, received, expected }),
        received.len() < total,
        expected < 16,
    ensures
        data.len() == 0 ==> s.after_data(data) == s.at(
            PhaseView::Failed(IsoTpError::NotConsecutive { pci: 0 }),
        ),
        data.len() > 0 && !(0x20 <= data[0] < 0x30) ==> s.after_data(data) == s.at(
            PhaseView::Failed(IsoTpError::NotConsecutive { pci: data[0] }),
        ),
        data.len() > 0 && 0x20 <= data[0] < 0x30 && data[0] != 0x20 + expected ==> s.after_data(
            data,
        ) == s.at(
            PhaseView::Failed(
                IsoTpError::SequenceMismatch { expected, got: (data[0] - 0x20) as u8 },
            ),
        ),
        data.len() > 0 && data[0] == 0x20 + expected ==> exists|n: int| {
            let all = received + #[trigger] data.subrange(1, 1 + n);
            &&& 0 <= n <= 7 && n < data.len() && received.len() + n <= total
            &&& n == 7 || n == data.len() - 1 || received.len() + n == total
            &&& received.len() + n < total ==> s.after_data(data) == s.at(
                PhaseView::Collect {
                    total,
                    received: all,
                    expected: if expected == 15 {
                        0
                    } else {
                        (expected + 1) as u8
                    },
                },
            )
            &&& received.len() + n == total ==> s.after_data(data) == s.at(
                PhaseView::Complete(all),
            )
        },
{
    if data.len() > 0 && data[0] == 0x20 + expected {
        let missing = total - received.len();
        let most = if missing < 7 {
            missing
        } else {
            7
        };
        let n = if data.len() - 1 < most {
            data.len() - 1
        } else {
            most
        };
        let more = data.subrange(1, 1 + n);
        assert(more.len() == n);
        assert(session::consecutive_of(missing as nat, expected, data) == Ok::<
            Seq<u8>,
            IsoTpError,
        >(more));
    }
}

/// The terms of an exchange never change; only what was due to happen moves it on:
/// a frame that was sent where one was to be sent, a pause where one was to be made,
/// a frame of the peer or the end of the time where a frame was waited for.
pub proof fn law_only_what_is_due_counts(s: SessionView, frame: FrameView)
    ensures
        s.after_sent() == s.at(s.after_sent().phase),
        s.after_pause() == s.at(s.after_pause().phase),
        s.after_deadline() == s.at(s.after_deadline().phase),
        s.after_frame(frame) == s.at(s.after_frame(frame).phase),
        frame.id == s.rx_id ==> s.after_frame(frame) == s.after_data(frame.payload),
        !(s.action() is Send) ==> s.after_sent() == s,
        !(s.action() is Pause) ==> s.after_pause() == s,
        !(s.action() is Receive) ==> s.after_deadline() == s && s.after_frame(frame) == s,
{
}

/// What was missing when the time ran out is what the failure says.
pub proof fn law_deadline_says_what_is_missing(s: SessionView)
    ensures
        s.phase is AwaitFlowControl ==> s.after_deadline() == s.at(
            PhaseView::Failed(IsoTpError::FlowControlTimeout),
        ),
        s.phase is AwaitResponse ==> s.after_deadline() == s.at(
            PhaseView::Failed(IsoTpError::NoResponse),
        ),
        s.phase is Collect ==> s.after_deadline() == s.at(
            PhaseView::Failed(IsoTpError::ConsecutiveTimeout),
        ),
{
}

/// What is wrong with a request is invalid input; what is wrong with a frame of the
/// peer is invalid data; what did not come in time timed out.
pub proof fn law_errors_have_their_categories(e: IsoTpError)
    ensures
        (e is EmptyPayload || e is PayloadTooLong) == (e.category() == ErrorKind::InvalidInput),
        (e is FlowControlTimeout || e is TooManyWaits || e is NoResponse || e is ConsecutiveTimeout)
            == (e.category() == ErrorKind::TimedOut),
        (e is FlowControlOverflow) == (e.category() == ErrorKind::Other),
        (e is BlockSizeUnsupported) == (e.category() == ErrorKind::Unsupported),
        (e is NotFlowControl || e is UnknownFlowStatus || e is EmptyResponse
            || e is BadSingleFrameLength || e is FirstFrameTooShort || e is FirstFrameTooSmall
            || e is NotConsecutive || e is SequenceMismatch || e is UnsolicitedConsecutive
            || e is UnexpectedFlowControl || e is UnknownPci) == (e.category()
            == ErrorKind::InvalidData),
{
}

/// Whether these are the payloads of a segmented response: the length behind the
/// digit 1 and six bytes, then seven bytes in each frame, numbered from 1 on behind
/// the digit 2; what stands behind the end does not matter.
pub open spec fn segmented_as(frames: Seq<Seq<u8>>, response: Seq<u8>) -> bool {
    &&& frames.len() > 1
    &&& 6 + 7 * (frames.len() - 2) < response.len() <= 6 + 7 * (frames.len() - 1)
    &&& frames[0].len() == 8
    &&& 0x10 <= frames[0][0] < 0x20
    &&& (frames[0][0] - 0x10) * 256 + frames[0][1] == response.len()
    &&& forall|i: int| 0 <= i < 6 ==> #[trigger] frames[0][2 + i] == response[i]
    &&& forall|k: int|
        1 <= k < frames.len() ==> (#[trigger] frames[k]).len() == 8 && frames[k][0] == 0x20 + k
            % 16
    &&& forall|k: int, i: int|
        1 <= k < frames.len() && 0 <= i < 7 && 7 * k - 1 + i < response.len() ==> (
        #[trigger] frames[k][1 + i]) == response[7 * k - 1 + i]
}

/// A response of 8 to 4095 bytes that comes in frames is put together again,
/// whatever stands behind its end.
pub proof fn law_segmented_response_is_put_together(
    s: SessionView,
    frames: Seq<Seq<u8>>,
    response: Seq<u8>,
)
    requires
        s.phase == PhaseView::AwaitResponse,
        8 <= response.len() <= 4095,
        segmented_as(frames, response),
    ensures
        after_hearing(s, frames) == s.at(PhaseView::Complete(response)),
{
    law_first_frame_is_answered(s, frames[0]);
    assert(frames[0].skip(2) =~= response.take(6)) by {
        assert forall|i: int| 0 <= i < 6 implies frames[0].skip(2)[i] == response[i] by {
            assert(frames[0][2 + i] == response[i]);
        }
    }
    let u = s.at(
        PhaseView::Collect { total: response.len(), received: response.take(6), expected: 1 },
    );
    assert(s.after_data(frames[0]).phase is SendFlowControl);
    assert(s.after_data(frames[0]).after_sent() == u);
    lemma_put_together(u, frames, response, 1);
}

#[verifier::rlimit(30)]
proof fn lemma_put_together(s: SessionView, frames: Seq<Seq<u8>>, response: Seq<u8>, k: int)
    requires
        8 <= response.len() <= 4095,
        segmented_as(frames, response),
        1 <= k < frames.len(),
        s.phase == (PhaseView::Collect {
            total: response.len(),
            received: response.take(7 * k - 1),
            expected: (k % 16) as u8,
        }),
    ensures
        after_hearing(s, frames.skip(k)) == s.at(PhaseView::Complete(response)),
    decreases frames.len() - k,
{
    let f = frames[k];
    let received = response.take(7 * k - 1);
    let rest = frames.skip(k);
    assert(rest[0] == f);
    assert(rest.skip(1) =~= frames.skip(k + 1));
    let missing = response.len() - received.len();
    let n = if missing < 7 {
        missing
    } else {
        7
    };
    assert(f[0] == 0x20 + k % 16);
    assert(received + f.subrange(1, 1 + n) =~= response.take(7 * k - 1 + n)) by {
        let part = f.subrange(1, 1 + n);
        assert forall|i: int| 0 <= i < n implies #[trigger] part[i] == response[7 * k - 1 + i] by {
            assert(frames[k][1 + i] == response[7 * k - 1 + i]);
        }
    }
    let t = s.after_data(f);
    if missing <= 7 {
        assert(response.take(7 * k - 1 + n) =~= response);
        assert(t == s.at(PhaseView::Complete(response)));
        assert(k == frames.len() - 1);
        assert(rest.skip(1).len() == 0);
        assert(after_hearing(t, rest.skip(1)) == t);
    } else {
        assert(k + 1 < frames.len());
        assert(t.phase == (PhaseView::Collect {
            total: response.len(),
            received: response.take(7 * (k + 1) - 1),
            expected: ((k + 1) % 16) as u8,
        }));
        lemma_put_together(t, frames, response, k + 1);
    }
}

} // verus!
