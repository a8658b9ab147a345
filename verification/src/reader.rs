//! Fan-out of received frames to any number of subscribers.
//!
//! A reading thread drains a socket in batches and hands every frame to every
//! [`Subscriber`]. Each subscriber has its own queue: a slow one only stalls
//! itself, never the others, never the reader, never the kernel.
//!
//! [`Registry`] holds the reader's ends of the subscriptions, each a [`Feed`];
//! [`Registry::fan_out`] offers a batch to all of them, and takes out the ones whose
//! subscriber turned out to be gone.
//!
//! # Bounded vs unbounded
//!
//! [`Registry::subscribe`] gives an unbounded queue: no frame is lost as long as
//! there is memory. [`Registry::subscribe_bounded`] caps the queue: when it is
//! full, new frames for that subscriber are dropped and counted in
//! [`Subscriber::dropped`].
use std::sync::atomic::{AtomicU64, Ordering};
use std::sync::Arc;
use std::time::Duration;

use crossbeam_channel::{Receiver, Sender, TrySendError};
use vstd::prelude::*;

use crate::frame::Frame;
use crate::socket::SocketError;
use crate::time::TimeSpan;

verus! {

// ---------------------------------------------------------------------------
// Channels

/// The sending end of a channel of `crossbeam_channel`.
#[verifier::external_type_specification]
#[verifier::external_body]
#[verifier::reject_recursive_types(T)]
pub struct ExSender<T>(crossbeam_channel::Sender<T>);

/// The receiving end of a channel of `crossbeam_channel`.
#[verifier::external_type_specification]
#[verifier::external_body]
#[verifier::reject_recursive_types(T)]
pub struct ExReceiver<T>(crossbeam_channel::Receiver<T>);

/// How many messages the channel behind a sender can hold; `None` for any
/// number.
pub uninterp spec fn sender_capacity(s: Sender<Frame>) -> Option<nat>;

/// How many messages the channel behind a receiver can hold; `None` for any
/// number.
pub uninterp spec fn receiver_capacity(r: Receiver<Frame>) -> Option<nat>;

/// The messages that may be put into the channel behind a sender.
pub uninterp spec fn sender_admits(s: Sender<Frame>) -> Set<Frame>;

/// The messages that may come out of the channel behind a receiver.
pub uninterp spec fn receiver_admits(r: Receiver<Frame>) -> Set<Frame>;

/// Whether a sender and a receiver are the two ends of one channel.
pub uninterp spec fn joined(s: Sender<Frame>, r: Receiver<Frame>) -> bool;

/// Something that came to pass on a channel.
pub enum Occurrence {
    /// A frame was offered to it, with this outcome.
    Offer(SendOutcome),
    /// It held so many messages.
    Held(nat),
    /// Somebody waited so long for a message, and none came.
    WaitedInVain { secs: u64, subsec_nanos: u32 },
    /// Every sender was gone, and no message was left.
    Closed,
}

/// Whether this came to pass on the channel behind a sender, at some time.
pub uninterp spec fn came_of(s: Sender<Frame>, o: Occurrence) -> bool;

/// Whether this came to pass on the channel behind a receiver, at some time.
pub open spec fn seen(r: Receiver<Frame>, o: Occurrence) -> bool {
    forall|s: Sender<Frame>| #[trigger] joined(s, r) ==> came_of(s, o)
}

/// Whether every sender of the channel behind a receiver was gone, and no message
/// was left in it, at some time. It stays so.
pub open spec fn disconnected(r: Receiver<Frame>) -> bool {
    seen(r, Occurrence::Closed)
}

/// What came of the frames that were offered through a sender up to now, in order.
pub uninterp spec fn offered(s: Sender<Frame>) -> Seq<SendOutcome>;

/// [`crossbeam_channel::unbounded`] makes a channel that can hold any number of
/// messages, and hands out its two ends; nothing was offered to it yet. Well-formed
/// frames are to be put into it, and so they come out.
#[verifier::external_body]
fn new_unbounded() -> (c: (Sender<Frame>, Receiver<Frame>))
    ensures
        joined(c.0, c.1),
        offered(c.0) == Seq::<SendOutcome>::empty(),
        sender_capacity(c.0) is None,
        receiver_capacity(c.1) is None,
        forall|f: Frame| #[trigger] sender_admits(c.0).contains(f) == f.wf(),
        forall|f: Frame| #[trigger] receiver_admits(c.1).contains(f) == f.wf(),
{
    crossbeam_channel::unbounded()
}

/// [`crossbeam_channel::bounded`] makes a channel that can hold `capacity`
/// messages, and hands out its two ends; nothing was offered to it yet. It allocates
/// room for all the messages at once, and panics where that would be more than the
/// address space: a slot takes less than 128 bytes.
/// Well-formed frames are to be put into the channel, and so they come out.
#[verifier::external_body]
fn new_bounded(capacity: usize) -> (c: (Sender<Frame>, Receiver<Frame>))
    requires
        capacity <= isize::MAX / 128,
    ensures
        joined(c.0, c.1),
        offered(c.0) == Seq::<SendOutcome>::empty(),
        sender_capacity(c.0) == Some(capacity as nat),
        receiver_capacity(c.1) == Some(capacity as nat),
        forall|f: Frame| #[trigger] sender_admits(c.0).contains(f) == f.wf(),
        forall|f: Frame| #[trigger] receiver_admits(c.1).contains(f) == f.wf(),
{
    crossbeam_channel::bounded(capacity)
}

/// What came of offering a frame to a queue.
#[derive(Clone, Copy, Debug)]
pub enum SendOutcome {
    /// The frame is in the queue.
    Delivered(Frame),
    /// The queue was full; the frame is lost.
    Full(Frame),
    /// There is nobody left to take the frame.
    Disconnected(Frame),
}

/// What may come of offering a frame to a queue.
#[derive(Clone, Copy, Debug, PartialEq, Eq, Structural)]
pub enum Fate {
    /// It is in the queue.
    Delivered,
    /// The queue was full.
    Full,
    /// There is nobody left to take it.
    Disconnected,
}

impl SendOutcome {
    /// The frame that was offered.
    pub open spec fn frame(self) -> Frame {
        match self {
            SendOutcome::Delivered(f) => f,
            SendOutcome::Full(f) => f,
            SendOutcome::Disconnected(f) => f,
        }
    }

    /// What became of it.
    pub open spec fn fate(self) -> Fate {
        match self {
            SendOutcome::Delivered(_) => Fate::Delivered,
            SendOutcome::Full(_) => Fate::Full,
            SendOutcome::Disconnected(_) => Fate::Disconnected,
        }
    }

    /// What it adds to the counts.
    pub fn increment(&self) -> (i: Counts)
        ensures
            i.received == if self.fate() == Fate::Delivered {
                1u64
            } else {
                0
            },
            i.dropped == if self.fate() == Fate::Full {
                1u64
            } else {
                0
            },
    {
        match self {
            SendOutcome::Delivered(_) => Counts { received: 1, dropped: 0 },
            SendOutcome::Full(_) => Counts { received: 0, dropped: 1 },
            SendOutcome::Disconnected(_) => Counts { received: 0, dropped: 0 },
        }
    }
}

/// What a subscriber is told of the frames that were offered to it.
#[derive(Clone, Copy, Debug, PartialEq, Eq, Structural)]
pub struct Counts {
    /// Frames that went into the queue.
    pub received: u64,
    /// Frames that were lost because the queue was full.
    pub dropped: u64,
}

/// [`Sender::try_send`] is one offer of the message to the channel: it puts it in,
/// or gives it back where the channel is full or all its receivers are gone. A
/// channel without a limit is never full. Otherwise it depends on the receiving
/// side which of these happens, and nothing is said of it. The sender stays that of
/// the same channel. This is the only way into a channel, so what comes out of one
/// is what it admits.
///
/// The outside function takes the sender by a shared reference. Here it is taken
/// by a mutable one, so that nothing else is offered through it meanwhile.
#[verifier::external_body]
fn try_send(tx: &mut Sender<Frame>, frame: Frame) -> (o: SendOutcome)
    requires
        sender_admits(*old(tx)).contains(frame),
    ensures
        o.frame() == frame,
        sender_capacity(*old(tx)) is None ==> !(o is Full),
        offered(*final(tx)) == offered(*old(tx)).push(o),
        came_of(*final(tx), Occurrence::Offer(o)),
        forall|p: Occurrence| #[trigger] came_of(*final(tx), p) == came_of(*old(tx), p),
        forall|r: Receiver<Frame>| #[trigger] joined(*final(tx), r) == joined(*old(tx), r),
        sender_capacity(*final(tx)) == sender_capacity(*old(tx)),
        sender_admits(*final(tx)) == sender_admits(*old(tx)),
{
    match tx.try_send(frame) {
        Ok(()) => SendOutcome::Delivered(frame),
        Err(TrySendError::Full(back)) => SendOutcome::Full(back),
        Err(TrySendError::Disconnected(back)) => SendOutcome::Disconnected(back),
    }
}

/// [`Receiver::recv`] waits for a message; it fails only once the channel is empty
/// and all senders are gone. It hands out nothing but what an offer at the other end
/// put in. Which message that is, and when, depends on the sending side; nothing is
/// said of it.
#[verifier::external_body]
fn wait_for_frame(rx: &Receiver<Frame>) -> (r: Option<Frame>)
    ensures
        r matches Some(f) ==> receiver_admits(*rx).contains(f),
        r matches Some(f) ==> seen(*rx, Occurrence::Offer(SendOutcome::Delivered(f))),
        r is None ==> disconnected(*rx),
{
    rx.recv().ok()
}

/// [`Receiver::recv_timeout`] waits for a message, for so long at most; it fails
/// only after that time, or once the channel is empty and all senders are gone. It
/// hands out nothing but what an offer at the other end put in. Which message that is,
/// and when, depends on the sending side; nothing is said of it.
#[verifier::external_body]
fn wait_for_frame_until(rx: &Receiver<Frame>, secs: u64, subsec_nanos: u32) -> (r: Option<Frame>)
    requires
        subsec_nanos < 1_000_000_000,
    ensures
        r matches Some(f) ==> receiver_admits(*rx).contains(f),
        r matches Some(f) ==> seen(*rx, Occurrence::Offer(SendOutcome::Delivered(f))),
        r is None ==> disconnected(*rx) || seen(
            *rx,
            Occurrence::WaitedInVain { secs, subsec_nanos },
        ),
{
    rx.recv_timeout(Duration::new(secs, subsec_nanos)).ok()
}

/// [`Receiver::try_recv`] takes a message out of the channel; it fails only where
/// there is none. It hands out nothing but what an offer at the other end put in. Which message that
/// is, and whether there is one, depends on the sending side; nothing is said of it.
#[verifier::external_body]
fn take_frame(rx: &Receiver<Frame>) -> (r: Option<Frame>)
    ensures
        r matches Some(f) ==> receiver_admits(*rx).contains(f),
        r matches Some(f) ==> seen(*rx, Occurrence::Offer(SendOutcome::Delivered(f))),
        r is None ==> seen(*rx, Occurrence::Held(0)),
{
    rx.try_recv().ok()
}

/// [`Receiver::len`] is the number of messages in the channel at the time, which
/// never goes beyond what it can hold.
#[verifier::external_body]
fn frames_in(rx: &Receiver<Frame>) -> (n: usize)
    ensures
        receiver_capacity(*rx) matches Some(c) ==> n <= c,
        seen(*rx, Occurrence::Held(n as nat)),
{
    rx.len()
}

/// [`Arc::clone`] makes another handle to the same value.
#[verifier::external_body]
fn share<T>(a: &Arc<T>) -> (r: Arc<T>)
    ensures
        r == *a,
{
    a.clone()
}

// ---------------------------------------------------------------------------
// Counters

/// What became of the frames that were offered to a subscriber, written by the
/// reader and read by the subscriber.
pub struct Counters {
    received: AtomicU64,
    /// A queue without a limit drops nothing, and has nothing to count.
    dropped: Option<AtomicU64>,
}

impl Counters {
    /// Whether these are the counts of a queue without a limit.
    pub closed spec fn unbounded(&self) -> bool {
        self.dropped is None
    }

    fn unlimited() -> (c: Self)
        ensures
            c.unbounded(),
    {
        Counters { received: AtomicU64::new(0), dropped: None }
    }

    fn limited() -> (c: Self)
        ensures
            !c.unbounded(),
    {
        Counters { received: AtomicU64::new(0), dropped: Some(AtomicU64::new(0)) }
    }

    /// How many frames went into the queue, as the reader last wrote it. Nothing is
    /// proved of what the counter holds: another thread writes it.
    pub fn received(&self) -> (n: u64) {
        self.received.load(Ordering::Relaxed)
    }

    /// How many frames were lost because the queue was full, as the reader last
    /// wrote it. Nothing is proved of what the counter of a bounded queue holds:
    /// another thread writes it.
    pub fn dropped(&self) -> (n: u64)
        ensures
            self.unbounded() ==> n == 0,
    {
        match &self.dropped {
            Some(n) => n.load(Ordering::Relaxed),
            None => 0,
        }
    }

    /// Lets the subscriber know the counts.
    fn publish(&self, counts: Counts) {
        self.received.store(counts.received, Ordering::Relaxed);
        if let Some(n) = &self.dropped {
            n.store(counts.dropped, Ordering::Relaxed);
        }
    }
}

/// What came of offering a batch of frames to a subscriber.
#[derive(Clone, Copy, Debug, PartialEq, Eq, Structural)]
pub struct Tally {
    /// Frames that went into the queue.
    pub received: u64,
    /// Frames that were lost because the queue was full.
    pub dropped: u64,
    /// Whether the subscriber turned out to be gone.
    pub disconnected: bool,
}

/// How many of the frames that were offered had the given fate.
pub open spec fn how_many(outcomes: Seq<SendOutcome>, fate: Fate) -> nat
    decreases outcomes.len(),
{
    if outcomes.len() == 0 {
        0
    } else {
        how_many(outcomes.drop_last(), fate) + if outcomes.last().fate() == fate {
            1nat
        } else {
            0
        }
    }
}

/// The three fates account for every frame that was offered.
pub proof fn law_every_frame_is_accounted_for(outcomes: Seq<SendOutcome>)
    ensures
        how_many(outcomes, Fate::Delivered) + how_many(outcomes, Fate::Full) + how_many(
            outcomes,
            Fate::Disconnected,
        ) == outcomes.len(),
    decreases outcomes.len(),
{
    if outcomes.len() > 0 {
        law_every_frame_is_accounted_for(outcomes.drop_last());
    }
}

proof fn lemma_how_many_none(outcomes: Seq<SendOutcome>, fate: Fate)
    requires
        forall|i: int| 0 <= i < outcomes.len() ==> (#[trigger] outcomes[i]).fate() != fate,
    ensures
        how_many(outcomes, fate) == 0,
    decreases outcomes.len(),
{
    if outcomes.len() > 0 {
        let s0 = outcomes.drop_last();
        assert forall|i: int| 0 <= i < s0.len() implies (#[trigger] s0[i]).fate() != fate by {
            assert(s0[i] == outcomes[i]);
        }
        lemma_how_many_none(s0, fate);
    }
}

impl Tally {
    /// Whether this is what came of a batch with the given outcomes.
    pub open spec fn counts(self, outcomes: Seq<SendOutcome>) -> bool {
        &&& self.received == how_many(outcomes, Fate::Delivered)
        &&& self.dropped == how_many(outcomes, Fate::Full)
        &&& self.disconnected == (how_many(outcomes, Fate::Disconnected) > 0)
    }
}

/// Counts the outcomes of a batch.
pub fn tally(outcomes: &[SendOutcome]) -> (t: Tally)
    ensures
        t.counts(outcomes@),
{
    let mut t = Tally { received: 0, dropped: 0, disconnected: false };
    assert(outcomes@.take(0) =~= Seq::<SendOutcome>::empty());
    for i in 0..outcomes.len()
        invariant
            t.received == how_many(outcomes@.take(i as int), Fate::Delivered),
            t.dropped == how_many(outcomes@.take(i as int), Fate::Full),
            t.disconnected == (how_many(outcomes@.take(i as int), Fate::Disconnected) > 0),
            t.received <= i,
            t.dropped <= i,
    {
        assert(outcomes@.take(i + 1).drop_last() =~= outcomes@.take(i as int));
        let more = outcomes[i].increment();
        t.received = t.received + more.received;
        t.dropped = t.dropped + more.dropped;
        if matches!(outcomes[i], SendOutcome::Disconnected(_)) {
            t.disconnected = true;
        }
    }
    assert(outcomes@.take(outcomes@.len() as int) =~= outcomes@);
    t
}

// ---------------------------------------------------------------------------
// Subscribers

/// A subscription. Holds a private queue of frames; drop it to unsubscribe.
pub struct Subscriber {
    rx: Receiver<Frame>,
    counters: Arc<Counters>,
}

impl Subscriber {
    #[verifier::type_invariant]
    spec fn inv(self) -> bool {
        &&& self.counters.unbounded() == (receiver_capacity(self.rx) is None)
        &&& forall|f: Frame| #[trigger] receiver_admits(self.rx).contains(f) ==> f.wf()
    }

    /// How many frames the queue can hold; `None` for any number.
    pub closed spec fn capacity(&self) -> Option<nat> {
        receiver_capacity(self.rx)
    }

    /// The end of the channel that frames come out of.
    pub closed spec fn receiver(&self) -> Receiver<Frame> {
        self.rx
    }

    /// Whether the reader delivered the frame to this subscriber.
    pub open spec fn was_given(&self, f: Frame) -> bool {
        forall|feed: Feed| #[trigger]
            feed.serves(self) ==> feed.gave(seq![SendOutcome::Delivered(f)])
    }

    /// Whether somebody waited that long for a frame at this queue, and none came,
    /// at some time.
    pub open spec fn waited_in_vain(&self, dur: TimeSpan) -> bool {
        exists|secs: u64, subsec_nanos: u32|
            secs * 1_000_000_000 + subsec_nanos == dur.nanos() && #[trigger] seen(
                self.receiver(),
                Occurrence::WaitedInVain { secs, subsec_nanos },
            )
    }

    /// Whether there were so many frames in the queue, at some time.
    pub open spec fn held(&self, n: nat) -> bool {
        seen(self.receiver(), Occurrence::Held(n))
    }

    /// Block until a frame is available, or the reader has shut down (and
    /// the queue is drained), in which case `None`.
    pub fn recv(&self) -> (r: Option<Frame>)
        ensures
            r matches Some(f) ==> f.wf() && self.was_given(f),
            r is None ==> disconnected(self.receiver()),
    {
        proof {
            use_type_invariant(self);
        }
        wait_for_frame(&self.rx)
    }

    /// Like [`Subscriber::recv`] with a timeout.
    pub fn recv_timeout(&self, dur: TimeSpan) -> (r: Option<Frame>)
        requires
            dur.wf(),
        ensures
            r matches Some(f) ==> f.wf() && self.was_given(f),
            r is None ==> disconnected(self.receiver()) || self.waited_in_vain(dur),
    {
        proof {
            use_type_invariant(self);
        }
        let secs = dur.as_secs();
        let subsec_nanos = dur.subsec_nanos();
        wait_for_frame_until(&self.rx, secs, subsec_nanos)
    }

    /// Non-blocking pop.
    pub fn try_recv(&self) -> (r: Option<Frame>)
        ensures
            r matches Some(f) ==> f.wf() && self.was_given(f),
            r is None ==> self.held(0),
    {
        proof {
            use_type_invariant(self);
        }
        take_frame(&self.rx)
    }

    /// Total frames this subscriber has received since creation (including
    /// frames still queued). Nothing is proved of what the counter holds: the
    /// reader writes it meanwhile.
    pub fn received(&self) -> (n: u64) {
        self.counters.received()
    }

    /// Frames the reader had to drop because this subscriber's bounded queue
    /// was full. Always 0 for unbounded subscribers; nothing is proved of what the
    /// counter of a bounded one holds, since the reader writes it meanwhile.
    pub fn dropped(&self) -> (n: u64)
        ensures
            self.capacity() is None ==> n == 0,
    {
        proof {
            use_type_invariant(self);
        }
        self.counters.dropped()
    }

    /// Frames currently sitting in this subscriber's queue (not yet consumed).
    /// Never more than the queue can hold.
    pub fn pending(&self) -> (n: usize)
        ensures
            self.capacity() matches Some(c) ==> n <= c,
            self.held(n as nat),
    {
        frames_in(&self.rx)
    }

    /// Borrow the underlying [`crossbeam_channel::Receiver`] for use with
    /// `select!` and other crossbeam primitives.
    pub fn as_receiver(&self) -> (r: &Receiver<Frame>)
        ensures
            *r == self.receiver(),
            receiver_capacity(*r) == self.capacity(),
    {
        &self.rx
    }
}

/// The reader's end of a subscription.
pub struct Feed {
    tx: Sender<Frame>,
    counters: Arc<Counters>,
    counts: Counts,
}

/// Whether these can be the outcomes of offering the frames, one after the other,
/// until there is nobody left to take them.
pub open spec fn is_run(outcomes: Seq<SendOutcome>, frames: Seq<Frame>) -> bool {
    &&& outcomes.len() <= frames.len()
    &&& forall|i: int|
        0 <= i < outcomes.len() ==> (#[trigger] outcomes[i]).frame() == frames[i]
    &&& forall|i: int|
        0 <= i < outcomes.len() - 1 ==> (#[trigger] outcomes[i]).fate() != Fate::Disconnected
    &&& outcomes.len() < frames.len() ==> outcomes.len() > 0 && outcomes.last().fate()
        == Fate::Disconnected
}

/// What a counter of 64 bits shows of a number.
pub open spec fn shown(n: nat) -> nat {
    n % 0x1_0000_0000_0000_0000
}

impl Feed {
    /// What came of the frames that were offered up to now, in order.
    pub closed spec fn log(&self) -> Seq<SendOutcome> {
        offered(self.tx)
    }

    /// The end of the channel that frames are offered to.
    pub closed spec fn sender(&self) -> Sender<Frame> {
        self.tx
    }

    /// How many frames the queue can hold; `None` for any number.
    pub closed spec fn capacity(&self) -> Option<nat> {
        sender_capacity(self.tx)
    }

    /// Whether the subscriber is at the other end: what is offered here goes into
    /// its queue, and what is counted here is what it reads.
    pub closed spec fn serves(&self, s: &Subscriber) -> bool {
        joined(self.tx, s.rx) && self.counters == s.counters
    }

    /// Whether each of these came of offering a frame to this queue, at some time.
    pub closed spec fn gave(&self, outcomes: Seq<SendOutcome>) -> bool {
        forall|i: int|
            0 <= i < outcomes.len() ==> came_of(
                self.tx,
                Occurrence::Offer(#[trigger] outcomes[i]),
            )
    }

    /// What the subscriber is told.
    pub closed spec fn told(&self) -> Counts {
        self.counts
    }

    /// Whether the counts are those of the frames that were offered, and nothing
    /// was dropped from a queue without a limit.
    pub closed spec fn wf(&self) -> bool {
        &&& self.counters.unbounded() == (sender_capacity(self.tx) is None)
        &&& forall|f: Frame| f.wf() ==> #[trigger] sender_admits(self.tx).contains(f)
        &&& self.counts.received == shown(how_many(self.log(), Fate::Delivered))
        &&& self.counts.dropped == shown(how_many(self.log(), Fate::Full))
        &&& self.capacity() is None ==> how_many(self.log(), Fate::Full) == 0
        &&& self.gave(self.log())
    }

    /// Whether this is the same subscription as before, to which nothing but the
    /// given frames were offered since then, each once and in order, until there
    /// was nobody left to take them, and the tally is what came of these.
    pub open spec fn follows(&self, before: &Feed, frames: Seq<Frame>, t: Tally) -> bool {
        let n = before.log().len();
        &&& self.capacity() == before.capacity()
        &&& forall|s: Subscriber| #[trigger] self.serves(&s) == before.serves(&s)
        &&& n <= self.log().len()
        &&& self.log().take(n as int) == before.log()
        &&& is_run(self.log().skip(n as int), frames)
        &&& t.counts(self.log().skip(n as int))
        &&& t.received + t.dropped <= frames.len()
        &&& !t.disconnected ==> t.received + t.dropped == frames.len()
        &&& self.capacity() is None ==> t.dropped == 0
    }

    fn over(c: (Sender<Frame>, Receiver<Frame>), counters: Counters) -> (r: (Feed, Subscriber))
        requires
            joined(c.0, c.1),
            offered(c.0) == Seq::<SendOutcome>::empty(),
            sender_capacity(c.0) == receiver_capacity(c.1),
            counters.unbounded() == (sender_capacity(c.0) is None),
            forall|f: Frame| #[trigger] sender_admits(c.0).contains(f) == f.wf(),
            forall|f: Frame| #[trigger] receiver_admits(c.1).contains(f) == f.wf(),
        ensures
            r.0.wf(),
            r.0.log() == Seq::<SendOutcome>::empty(),
            r.0.capacity() == sender_capacity(c.0),
            r.1.capacity() == sender_capacity(c.0),
            r.0.serves(&r.1),
    {
        let counters = Arc::new(counters);
        let counts = Counts { received: 0, dropped: 0 };
        let feed = Feed { tx: c.0, counters: share(&counters), counts };
        let subscriber = Subscriber { rx: c.1, counters };
        (feed, subscriber)
    }

    /// A subscription with an unbounded queue, and its subscriber.
    pub fn unbounded() -> (r: (Feed, Subscriber))
        ensures
            r.0.wf(),
            r.0.log() == Seq::<SendOutcome>::empty(),
            r.0.capacity() is None,
            r.1.capacity() is None,
            r.0.serves(&r.1),
    {
        Feed::over(new_unbounded(), Counters::unlimited())
    }

    /// A subscription with a queue of `capacity`, and its subscriber.
    pub fn bounded(capacity: usize) -> (r: (Feed, Subscriber))
        requires
            capacity <= isize::MAX / 128,
        ensures
            r.0.wf(),
            r.0.log() == Seq::<SendOutcome>::empty(),
            r.0.capacity() == Some(capacity as nat),
            r.1.capacity() == Some(capacity as nat),
            r.0.serves(&r.1),
    {
        Feed::over(new_bounded(capacity), Counters::limited())
    }

    /// What the subscriber is told: how many of the frames that were offered went
    /// into its queue, and how many were lost because it was full.
    pub fn counts(&self) -> (c: Counts)
        requires
            self.wf(),
        ensures
            c == self.told(),
            c.received == shown(how_many(self.log(), Fate::Delivered)),
            c.dropped == shown(how_many(self.log(), Fate::Full)),
            self.capacity() is None ==> c.dropped == 0,
    {
        self.counts
    }

    /// Offers one frame to the queue, and counts it for the subscriber.
    fn offer_one(&mut self, frame: Frame) -> (o: SendOutcome)
        requires
            old(self).wf(),
            frame.wf(),
        ensures
            final(self).wf(),
            o.frame() == frame,
            old(self).capacity() is None ==> o.fate() != Fate::Full,
            final(self).log() == old(self).log().push(o),
            final(self).capacity() == old(self).capacity(),
            forall|s: Subscriber| #[trigger] final(self).serves(&s) == old(self).serves(&s),
    {
        let o = try_send(&mut self.tx, frame);
        let more = o.increment();
        self.counts = Counts {
            received: self.counts.received.wrapping_add(more.received),
            dropped: self.counts.dropped.wrapping_add(more.dropped),
        };
        self.counters.publish(self.counts);
        proof {
            assert(self.log().drop_last() =~= old(self).log());
            assert(self.log().last() == o);
            assert forall|i: int| 0 <= i < self.log().len() implies came_of(
                self.tx,
                Occurrence::Offer(#[trigger] self.log()[i]),
            ) by {
                if i < old(self).log().len() {
                    assert(self.log()[i] == old(self).log()[i]);
                }
            }
        }
        o
    }

    /// Offers the frames to the queue, each once and in order, until there is
    /// nobody left to take them, and counts each for the subscriber. A queue
    /// without a limit is never full.
    pub fn offer(&mut self, frames: &[Frame]) -> (outcomes: Vec<SendOutcome>)
        requires
            old(self).wf(),
            forall|i: int| 0 <= i < frames@.len() ==> (#[trigger] frames@[i]).wf(),
        ensures
            final(self).wf(),
            is_run(outcomes@, frames@),
            final(self).log() == old(self).log() + outcomes@,
            old(self).capacity() is None ==> forall|i: int|
                0 <= i < outcomes@.len() ==> (#[trigger] outcomes@[i]).fate() != Fate::Full,
            final(self).capacity() == old(self).capacity(),
            forall|s: Subscriber| #[trigger] final(self).serves(&s) == old(self).serves(&s),
    {
        let mut outcomes: Vec<SendOutcome> = Vec::new();
        assert(old(self).log() + outcomes@ =~= old(self).log());
        for i in 0..frames.len()
            invariant
                self.wf(),
                forall|j: int| 0 <= j < frames@.len() ==> (#[trigger] frames@[j]).wf(),
                self.log() == old(self).log() + outcomes@,
                self.capacity() == old(self).capacity(),
                forall|s: Subscriber| #[trigger] self.serves(&s) == old(self).serves(&s),
                outcomes@.len() == i,
                forall|j: int| 0 <= j < i ==> (#[trigger] outcomes@[j]).frame() == frames@[j],
                forall|j: int|
                    0 <= j < i ==> (#[trigger] outcomes@[j]).fate() != Fate::Disconnected,
                self.capacity() is None ==> forall|j: int|
                    0 <= j < i ==> (#[trigger] outcomes@[j]).fate() != Fate::Full,
        {
            let ghost before = outcomes@;
            let o = self.offer_one(frames[i]);
            outcomes.push(o);
            assert((old(self).log() + before).push(o) =~= old(self).log() + outcomes@);
            if matches!(o, SendOutcome::Disconnected(_)) {
                return outcomes;
            }
        }
        outcomes
    }

    /// Offers the frames to the queue and says what came of it.
    pub fn deliver(&mut self, frames: &[Frame]) -> (t: Tally)
        requires
            old(self).wf(),
            forall|i: int| 0 <= i < frames@.len() ==> (#[trigger] frames@[i]).wf(),
        ensures
            final(self).wf(),
            final(self).follows(&*old(self), frames@, t),
    {
        let outcomes = self.offer(frames);
        let t = tally(outcomes.as_slice());
        proof {
            let n = old(self).log().len() as int;
            assert(self.log().take(n) =~= old(self).log());
            assert(self.log().skip(n) =~= outcomes@);
            law_every_frame_is_accounted_for(outcomes@);
            if self.capacity() is None {
                lemma_how_many_none(outcomes@, Fate::Full);
            }
        }
        t
    }
}

// ---------------------------------------------------------------------------
// Registry

/// The subscribers of a reader.
pub struct Registry {
    feeds: Vec<Feed>,
}

/// Whether the subscriptions are those from before, after a batch was offered to
/// each of them, and the tallies are what came of it.
pub open spec fn all_follow(
    after: Seq<Feed>,
    before: Seq<Feed>,
    frames: Seq<Frame>,
    tallies: Seq<Tally>,
) -> bool {
    &&& after.len() == before.len()
    &&& tallies.len() == before.len()
    &&& forall|i: int|
        0 <= i < after.len() ==> (#[trigger] after[i]).wf() && after[i].follows(
            &before[i],
            frames,
            tallies[i],
        )
}

/// The subscriptions whose subscriber did not turn out to be gone, in order.
pub open spec fn staying(feeds: Seq<Feed>, tallies: Seq<Tally>) -> Seq<Feed>
    decreases feeds.len(),
{
    if feeds.len() == 0 {
        Seq::<Feed>::empty()
    } else {
        let before = staying(feeds.drop_last(), tallies);
        if tallies[feeds.len() - 1].disconnected {
            before
        } else {
            before.push(feeds.last())
        }
    }
}

impl Registry {
    /// The subscriptions, in the order in which they were made.
    pub closed spec fn feeds(&self) -> Seq<Feed> {
        self.feeds@
    }

    /// Whether every subscription is well-formed.
    pub open spec fn wf(&self) -> bool {
        forall|i: int| 0 <= i < self.feeds().len() ==> (#[trigger] self.feeds()[i]).wf()
    }

    /// A registry without subscribers.
    pub fn new() -> (r: Self)
        ensures
            r.wf(),
            r.feeds() == Seq::<Feed>::empty(),
    {
        Registry { feeds: Vec::new() }
    }

    /// Add a subscriber with an unbounded queue.
    pub fn subscribe(&mut self) -> (s: Subscriber)
        requires
            old(self).wf(),
        ensures
            final(self).wf(),
            final(self).feeds().len() == old(self).feeds().len() + 1,
            final(self).feeds().drop_last() == old(self).feeds(),
            final(self).feeds().last().log() == Seq::<SendOutcome>::empty(),
            final(self).feeds().last().capacity() is None,
            final(self).feeds().last().serves(&s),
            s.capacity() is None,
    {
        let (feed, subscriber) = Feed::unbounded();
        self.feeds.push(feed);
        assert(self.feeds().drop_last() =~= old(self).feeds());
        subscriber
    }

    /// Add a subscriber with a bounded queue of `capacity`. When full, new
    /// frames are dropped and counted in [`Subscriber::dropped`].
    pub fn subscribe_bounded(&mut self, capacity: usize) -> (s: Subscriber)
        requires
            old(self).wf(),
            capacity <= isize::MAX / 128,
        ensures
            final(self).wf(),
            final(self).feeds().len() == old(self).feeds().len() + 1,
            final(self).feeds().drop_last() == old(self).feeds(),
            final(self).feeds().last().log() == Seq::<SendOutcome>::empty(),
            final(self).feeds().last().capacity() == Some(capacity as nat),
            final(self).feeds().last().serves(&s),
            s.capacity() == Some(capacity as nat),
    {
        let (feed, subscriber) = Feed::bounded(capacity);
        self.feeds.push(feed);
        assert(self.feeds().drop_last() =~= old(self).feeds());
        subscriber
    }

    /// Number of currently active subscribers.
    pub fn subscriber_count(&self) -> (n: usize)
        ensures
            n == self.feeds().len(),
    {
        self.feeds.len()
    }

    /// Offers every frame to every subscriber, and takes out the subscriptions
    /// whose subscriber turned out to be gone. Says what came of each, in order.
    ///
    /// To a subscriber that is not gone every frame is offered once and in order,
    /// whatever becomes of the others; one with an unbounded queue takes them all.
    pub fn fan_out(&mut self, frames: &[Frame]) -> (tallies: Vec<Tally>)
        requires
            old(self).wf(),
            forall|i: int| 0 <= i < frames@.len() ==> (#[trigger] frames@[i]).wf(),
        ensures
            final(self).wf(),
            exists|served: Seq<Feed>| #[trigger]
                all_follow(served, old(self).feeds(), frames@, tallies@) && final(self).feeds()
                    == staying(served, tallies@),
    {
        let mut tallies: Vec<Tally> = Vec::new();
        let mut at: usize = 0;
        let ghost mut served = Seq::<Feed>::empty();
        let ghost before = self.feeds();
        assert(staying(served, tallies@) + before.skip(0) =~= before);
        while at < self.feeds.len()
            invariant
                before == old(self).feeds(),
                old(self).wf(),
                forall|i: int| 0 <= i < frames@.len() ==> (#[trigger] frames@[i]).wf(),
                served.len() == tallies@.len(),
                served.len() <= before.len(),
                all_follow(served, before.take(served.len() as int), frames@, tallies@),
                at == staying(served, tallies@).len(),
                self.feeds() == staying(served, tallies@) + before.skip(served.len() as int),
                forall|i: int| 0 <= i < at ==> (#[trigger] self.feeds()[i]).wf(),
            decreases before.len() - served.len(),
        {
            let ghost k = served.len() as int;
            let ghost kept = staying(served, tallies@);
            let ghost said = tallies@;
            let ghost served_before = served;
            proof {
                assert(self.feeds()[at as int] == before[k]);
                assert(before[k].wf());
            }
            let t = self.feeds[at].deliver(frames);
            tallies.push(t);
            let ghost now = self.feeds()[at as int];
            proof {
                lemma_staying_needs_no_more(served, said, tallies@);
                lemma_all_follow_push(served, before, frames@, said, now, t);
                served = served.push(now);
                assert(served.drop_last() =~= served.take(k));
                assert(served.take(k) =~= served_before);
            }
            if t.disconnected {
                self.feeds.remove(at);
                assert(self.feeds() =~= kept + before.skip(k + 1));
            } else {
                at = at + 1;
                assert(self.feeds() =~= kept.push(now) + before.skip(k + 1));
            }
        }
        proof {
            assert(served.len() == before.len());
            assert(before.take(before.len() as int) =~= before);
            assert(self.feeds() =~= staying(served, tallies@));
        }
        tallies
    }
}

proof fn lemma_staying_needs_no_more(feeds: Seq<Feed>, a: Seq<Tally>, b: Seq<Tally>)
    requires
        feeds.len() <= a.len(),
        feeds.len() <= b.len(),
        forall|i: int| 0 <= i < feeds.len() ==> #[trigger] a[i] == b[i],
    ensures
        staying(feeds, a) == staying(feeds, b),
    decreases feeds.len(),
{
    if feeds.len() > 0 {
        lemma_staying_needs_no_more(feeds.drop_last(), a, b);
        assert(a[feeds.len() - 1] == b[feeds.len() - 1]);
    }
}

proof fn lemma_all_follow_push(
    served: Seq<Feed>,
    before: Seq<Feed>,
    frames: Seq<Frame>,
    tallies: Seq<Tally>,
    now: Feed,
    t: Tally,
)
    requires
        served.len() < before.len(),
        all_follow(served, before.take(served.len() as int), frames, tallies),
        now.wf(),
        now.follows(&before[served.len() as int], frames, t),
    ensures
        all_follow(served.push(now), before.take((served.len() + 1) as int), frames, tallies.push(t)),
{
    let after = served.push(now);
    let b = before.take((served.len() + 1) as int);
    assert forall|i: int| 0 <= i < after.len() implies (#[trigger] after[i]).wf()
        && after[i].follows(&b[i], frames, tallies.push(t)[i]) by {
        if i < served.len() {
            assert(after[i] == served[i]);
            assert(before.take(served.len() as int)[i] == b[i]);
        }
    }
}

/// A subscription is taken out if and only if its subscriber turned out to be gone:
/// every other one stays, and nothing else is among those that stay.
pub proof fn law_only_the_gone_are_culled(feeds: Seq<Feed>, tallies: Seq<Tally>)
    requires
        feeds.len() == tallies.len(),
    ensures
        forall|i: int|
            0 <= i < feeds.len() && !(#[trigger] tallies[i]).disconnected ==> staying(
                feeds,
                tallies,
            ).contains(feeds[i]),
        forall|k: int|
            #![trigger staying(feeds, tallies)[k]]
            0 <= k < staying(feeds, tallies).len() ==> exists|i: int|
                0 <= i < feeds.len() && feeds[i] == staying(feeds, tallies)[k] && !(
                #[trigger] tallies[i]).disconnected,
        staying(feeds, tallies).len() + how_many_gone(tallies) == feeds.len(),
    decreases feeds.len(),
{
    if feeds.len() > 0 {
        let n = feeds.len() - 1;
        let f0 = feeds.drop_last();
        let t0 = tallies.drop_last();
        law_only_the_gone_are_culled(f0, t0);
        lemma_staying_needs_no_more(f0, t0, tallies);
        let s0 = staying(f0, t0);
        let s = staying(feeds, tallies);
        assert forall|i: int| 0 <= i < feeds.len() && !(#[trigger] tallies[i]).disconnected implies
            s.contains(feeds[i]) by {
            if i < n {
                assert(!t0[i].disconnected);
                assert(s0.contains(f0[i]));
                let k = choose|k: int| 0 <= k < s0.len() && s0[k] == f0[i];
                assert(s[k] == feeds[i]);
            } else {
                assert(s[s.len() - 1] == feeds[i]);
            }
        }
        assert forall|k: int| #![trigger s[k]] 0 <= k < s.len() implies exists|i: int|
            0 <= i < feeds.len() && feeds[i] == s[k] && !(#[trigger] tallies[i]).disconnected by {
            if k < s0.len() {
                assert(s[k] == s0[k]);
                let i = choose|i: int|
                    0 <= i < f0.len() && f0[i] == s0[k] && !(#[trigger] t0[i]).disconnected;
                assert(feeds[i] == s[k] && !tallies[i].disconnected);
            } else {
                assert(feeds[n] == s[k] && !tallies[n].disconnected);
            }
        }
    }
}

/// How many subscribers turned out to be gone.
pub open spec fn how_many_gone(tallies: Seq<Tally>) -> nat
    decreases tallies.len(),
{
    if tallies.len() == 0 {
        0
    } else {
        how_many_gone(tallies.drop_last()) + if tallies.last().disconnected {
            1nat
        } else {
            0
        }
    }
}

// ---------------------------------------------------------------------------
// One batch after the other

/// The frames of the batches, one after the other.
pub open spec fn all_frames(batches: Seq<Seq<Frame>>) -> Seq<Frame>
    decreases batches.len(),
{
    if batches.len() == 0 {
        Seq::<Frame>::empty()
    } else {
        all_frames(batches.drop_last()) + batches.last()
    }
}

/// How many frames went into the queue over several batches.
pub open spec fn total_received(tallies: Seq<Tally>) -> nat
    decreases tallies.len(),
{
    if tallies.len() == 0 {
        0
    } else {
        total_received(tallies.drop_last()) + tallies.last().received as nat
    }
}

/// How many frames were lost over several batches because the queue was full.
pub open spec fn total_dropped(tallies: Seq<Tally>) -> nat
    decreases tallies.len(),
{
    if tallies.len() == 0 {
        0
    } else {
        total_dropped(tallies.drop_last()) + tallies.last().dropped as nat
    }
}

/// Whether the outcomes are those of every frame, each offered once, in order,
/// to somebody who was there to take it.
pub open spec fn is_full_run(outcomes: Seq<SendOutcome>, frames: Seq<Frame>) -> bool {
    &&& outcomes.len() == frames.len()
    &&& forall|i: int|
        0 <= i < outcomes.len() ==> (#[trigger] outcomes[i]).frame() == frames[i]
            && outcomes[i].fate() != Fate::Disconnected
}

proof fn lemma_how_many_concat(a: Seq<SendOutcome>, b: Seq<SendOutcome>, fate: Fate)
    ensures
        how_many(a + b, fate) == how_many(a, fate) + how_many(b, fate),
    decreases b.len(),
{
    if b.len() == 0 {
        assert(a + b =~= a);
        assert(how_many(b, fate) == 0);
    } else {
        assert((a + b).drop_last() =~= a + b.drop_last());
        lemma_how_many_concat(a, b.drop_last(), fate);
    }
}

proof fn lemma_how_many_some(outcomes: Seq<SendOutcome>, fate: Fate, i: int)
    requires
        0 <= i < outcomes.len(),
        outcomes[i].fate() == fate,
    ensures
        how_many(outcomes, fate) > 0,
    decreases outcomes.len(),
{
    if i < outcomes.len() - 1 {
        assert(outcomes.drop_last()[i] == outcomes[i]);
        lemma_how_many_some(outcomes.drop_last(), fate, i);
    }
}

proof fn lemma_no_one_gone(t: Tally, outcomes: Seq<SendOutcome>, frames: Seq<Frame>)
    requires
        is_run(outcomes, frames),
        t.counts(outcomes),
        !t.disconnected,
    ensures
        is_full_run(outcomes, frames),
{
    assert forall|i: int| 0 <= i < outcomes.len() implies (#[trigger] outcomes[i]).fate()
        != Fate::Disconnected by {
        if outcomes[i].fate() == Fate::Disconnected {
            lemma_how_many_some(outcomes, Fate::Disconnected, i);
        }
    }
    if outcomes.len() < frames.len() {
        assert(outcomes[outcomes.len() - 1].fate() == Fate::Disconnected);
    }
}

/// Over any number of batches, to a subscription whose subscriber was never found
/// gone every frame was offered exactly once, in the order of arrival, and nothing
/// else; and what was received and what was dropped add up to all of them. From a
/// queue without a limit nothing is dropped.
///
/// Where these were the first batches of the subscription, the two numbers that the
/// subscriber is told add up to all the frames as well.
pub proof fn law_every_batch_is_accounted_for(
    feeds: Seq<Feed>,
    batches: Seq<Seq<Frame>>,
    tallies: Seq<Tally>,
)
    requires
        feeds.len() == batches.len() + 1,
        tallies.len() == batches.len(),
        forall|k: int|
            #![trigger tallies[k]]
            0 <= k < tallies.len() ==> feeds[k + 1].follows(&feeds[k], batches[k], tallies[k])
                && !tallies[k].disconnected,
    ensures
        ({
            let first = feeds.first();
            let last = feeds.last();
            let frames = all_frames(batches);
            let n = first.log().len() as int;
            let since = last.log().skip(n);
            &&& n <= last.log().len()
            &&& last.log().take(n) == first.log()
            &&& is_full_run(since, frames)
            &&& last.capacity() == first.capacity()
            &&& forall|s: Subscriber| #[trigger] last.serves(&s) == first.serves(&s)
            &&& total_received(tallies) == how_many(since, Fate::Delivered)
            &&& total_dropped(tallies) == how_many(since, Fate::Full)
            &&& total_received(tallies) + total_dropped(tallies) == frames.len()
            &&& first.capacity() is None ==> total_dropped(tallies) == 0
            &&& last.wf() && n == 0 && frames.len() <= u64::MAX ==> {
                &&& last.told().received == total_received(tallies)
                &&& last.told().dropped == total_dropped(tallies)
                &&& last.told().received + last.told().dropped == frames.len()
            }
        }),
    decreases batches.len(),
{
    let first = feeds.first();
    let last = feeds.last();
    let n = first.log().len() as int;
    let since = last.log().skip(n);
    if batches.len() == 0 {
        assert(since =~= Seq::<SendOutcome>::empty());
        assert(last.log().take(n) =~= first.log());
        assert(how_many(since, Fate::Delivered) == 0 && how_many(since, Fate::Full) == 0);
    } else {
        let k = batches.len() - 1;
        let f0 = feeds.drop_last();
        let b0 = batches.drop_last();
        let t0 = tallies.drop_last();
        let prev = feeds[k];
        assert forall|i: int| #![trigger t0[i]] 0 <= i < t0.len() implies f0[i + 1].follows(
            &f0[i],
            b0[i],
            t0[i],
        ) && !t0[i].disconnected by {
            assert(t0[i] == tallies[i] && b0[i] == batches[i]);
            assert(f0[i + 1] == feeds[i + 1] && f0[i] == feeds[i]);
        }
        law_every_batch_is_accounted_for(f0, b0, t0);
        assert(f0.last() == prev && f0.first() == first);
        let t = tallies[k];
        let m = prev.log().len() as int;
        let earlier = prev.log().skip(n);
        let now = last.log().skip(m);
        assert(last.follows(&prev, batches[k], t));
        lemma_no_one_gone(t, now, batches[k]);
        lemma_log_grows(first.log(), prev.log(), last.log());
        lemma_how_many_concat(earlier, now, Fate::Delivered);
        lemma_how_many_concat(earlier, now, Fate::Full);
        lemma_full_runs_join(earlier, all_frames(b0), now, batches[k]);
        assert(all_frames(batches) == all_frames(b0) + batches[k]);
    }
    assert(n == 0 ==> since == last.log()) by {
        if n == 0 {
            assert(since =~= last.log());
        }
    }
}

proof fn lemma_log_grows(a: Seq<SendOutcome>, b: Seq<SendOutcome>, c: Seq<SendOutcome>)
    requires
        a.len() <= b.len() <= c.len(),
        b.take(a.len() as int) == a,
        c.take(b.len() as int) == b,
    ensures
        c.take(a.len() as int) == a,
        c.skip(a.len() as int) == b.skip(a.len() as int) + c.skip(b.len() as int),
{
    let n = a.len() as int;
    let m = b.len() as int;
    assert forall|i: int| 0 <= i < m implies #[trigger] c[i] == b[i] by {
        assert(c.take(m)[i] == b[i]);
    }
    assert forall|i: int| 0 <= i < n implies #[trigger] a[i] == b[i] by {
        assert(b.take(n)[i] == a[i]);
    }
    assert(c.take(n) =~= a);
    assert(c.skip(n) =~= b.skip(n) + c.skip(m));
}

proof fn lemma_full_runs_join(
    a: Seq<SendOutcome>,
    frames: Seq<Frame>,
    b: Seq<SendOutcome>,
    more: Seq<Frame>,
)
    requires
        is_full_run(a, frames),
        is_full_run(b, more),
    ensures
        is_full_run(a + b, frames + more),
{
    let all = a + b;
    assert forall|i: int| 0 <= i < all.len() implies (#[trigger] all[i]).frame() == (frames
        + more)[i] && all[i].fate() != Fate::Disconnected by {
        if i < a.len() {
            assert(all[i] == a[i]);
        } else {
            assert(all[i] == b[i - a.len()]);
        }
    }
}

/// A fan-out serves every subscriber that it does not find gone: its subscription
/// stays, serves the same subscriber, and was offered just the frames of the batch,
/// each once and in order.
pub proof fn law_a_living_subscriber_is_served(
    served: Seq<Feed>,
    before: Seq<Feed>,
    frames: Seq<Frame>,
    tallies: Seq<Tally>,
    s: &Subscriber,
    i: int,
)
    requires
        all_follow(served, before, frames, tallies),
        0 <= i < before.len(),
        before[i].serves(s),
        !tallies[i].disconnected,
    ensures
        staying(served, tallies).contains(served[i]),
        served[i].serves(s),
        served[i].log().take(before[i].log().len() as int) == before[i].log(),
        is_full_run(served[i].log().skip(before[i].log().len() as int), frames),
{
    law_only_the_gone_are_culled(served, tallies);
    assert(served[i].follows(&before[i], frames, tallies[i]));
    lemma_no_one_gone(
        tallies[i],
        served[i].log().skip(before[i].log().len() as int),
        frames,
    );
}

// ---------------------------------------------------------------------------
// The reading loop

/// Configuration for a reader.
#[derive(Clone, Debug)]
pub struct ReaderConfig {
    /// Frames per reception. Larger batches amortise syscall cost at the price
    /// of higher latency under low load. Capped at 64 by the socket.
    pub batch_size: usize,
}

impl Default for ReaderConfig {
    fn default() -> (c: Self)
        ensures
            c.batch_size == 64,
    {
        ReaderConfig { batch_size: 64 }
    }
}

impl ReaderConfig {
    /// How many frames to receive at once: at least one, at most 64.
    pub fn effective_batch(&self) -> (n: usize)
        ensures
            n == if self.batch_size < 1 {
                1
            } else if self.batch_size > 64 {
                64
            } else {
                self.batch_size
            },
    {
        if self.batch_size < 1 {
            1
        } else if self.batch_size > 64 {
            64
        } else {
            self.batch_size
        }
    }
}

/// What a reader does after it has tried to receive a batch.
#[derive(Clone, Copy, Debug, PartialEq, Eq, Structural)]
pub enum ReaderAction {
    /// Wait for so many milliseconds, then try again.
    Pause(u64),
    /// Try again.
    Again,
    /// Fan out the first so many frames.
    FanOut(usize),
}

/// What a reader does after it has tried to receive a batch. Errors are taken to
/// be transient (an interface that bounces): the reader pauses and goes on.
pub fn after_batch(received: &Result<usize, SocketError>) -> (a: ReaderAction)
    ensures
        a == match *received {
            Err(_) => ReaderAction::Pause(20),
            Ok(n) => if n == 0 {
                ReaderAction::Again
            } else {
                ReaderAction::FanOut(n)
            },
        },
{
    match received {
        Err(_) => ReaderAction::Pause(20),
        Ok(n) => {
            if *n == 0 {
                ReaderAction::Again
            } else {
                ReaderAction::FanOut(*n)
            }
        },
    }
}

/// Outcomes are counted by what became of the frame: it went into the queue, the
/// queue was full, or there was nobody left.
pub proof fn law_outcomes_are_told_apart(outcomes: Seq<SendOutcome>, o: SendOutcome, fate: Fate)
    ensures
        o is Delivered <==> o.fate() == Fate::Delivered,
        o is Full <==> o.fate() == Fate::Full,
        o is Disconnected <==> o.fate() == Fate::Disconnected,
        o matches SendOutcome::Delivered(f) ==> o.frame() == f,
        o matches SendOutcome::Full(f) ==> o.frame() == f,
        o matches SendOutcome::Disconnected(f) ==> o.frame() == f,
        how_many(Seq::<SendOutcome>::empty(), fate) == 0,
        how_many(outcomes.push(o), fate) == how_many(outcomes, fate) + if o.fate() == fate {
            1nat
        } else {
            0
        },
{
    assert(outcomes.push(o).drop_last() =~= outcomes);
}

/// A tally counts the frames that went into the queue and those that were dropped,
/// and says whether there was nobody left to take one.
pub proof fn law_a_tally_counts_outcomes(t: Tally, outcomes: Seq<SendOutcome>)
    requires
        t.counts(outcomes),
    ensures
        t.received == how_many(outcomes, Fate::Delivered),
        t.dropped == how_many(outcomes, Fate::Full),
        t.disconnected <==> exists|i: int|
            0 <= i < outcomes.len() && (#[trigger] outcomes[i]) is Disconnected,
{
    if exists|i: int| 0 <= i < outcomes.len() && (#[trigger] outcomes[i]) is Disconnected {
        let i = choose|i: int|
            0 <= i < outcomes.len() && (#[trigger] outcomes[i]) is Disconnected;
        lemma_how_many_some(outcomes, Fate::Disconnected, i);
    } else {
        assert forall|i: int| 0 <= i < outcomes.len() implies (#[trigger] outcomes[i]).fate()
            != Fate::Disconnected by {
            assert(!(outcomes[i] is Disconnected));
        }
        lemma_how_many_none(outcomes, Fate::Disconnected);
    }
}

/// The subscriptions that stay do so in the order in which they were made.
pub proof fn law_those_that_stay_keep_their_order(
    feeds: Seq<Feed>,
    tallies: Seq<Tally>,
    f: Feed,
    t: Tally,
)
    requires
        feeds.len() == tallies.len(),
    ensures
        staying(Seq::<Feed>::empty(), tallies).len() == 0,
        staying(feeds.push(f), tallies.push(t)) == if t.disconnected {
            staying(feeds, tallies)
        } else {
            staying(feeds, tallies).push(f)
        },
{
    assert(feeds.push(f).drop_last() =~= feeds);
    lemma_staying_needs_no_more(feeds, tallies, tallies.push(t));
}

/// What comes out at a subscriber was delivered to its channel; a wait without end
/// ends without a frame only once the channel is closed.
pub proof fn law_subscribers_get_what_was_delivered(
    feed: &Feed,
    s: &Subscriber,
    f: Frame,
    n: nat,
)
    requires
        feed.serves(s),
    ensures
        s.was_given(f) ==> came_of(feed.sender(), Occurrence::Offer(SendOutcome::Delivered(f))),
        s.held(n) ==> came_of(feed.sender(), Occurrence::Held(n)),
        disconnected(s.receiver()) ==> came_of(feed.sender(), Occurrence::Closed),
{
    if s.was_given(f) {
        let one = seq![SendOutcome::Delivered(f)];
        assert(feed.gave(one));
        assert(one[0] == SendOutcome::Delivered(f));
    }
    assert(joined(feed.sender(), s.receiver()));
}

} // verus!
