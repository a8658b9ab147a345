//! Subscribers, queues and fan-out.
use mcanbus::reader::{
    after_batch, tally, Counts, Feed, ReaderAction, ReaderConfig, Registry, SendOutcome, Tally,
};
use mcanbus::socket::SocketError;
use mcanbus::time::TimeSpan;
use mcanbus::{CanId, Frame};

fn numbered(n: u8) -> Frame {
    Frame::new_classic(CanId::standard(0x100), &[n]).unwrap()
}

#[test]
fn subscriber_default_counters_zero() {
    let mut registry = Registry::new();
    let sub = registry.subscribe();
    assert_eq!(sub.received(), 0);
    assert_eq!(sub.dropped(), 0);
}

#[test]
fn fanout_logic_unbounded() {
    // 100 frames into 3 subscribers, all unbounded.
    let mut registry = Registry::new();
    let subs: Vec<_> = (0..3).map(|_| registry.subscribe()).collect();
    let frame = Frame::new_classic(CanId::standard(0x123), &[1, 2, 3]).unwrap();
    for _ in 0..100 {
        registry.fan_out(&[frame]);
    }
    for sub in &subs {
        assert_eq!(sub.received(), 100);
        assert_eq!(sub.pending(), 100);
        assert_eq!(sub.dropped(), 0);
    }
}

#[test]
fn fanout_logic_bounded_drops() {
    // Bounded capacity 8, push 16 frames: 8 dropped.
    let mut registry = Registry::new();
    let sub = registry.subscribe_bounded(8);
    let frame = Frame::new_classic(CanId::standard(0x100), &[]).unwrap();
    for _ in 0..16 {
        registry.fan_out(&[frame]);
    }
    assert_eq!(sub.received(), 8);
    assert_eq!(sub.dropped(), 8);
    assert_eq!(sub.pending(), 8);
}

#[test]
fn frames_come_out_as_they_went_in() {
    let mut registry = Registry::new();
    let a = registry.subscribe();
    let b = registry.subscribe_bounded(2);
    let frames = [numbered(1), numbered(2), numbered(3)];
    let tallies = registry.fan_out(&frames);
    assert_eq!(tallies[0], Tally { received: 3, dropped: 0, disconnected: false });
    assert_eq!(tallies[1], Tally { received: 2, dropped: 1, disconnected: false });
    assert_eq!(a.recv().unwrap().data(), &[1]);
    assert_eq!(a.try_recv().unwrap().data(), &[2]);
    assert_eq!(a.recv_timeout(TimeSpan::from_millis(100)).unwrap().data(), &[3]);
    assert!(a.try_recv().is_none());
    assert!(a.recv_timeout(TimeSpan::from_millis(1)).is_none());
    assert_eq!(b.as_receiver().len(), 2);
    assert_eq!(b.as_receiver().capacity(), Some(2));
    assert_eq!(a.as_receiver().capacity(), None);
    assert_eq!(b.try_recv().unwrap().data(), &[1]);
    // There is room again.
    let tallies = registry.fan_out(&frames);
    assert_eq!(tallies[1], Tally { received: 1, dropped: 2, disconnected: false });
    assert_eq!((b.received(), b.dropped(), b.pending()), (3, 3, 2));
    assert_eq!((a.received(), a.dropped()), (6, 0));
}

#[test]
fn queues_are_drained_after_the_reader_is_gone() {
    let mut registry = Registry::new();
    let sub = registry.subscribe();
    registry.fan_out(&[numbered(7)]);
    std::mem::drop(registry);
    assert_eq!(sub.recv().unwrap().data(), &[7]);
    assert!(sub.recv().is_none());
}

#[test]
fn gone_subscribers_are_culled() {
    let mut registry = Registry::new();
    let keeper = registry.subscribe();
    std::mem::drop(registry.subscribe());
    let other = registry.subscribe();
    assert_eq!(registry.subscriber_count(), 3); // not yet noticed
    let tallies = registry.fan_out(&[numbered(1), numbered(2)]);
    assert_eq!(tallies[0], Tally { received: 2, dropped: 0, disconnected: false });
    assert_eq!(tallies[1], Tally { received: 0, dropped: 0, disconnected: true });
    assert_eq!(tallies[2], Tally { received: 2, dropped: 0, disconnected: false });
    assert_eq!(registry.subscriber_count(), 2);
    // The others go on, and so does one that joins later.
    let late = registry.subscribe();
    assert_eq!(registry.fan_out(&[numbered(3)]).len(), 3);
    assert_eq!((keeper.pending(), other.pending(), late.pending()), (3, 3, 1));
    for n in 1..=3 {
        assert_eq!(other.try_recv().unwrap().data(), &[n]);
    }
    // All may be gone at once.
    std::mem::drop((keeper, other, late));
    assert!(registry.fan_out(&[numbered(4)]).iter().all(|t| t.disconnected));
    assert_eq!(registry.subscriber_count(), 0);
    assert!(registry.fan_out(&[numbered(5)]).is_empty());
}

#[test]
fn zero_capacity_keeps_nothing() {
    let mut registry = Registry::new();
    let sub = registry.subscribe_bounded(0);
    let tallies = registry.fan_out(&[numbered(1)]);
    assert_eq!(tallies[0], Tally { received: 0, dropped: 1, disconnected: false });
    assert_eq!(sub.pending(), 0);
}

#[test]
fn outcomes_are_tallied() {
    let f = numbered(0);
    let t = tally(&[
        SendOutcome::Delivered(f),
        SendOutcome::Full(f),
        SendOutcome::Delivered(f),
        SendOutcome::Disconnected(f),
    ]);
    assert_eq!(t, Tally { received: 2, dropped: 1, disconnected: true });
    assert_eq!(tally(&[]), Tally { received: 0, dropped: 0, disconnected: false });
}

#[test]
fn outcomes_add_to_the_counts() {
    let f = numbered(0);
    assert_eq!(SendOutcome::Delivered(f).increment(), Counts { received: 1, dropped: 0 });
    assert_eq!(SendOutcome::Full(f).increment(), Counts { received: 0, dropped: 1 });
    assert_eq!(SendOutcome::Disconnected(f).increment(), Counts { received: 0, dropped: 0 });
}

#[test]
fn every_batch_is_accounted_for() {
    let mut registry = Registry::new();
    let all = registry.subscribe();
    let some = registry.subscribe_bounded(4);
    let batches = [vec![0, 1, 2], vec![], vec![3, 4], vec![5]];
    let mut totals = [(0, 0), (0, 0)];
    for batch in &batches {
        let frames: Vec<Frame> = batch.iter().map(|n| numbered(*n)).collect();
        for (total, tally) in totals.iter_mut().zip(registry.fan_out(&frames)) {
            assert!(!tally.disconnected);
            total.0 += tally.received;
            total.1 += tally.dropped;
        }
    }
    assert_eq!(totals, [(6, 0), (4, 2)]);
    // What the subscribers read is what was tallied.
    assert_eq!((all.received(), all.dropped()), totals[0]);
    assert_eq!((some.received(), some.dropped()), totals[1]);
    // Each frame once, in the order of arrival.
    for n in 0..6 {
        assert_eq!(all.try_recv().unwrap().data(), &[n]);
    }
    assert!(all.try_recv().is_none());
}

#[test]
fn a_subscription_serves_its_own_subscriber() {
    let (_, first) = Feed::unbounded();
    let (mut feed, second) = Feed::unbounded();
    let t = feed.deliver(&[numbered(8)]);
    assert_eq!(t, Tally { received: 1, dropped: 0, disconnected: false });
    assert_eq!((first.received(), first.pending()), (0, 0));
    assert_eq!((second.received(), second.pending()), (1, 1));
    // The borrowed receiver is the subscriber's own.
    assert_eq!(second.as_receiver().try_recv().unwrap().data(), &[8]);
    assert_eq!(second.pending(), 0);
}

#[test]
fn outcomes_name_their_frames() {
    let (mut feed, sub) = Feed::bounded(1);
    let outcomes = feed.offer(&[numbered(4), numbered(5)]);
    assert_eq!(outcomes.len(), 2);
    assert!(matches!(outcomes[0], SendOutcome::Delivered(f) if f.data() == [4]));
    assert!(matches!(outcomes[1], SendOutcome::Full(f) if f.data() == [5]));
    // A frame goes into the queue once.
    assert_eq!(sub.pending(), 1);
    std::mem::drop(sub);
    let outcomes = feed.offer(&[numbered(6), numbered(7)]);
    assert_eq!(outcomes.len(), 1);
    assert!(matches!(outcomes[0], SendOutcome::Disconnected(f) if f.data() == [6]));
}

#[test]
fn subscribers_are_told_what_is_counted() {
    let (mut feed, sub) = Feed::bounded(2);
    assert_eq!(feed.counts(), Counts { received: 0, dropped: 0 });
    feed.offer(&[numbered(1), numbered(2), numbered(3)]);
    assert_eq!(feed.counts(), Counts { received: 2, dropped: 1 });
    assert_eq!((sub.received(), sub.dropped()), (2, 1));
    sub.recv();
    feed.offer(&[numbered(4), numbered(5)]);
    assert_eq!(feed.counts(), Counts { received: 3, dropped: 2 });
    assert_eq!((sub.received(), sub.dropped()), (3, 2));
}

#[test]
fn batch_sizes_are_clamped() {
    assert_eq!(ReaderConfig::default().batch_size, 64);
    for (asked, effective) in [(0, 1), (1, 1), (30, 30), (64, 64), (1000, 64)] {
        assert_eq!(ReaderConfig { batch_size: asked }.effective_batch(), effective);
    }
}

#[test]
fn the_reader_goes_on() {
    assert_eq!(after_batch(&Ok(0)), ReaderAction::Again);
    assert_eq!(after_batch(&Ok(5)), ReaderAction::FanOut(5));
    assert_eq!(after_batch(&Err(SocketError::Os { errno: 100 })), ReaderAction::Pause(20));
}
