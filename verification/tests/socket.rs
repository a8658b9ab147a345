//! Sockets: filters, opening, receiving, sending.
use mcanbus::bytes::ByteOrder;
use mcanbus::error::ErrorKind;
use mcanbus::frame::DecodedFrame;
use mcanbus::socket::{
    batch_size, extract_timestamp, open, recv, recv_batch, recv_decoded, send, send_batch, sent,
    ControlMessage, ControlNumbers, Opened, Opening, Reception, SocketError, Stage, TimeSpec,
};
use mcanbus::time::TimeSpan;
use mcanbus::{CanFilter, CanId, FdFlags, Frame, OpenOpts, Timestamping};

fn passes(f: CanFilter, id: CanId) -> bool {
    id.to_wire() & f.mask == f.id & f.mask
}

#[test]
fn standard_filter_matches_one_id() {
    let f = CanFilter::standard_exact(0x123);
    assert_eq!((f.id, f.mask), (0x123, 0x8000_07FF));
    assert!(passes(f, CanId::standard(0x123)));
    assert!(!passes(f, CanId::standard(0x124)));
    assert!(!passes(f, CanId::extended(0x123)));
    assert_eq!(CanFilter::standard_exact(0xFFFF).id, 0x7FF);
}

#[test]
fn extended_filter_matches_one_id() {
    let f = CanFilter::extended_exact(0x18DA_F101);
    assert_eq!((f.id, f.mask), (0x98DA_F101, 0x9FFF_FFFF));
    assert!(passes(f, CanId::extended(0x18DA_F101)));
    assert!(!passes(f, CanId::extended(0x18DA_F102)));
    assert!(!passes(CanFilter::extended_exact(0x123), CanId::standard(0x123)));
}

#[test]
fn masked_filter_matches_a_range() {
    let f = CanFilter::standard_masked(0x7E8, 0x7F8);
    assert_eq!((f.id, f.mask), (0x7E8, 0x8000_07F8));
    for id in 0x7E8..=0x7EF {
        assert!(passes(f, CanId::standard(id)));
    }
    assert!(!passes(f, CanId::standard(0x7F0)));
    assert!(!passes(f, CanId::extended(0x7E8)));
}

#[test]
fn default_open_options() {
    let o = OpenOpts::default();
    assert!(o.fd && !o.clear_filter && !o.nonblocking);
    assert_eq!(o.recv_buf_bytes, Some(8 * 1024 * 1024));
    assert_eq!(o.send_buf_bytes, Some(1024 * 1024));
    assert_eq!(o.timestamping, Timestamping::BestAvailable);
    assert_eq!(Timestamping::default(), Timestamping::BestAvailable);
    assert_eq!(o.recv_timeout, Some(TimeSpan::from_millis(500)));
    assert!(o.filter.is_none() && o.error_filter.is_none());
}

/// Grants every stage; gives the stages.
fn grant_all(mut o: Opening) -> (Vec<Stage>, Result<Opened, SocketError>) {
    let mut stages = Vec::new();
    while let Some(s) = o.stage() {
        stages.push(s);
        o.granted();
    }
    (stages, o.result())
}

#[test]
fn default_opening() {
    let o = open("can0", &OpenOpts::default()).unwrap();
    assert_eq!(o.name(), b"can0\0\0\0\0\0\0\0\0\0\0\0\0");
    let (stages, result) = grant_all(o);
    assert_eq!(
        stages,
        vec![
            Stage::Create,
            Stage::Resolve,
            Stage::FdFrames,
            Stage::RecvBuffer(8 * 1024 * 1024),
            Stage::SendBuffer(1024 * 1024),
            Stage::Timestamping(92),
            Stage::RecvTimeout { secs: 0, micros: 500_000 },
            Stage::Bind,
        ]
    );
    assert_eq!(result, Ok(Opened { fd_rx_enabled: true }));
}

fn bare() -> OpenOpts {
    OpenOpts {
        fd: false,
        recv_buf_bytes: None,
        send_buf_bytes: None,
        timestamping: Timestamping::Off,
        recv_timeout: None,
        filter: None,
        error_filter: None,
        clear_filter: false,
        nonblocking: false,
    }
}

#[test]
fn barest_opening() {
    let (stages, result) = grant_all(open("vcan0", &bare()).unwrap());
    assert_eq!(stages, vec![Stage::Create, Stage::Resolve, Stage::Bind]);
    assert_eq!(result, Ok(Opened { fd_rx_enabled: false }));
}

#[test]
fn fullest_opening() {
    let opts = OpenOpts {
        filter: Some(vec![CanFilter::standard_exact(1), CanFilter::standard_exact(2)]),
        error_filter: Some(0x1FFF_FFFF),
        clear_filter: true,
        nonblocking: true,
        timestamping: Timestamping::Software,
        recv_timeout: Some(TimeSpan::new(3, 1_999)),
        recv_buf_bytes: Some(0x8000_0001),
        ..OpenOpts::default()
    };
    let o = open("can0", &opts).unwrap();
    // Entries take precedence over clearing.
    assert_eq!(o.filters().len(), 2);
    let (stages, _) = grant_all(o);
    assert_eq!(
        stages,
        vec![
            Stage::Create,
            Stage::Resolve,
            Stage::FdFrames,
            Stage::Filter,
            Stage::ErrorFilter(0x1FFF_FFFF),
            Stage::RecvBuffer(-0x7FFF_FFFF),
            Stage::SendBuffer(1024 * 1024),
            Stage::TimestampNs,
            Stage::RecvTimeout { secs: 3, micros: 1 },
            Stage::Nonblocking,
            Stage::Bind,
        ]
    );
}

#[test]
fn clearing_is_an_empty_filter() {
    let cleared = open("can0", &OpenOpts { clear_filter: true, ..bare() }).unwrap();
    let empty = open("can0", &OpenOpts { filter: Some(vec![]), ..bare() }).unwrap();
    assert!(cleared.filters().is_empty() && empty.filters().is_empty());
    let expected = vec![Stage::Create, Stage::Resolve, Stage::Filter, Stage::Bind];
    assert_eq!(grant_all(cleared).0, expected);
    assert_eq!(grant_all(empty).0, expected);
}

#[test]
fn interface_names_must_fit() {
    for name in ["", "sixteen_bytes_xx", "\u{e9}\u{e9}\u{e9}\u{e9}\u{e9}\u{e9}\u{e9}\u{e9}"] {
        let e = open(name, &OpenOpts::default()).unwrap_err();
        assert_eq!(e, SocketError::NameLength);
        assert_eq!(e.kind(), Some(ErrorKind::InvalidInput));
        assert_eq!(e.message(), "interface name has invalid length");
    }
    assert!(open("fifteen_bytes_x", &OpenOpts::default()).is_ok());
    assert!(open("c", &OpenOpts::default()).is_ok());
}

#[test]
fn best_effort_stages_may_be_refused() {
    let mut o = open("can0", &OpenOpts { nonblocking: true, ..OpenOpts::default() }).unwrap();
    let mut seen = Vec::new();
    while let Some(s) = o.stage() {
        seen.push(s);
        match s {
            Stage::Create | Stage::Resolve | Stage::Bind => o.granted(),
            _ => o.refused(92),
        }
    }
    assert!(seen.contains(&Stage::Timestamping(92)) && seen.contains(&Stage::TimestampNs));
    assert_eq!(o.result(), Ok(Opened { fd_rx_enabled: false }));
    o.refused(5);
    assert_eq!(o.result(), Ok(Opened { fd_rx_enabled: false }));
}

#[test]
fn fatal_stages_end_the_opening() {
    let opts = OpenOpts { error_filter: Some(1), clear_filter: true, ..OpenOpts::default() };
    for fatal in [Stage::Create, Stage::Resolve, Stage::Filter, Stage::ErrorFilter(1), Stage::Bind] {
        let mut o = open("can0", &opts).unwrap();
        while let Some(s) = o.stage() {
            if s == fatal {
                o.refused(19);
            } else {
                o.granted();
            }
        }
        assert_eq!(o.result(), Err(SocketError::Os { errno: 19 }));
        assert_eq!(SocketError::Os { errno: 19 }.kind(), None);
    }
}

fn at(sec: i64, nsec: i64) -> TimeSpec {
    TimeSpec { sec, nsec }
}

#[test]
fn control_messages_are_read() {
    let numbers = ControlNumbers { socket_level: 1, timestamping: 37, timestamp_ns: 35 };
    let read = |level, kind, times: &[TimeSpec]| ControlMessage::read(numbers, level, kind, times);
    let three = [at(1, 2), at(3, 4), at(5, 6)];
    assert_eq!(
        read(1, 37, &three),
        ControlMessage::Timestamping { software: at(1, 2), hardware: at(5, 6) }
    );
    assert_eq!(read(1, 35, &three), ControlMessage::TimestampNs(at(1, 2)));
    assert_eq!(read(1, 35, &three[2..]), ControlMessage::TimestampNs(at(5, 6)));
    // Another level or type, or too short.
    assert_eq!(read(2, 37, &three), ControlMessage::Other);
    assert_eq!(read(2, 35, &three), ControlMessage::Other);
    assert_eq!(read(1, 29, &three), ControlMessage::Other);
    assert_eq!(read(1, 37, &three[..2]), ControlMessage::Other);
    assert_eq!(read(1, 35, &[]), ControlMessage::Other);
}

#[test]
fn best_timestamp_is_chosen() {
    let none = at(0, 0);
    let hw = |s, h| ControlMessage::Timestamping { software: s, hardware: h };
    let plain = ControlMessage::TimestampNs;
    assert_eq!(extract_timestamp(&[]), None);
    assert_eq!(extract_timestamp(&[ControlMessage::Other, plain(at(5, 6))]), Some(at(5, 6)));
    assert_eq!(extract_timestamp(&[plain(at(5, 6)), hw(at(1, 2), none)]), Some(at(1, 2)));
    assert_eq!(extract_timestamp(&[hw(at(1, 2), none), plain(at(5, 6))]), Some(at(1, 2)));
    assert_eq!(extract_timestamp(&[plain(at(5, 6)), hw(at(1, 2), at(0, 9))]), Some(at(0, 9)));
    assert_eq!(extract_timestamp(&[hw(at(1, 2), none), hw(at(3, 4), none)]), Some(at(3, 4)));
    assert_eq!(extract_timestamp(&[hw(none, none)]), None);
    assert_eq!(extract_timestamp(&[plain(at(5, 6)), plain(at(7, 8))]), Some(at(5, 6)));
    assert_eq!(at(3, 4).to_ns(), 3_000_000_004);
    // What does not fit wraps around.
    assert_eq!(at(18_446_744_073, 709_551_615).to_ns(), u64::MAX);
    assert_eq!(at(18_446_744_073, 709_551_617).to_ns(), 1);
    assert_eq!(at(-1, 1).to_ns(), 1_000_000_000u64.wrapping_neg() + 1);
    assert_eq!(at(0, -1).to_ns(), u64::MAX);
}

fn reception(bytes: Vec<u8>) -> Reception {
    Reception { bytes, control: vec![ControlMessage::TimestampNs(at(1, 5))], clock_ns: Some(7) }
}

#[test]
fn sent_frames_are_received() {
    for order in [ByteOrder::Little, ByteOrder::Big] {
        let f = Frame::new_fd(CanId::extended(0x1ABC), &[1; 33], FdFlags { brs: true, esi: false })
            .unwrap();
        let bytes = send(order, &f);
        assert_eq!(bytes.len(), 72);
        let back = recv(order, Ok(reception(bytes))).unwrap().unwrap();
        assert_eq!((back.id, back.kind, back.data()), (f.id, f.kind, f.data()));
        assert_eq!(back.timestamp_ns, Some(1_000_000_005));
    }
    let f = Frame::new_classic(CanId::standard(0x7DF), &[2, 1, 0]).unwrap();
    assert_eq!(
        send(ByteOrder::Little, &f),
        vec![0xDF, 7, 0, 0, 3, 0, 0, 0, 2, 1, 0, 0, 0, 0, 0, 0]
    );
}

#[test]
fn the_clock_is_used_where_there_is_no_timestamp() {
    let f = Frame::new_classic(CanId::standard(1), &[]).unwrap();
    let r = Reception {
        bytes: send(ByteOrder::Little, &f),
        control: vec![ControlMessage::Other],
        clock_ns: Some(42),
    };
    let back = recv(ByteOrder::Little, Ok(r)).unwrap().unwrap();
    assert_eq!(back.timestamp_ns, Some(42));
}

#[test]
fn nothing_to_receive() {
    for errno in [libc::EAGAIN, libc::EINTR] {
        assert!(recv_decoded(ByteOrder::Little, Err(errno)).unwrap().is_none());
        assert!(recv(ByteOrder::Little, Err(errno)).unwrap().is_none());
    }
    assert_eq!(
        recv(ByteOrder::Little, Err(libc::ENETDOWN)).unwrap_err(),
        SocketError::Os { errno: libc::ENETDOWN }
    );
    assert!(recv_decoded(ByteOrder::Little, Ok(reception(vec![0; 15]))).unwrap().is_none());
}

fn rtr() -> Vec<u8> {
    vec![0x56, 0x04, 0, 0x40, 4, 0, 0, 0, 0, 0, 0, 0, 0, 0, 0, 0]
}

#[test]
fn rtr_frames_are_only_decoded() {
    assert!(recv(ByteOrder::Little, Ok(reception(rtr()))).unwrap().is_none());
    assert!(matches!(
        recv_decoded(ByteOrder::Little, Ok(reception(rtr()))).unwrap(),
        Some(DecodedFrame::Rtr { id: CanId::Standard(0x456), len: 4 })
    ));
}

#[test]
fn batches() {
    let order = ByteOrder::Little;
    let frames: Vec<Frame> =
        (0..3u8).map(|i| Frame::new_classic(CanId::standard(i.into()), &[i]).unwrap()).collect();
    let mut received: Vec<Reception> = send_batch(order, &frames).into_iter().map(reception).collect();
    received.insert(1, reception(rtr()));
    received.insert(3, reception(vec![0; 4]));
    let mut out = [Frame::zeroed(); 6];
    assert_eq!(recv_batch(order, Ok(received), &mut out), Ok(3));
    for (a, b) in out.iter().zip(&frames) {
        assert_eq!((a.id, a.data()), (b.id, b.data()));
    }
    assert_eq!(out[3].id, CanId::Standard(0));
    assert_eq!(recv_batch(order, Err(libc::EAGAIN), &mut out), Ok(0));
    assert_eq!(recv_batch(order, Err(9), &mut out), Err(SocketError::Os { errno: 9 }));
    assert_eq!(recv_batch(order, Ok(vec![]), &mut []), Ok(0));
    assert_eq!([0, 1, 64, 65].map(batch_size), [0, 1, 64, 64]);
    let many = vec![frames[1]; 100];
    let sent = send_batch(order, &many);
    assert_eq!(sent.len(), 64);
    assert_eq!(sent[63], send(order, &frames[1]));
}

#[test]
fn what_came_of_sending() {
    let f = Frame::new_classic(CanId::standard(1), &[]).unwrap();
    assert_eq!(sent(&f, Ok(16)), Ok(()));
    let e = sent(&f, Ok(8)).unwrap_err();
    assert_eq!((e.kind(), e.message()), (Some(ErrorKind::WriteZero), "short CAN frame write"));
    assert_eq!(sent(&f, Err(libc::ENOBUFS)), Err(SocketError::Os { errno: libc::ENOBUFS }));
    let fd = Frame::new_fd(CanId::standard(1), &[], FdFlags::default()).unwrap();
    assert_eq!(sent(&fd, Ok(16)), Err(SocketError::ShortWrite));
    assert_eq!(sent(&fd, Ok(72)), Ok(()));
}

#[test]
fn spans_of_time() {
    let t = TimeSpan::from_millis(1_234);
    assert_eq!((t.as_secs(), t.subsec_nanos(), t.subsec_micros()), (1, 234_000_000, 234_000));
    assert_eq!(TimeSpan::new(2, 3_999).subsec_micros(), 3);
}
