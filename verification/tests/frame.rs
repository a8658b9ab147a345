//! Frames, identifiers and the wire format.
use mcanbus::bytes::{native_order, ByteOrder};
use mcanbus::consts::{
    CANFD_BRS, CANFD_ESI, CANFD_FRAME_SIZE, CAN_EFF_FLAG, CAN_EFF_MASK, CAN_ERR_BUSOFF,
    CAN_ERR_FLAG, CAN_FRAME_SIZE, CAN_RTR_FLAG,
};
use mcanbus::frame::{decode_wire, decode_wire_in, DecodedFrame, WireFrame};
use mcanbus::{CanId, FdFlags, Frame, FrameError, FrameKind, MAX_DATA_LEN, MAX_FD_DATA_LEN};

#[test]
fn canid_standard_round_trip() {
    let id = CanId::standard(0x123);
    assert_eq!(id.raw(), 0x123);
    assert!(!id.is_extended());
    assert_eq!(id.to_wire(), 0x123);
    assert_eq!(CanId::from_wire(0x123), id);
}

#[test]
fn canid_extended_round_trip() {
    let id = CanId::extended(0x18DA_F101);
    assert_eq!(id.raw(), 0x18DA_F101);
    assert!(id.is_extended());
    assert_eq!(id.to_wire(), 0x18DA_F101 | CAN_EFF_FLAG);
    assert_eq!(CanId::from_wire(0x18DA_F101 | CAN_EFF_FLAG), id);
}

#[test]
fn canid_masks_overflow() {
    // Out-of-range bits are silently masked, by design.
    assert_eq!(CanId::standard(0xFFFF).raw(), 0x7FF);
    assert_eq!(CanId::extended(0xFFFF_FFFF).raw(), CAN_EFF_MASK);
}

#[test]
fn fd_flags_round_trip() {
    let f = FdFlags { brs: true, esi: false };
    assert_eq!(f.to_wire(), CANFD_BRS);
    assert_eq!(FdFlags::from_wire(CANFD_BRS | CANFD_ESI), FdFlags { brs: true, esi: true });
}

#[test]
fn classic_frame_too_long() {
    let too_long = [0u8; 9];
    assert!(matches!(
        Frame::new_classic(CanId::standard(0x100), &too_long),
        Err(FrameError::DataTooLong { len: 9, max: 8 })
    ));
}

#[test]
fn fd_frame_max_len() {
    let max = [0xAAu8; 64];
    let f = Frame::new_fd(CanId::standard(0x100), &max, FdFlags::default()).unwrap();
    assert_eq!(f.data(), &max[..]);
    assert!(f.is_fd());
}

#[test]
fn classic_round_trip_through_wire() {
    let before =
        Frame::new_classic(CanId::standard(0x123), &[0xDE, 0xAD, 0xBE, 0xEF]).unwrap();
    let wire = WireFrame::from_frame(&before);
    let bytes = wire.to_bytes();
    let decoded = decode_wire(&bytes[..CAN_FRAME_SIZE], None).unwrap();
    match decoded {
        DecodedFrame::Data(f) => {
            assert_eq!(f.id, before.id);
            assert!(matches!(f.kind, FrameKind::Classic));
            assert_eq!(f.data(), before.data());
        }
        other => panic!("expected data frame, got {other:?}"),
    }
}

#[test]
fn extended_with_eff_flag() {
    let f = Frame::new_classic(CanId::extended(0x1ABC_DEF0), &[]).unwrap();
    let w = WireFrame::from_frame(&f);
    assert_eq!(w.can_id & CAN_EFF_FLAG, CAN_EFF_FLAG);
    assert_eq!(w.can_id & CAN_EFF_MASK, 0x1ABC_DEF0);
}

#[test]
fn fd_round_trip_through_wire() {
    let payload: Vec<u8> = (0..32).collect();
    let before = Frame::new_fd(
        CanId::extended(0x1FFF_FFFF),
        &payload,
        FdFlags { brs: true, esi: true },
    )
    .unwrap();
    let wire = WireFrame::from_frame(&before);
    let bytes = wire.to_bytes();
    let decoded = decode_wire(&bytes[..CANFD_FRAME_SIZE], Some(123_456_789)).unwrap();
    match decoded {
        DecodedFrame::Data(f) => {
            assert_eq!(f.id, before.id);
            assert!(matches!(f.kind, FrameKind::Fd(FdFlags { brs: true, esi: true })));
            assert_eq!(f.data(), &payload[..]);
            assert_eq!(f.timestamp_ns, Some(123_456_789));
        }
        other => panic!("expected data frame, got {other:?}"),
    }
}

#[test]
fn rtr_decoded_separately() {
    let mut buf = [0u8; CAN_FRAME_SIZE];
    let id = 0x456 | CAN_RTR_FLAG;
    buf[0..4].copy_from_slice(&id.to_ne_bytes());
    buf[4] = 4;
    match decode_wire(&buf, None).unwrap() {
        DecodedFrame::Rtr { id, len } => {
            assert_eq!(id, CanId::Standard(0x456));
            assert_eq!(len, 4);
        }
        other => panic!("expected RTR, got {other:?}"),
    }
}

#[test]
fn error_frame_decoded_separately() {
    let mut buf = [0u8; CAN_FRAME_SIZE];
    let id = CAN_ERR_FLAG | CAN_ERR_BUSOFF;
    buf[0..4].copy_from_slice(&id.to_ne_bytes());
    buf[4] = 8;
    buf[8..16].copy_from_slice(&[1, 2, 3, 4, 5, 6, 7, 8]);
    match decode_wire(&buf, None).unwrap() {
        DecodedFrame::Error { class, data, len } => {
            assert_eq!(class, CAN_ERR_BUSOFF);
            assert_eq!(len, 8);
            assert_eq!(&data, &[1, 2, 3, 4, 5, 6, 7, 8]);
        }
        other => panic!("expected error frame, got {other:?}"),
    }
}

#[test]
fn display_classic() {
    let f = Frame::new_classic(CanId::standard(0x123), &[0xDE, 0xAD]).unwrap();
    assert_eq!(f.to_string(), "123#DEAD");
}

#[test]
fn display_fd_with_brs() {
    let f = Frame::new_fd(
        CanId::standard(0x123),
        &[0xDE, 0xAD],
        FdFlags { brs: true, esi: false },
    )
    .unwrap();
    assert_eq!(f.to_string(), "123##1DEAD");
}

#[test]
fn display_extended_pads_to_eight_digits() {
    let f = Frame::new_classic(CanId::extended(0xABC), &[0x01]).unwrap();
    assert_eq!(f.to_string(), "00000ABC#01");
    assert_eq!(CanId::standard(0x7).to_string(), "007");
}

#[test]
fn frame_error_text() {
    let e = Frame::new_fd(CanId::standard(1), &[0u8; 65], FdFlags::default()).unwrap_err();
    assert_eq!(e.to_string(), "payload 65 bytes exceeds maximum 64 bytes");
    assert_eq!(MAX_DATA_LEN, 8);
    assert_eq!(MAX_FD_DATA_LEN, 64);
}

#[test]
fn from_wire_ignores_rtr_and_error_flags() {
    let id = CanId::extended(0x1234_5678);
    assert_eq!(CanId::from_wire(id.to_wire() | CAN_RTR_FLAG), id);
    assert_eq!(CanId::from_wire(id.to_wire() | CAN_ERR_FLAG), id);
}

#[test]
fn wire_bytes_in_both_orders() {
    let f = Frame::new_classic(CanId::extended(0x0102_0304), &[9]).unwrap();
    let w = WireFrame::from_frame(&f);
    assert_eq!(w.to_bytes_in(ByteOrder::Little)[..9], [0x04, 0x03, 0x02, 0x81, 1, 0, 0, 0, 9]);
    assert_eq!(w.to_bytes_in(ByteOrder::Big)[..9], [0x81, 0x02, 0x03, 0x04, 1, 0, 0, 0, 9]);
}

#[test]
fn native_order_is_that_of_the_machine() {
    let expected = if 1u16.to_ne_bytes()[0] == 1 { ByteOrder::Little } else { ByteOrder::Big };
    assert_eq!(native_order(), expected);
}

#[test]
fn short_buffers_hold_no_frame() {
    assert!(decode_wire(&[0u8; 15], None).is_none());
    assert!(decode_wire(&[], None).is_none());
}

#[test]
fn excessive_lengths_count_as_the_maximum() {
    let mut buf = [7u8; CAN_FRAME_SIZE];
    buf[0..4].copy_from_slice(&[0, 0, 0, 0]);
    buf[4] = 200;
    match decode_wire_in(ByteOrder::Little, &buf, None).unwrap() {
        DecodedFrame::Data(f) => assert_eq!(f.data(), &[7u8; 8]),
        other => panic!("expected data frame, got {other:?}"),
    }
    let mut fd = [7u8; CANFD_FRAME_SIZE];
    fd[0..4].copy_from_slice(&[0, 0, 0, 0]);
    fd[4] = 200;
    match decode_wire_in(ByteOrder::Big, &fd, None).unwrap() {
        DecodedFrame::Data(f) => assert_eq!(f.data(), &[7u8; 64]),
        other => panic!("expected data frame, got {other:?}"),
    }
}

#[test]
fn zeroed_frame_is_an_empty_classic_one() {
    let f = Frame::zeroed();
    assert_eq!(f.id, CanId::Standard(0));
    assert!(!f.is_fd());
    assert_eq!(f.data(), &[] as &[u8]);
    assert_eq!(f.timestamp_ns, None);
    let w = WireFrame::zeroed();
    assert_eq!((w.can_id, w.len, w.flags), (0, 0, 0));
    assert_eq!(WireFrame::wire_size(false), 16);
    assert_eq!(WireFrame::wire_size(true), 72);
}

#[test]
fn frame_kind_flags() {
    assert!(!FrameKind::Classic.is_fd());
    let k = FrameKind::Fd(FdFlags { brs: false, esi: true });
    assert!(k.is_fd());
    assert_eq!(k.fd_flags(), FdFlags { brs: false, esi: true });
    assert_eq!(FrameKind::Classic.fd_flags(), FdFlags::default());
}
