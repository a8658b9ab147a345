//! ISO-TP frames and exchanges.
use mcanbus::error::ErrorKind;
use mcanbus::isotp::{
    decode_st_min, encode_cf_frame, encode_fc_frame, encode_ff_frame, encode_sf_frame, request,
    Action, IsoTpError, Options, Session, FC_CTS, FF_FIRST_PAYLOAD,
};
use mcanbus::{CanId, Frame};

#[test]
fn sf_encoding() {
    let f = encode_sf_frame(&[0x1A, 0x90], 0xCC);
    assert_eq!(f, [0x02, 0x1A, 0x90, 0xCC, 0xCC, 0xCC, 0xCC, 0xCC]);
}

#[test]
fn sf_encoding_max_len() {
    let f = encode_sf_frame(&[1, 2, 3, 4, 5, 6, 7], 0x00);
    assert_eq!(f, [0x07, 1, 2, 3, 4, 5, 6, 7]);
}

#[test]
fn ff_encoding_19_bytes() {
    // The exact pattern seen on a Scania bus: 19-byte response total.
    let payload = [0x5A, 0x90, b'Y', b'S', b'2', b'R'];
    let f = encode_ff_frame(0x013, &payload, 0xCC);
    assert_eq!(f, [0x10, 0x13, 0x5A, 0x90, b'Y', b'S', b'2', b'R']);
}

#[test]
fn ff_encoding_max_length() {
    let payload = [0u8; FF_FIRST_PAYLOAD];
    let f = encode_ff_frame(0xFFF, &payload, 0xAA);
    assert_eq!(f[0], 0x1F);
    assert_eq!(f[1], 0xFF);
}

#[test]
fn cf_encoding_seq_wraparound() {
    let f = encode_cf_frame(1, &[1, 2, 3, 4, 5, 6, 7], 0xCC);
    assert_eq!(f, [0x21, 1, 2, 3, 4, 5, 6, 7]);
    let f15 = encode_cf_frame(15, &[0xAA], 0xCC);
    assert_eq!(f15[0], 0x2F);
    let f16 = encode_cf_frame(16, &[0xAA], 0xCC); // wraps to 0
    assert_eq!(f16[0], 0x20);
}

#[test]
fn cf_short_chunk_padded() {
    let f = encode_cf_frame(2, &[0x34, 0x31, 0x32, 0x37, 0x33, 0x35], 0xCC);
    assert_eq!(f, [0x22, 0x34, 0x31, 0x32, 0x37, 0x33, 0x35, 0xCC]);
}

#[test]
fn fc_encoding_cts() {
    let f = encode_fc_frame(FC_CTS, 0, 0, 0xCC);
    assert_eq!(f, [0x30, 0x00, 0x00, 0xCC, 0xCC, 0xCC, 0xCC, 0xCC]);
}

#[test]
fn fc_encoding_with_block_size_and_stmin() {
    let f = encode_fc_frame(FC_CTS, 8, 10, 0x00);
    assert_eq!(f[0], 0x30);
    assert_eq!(f[1], 8);
    assert_eq!(f[2], 10);
}

#[test]
fn fc_st_min_caps_at_127ms() {
    let f = encode_fc_frame(FC_CTS, 0, 200, 0x00);
    assert_eq!(f[2], 0x7F);
}

#[test]
fn st_min_decode_ms_range() {
    assert_eq!(decode_st_min(0x00), 0);
    assert_eq!(decode_st_min(0x05), 5);
    assert_eq!(decode_st_min(0x7F), 127);
}

#[test]
fn st_min_decode_microsecond_range() {
    // 0xF1..=0xF9 = 100..=900 us: round to 1 ms.
    for b in 0xF1..=0xF9 {
        assert_eq!(decode_st_min(b), 1);
    }
}

#[test]
fn st_min_decode_reserved_is_conservative() {
    assert_eq!(decode_st_min(0x80), 0x7F);
    assert_eq!(decode_st_min(0xFA), 0x7F);
}

fn tx() -> CanId {
    CanId::extended(0x18DA_00F9)
}

fn rx() -> CanId {
    CanId::extended(0x18DA_F900)
}

fn start(payload: &[u8], opts: &Options) -> Session {
    request(tx(), rx(), payload, opts).unwrap()
}

/// Sends whatever is to be sent; gives the payloads and what comes next.
fn send_all(mut s: Session) -> (Vec<Vec<u8>>, Session) {
    let mut out = Vec::new();
    loop {
        match s.action() {
            Action::Send(f) => {
                assert_eq!(f.id, tx());
                out.push(f.data().to_vec());
                s = s.sent();
            }
            Action::Pause(_) => s = s.paused(),
            Action::Receive | Action::Finish => return (out, s),
        }
    }
}

fn hear(s: Session, data: &[u8]) -> Session {
    s.received(&Frame::new_classic(rx(), data).unwrap())
}

fn failure(s: Session) -> IsoTpError {
    s.into_result().expect("over").unwrap_err()
}

#[test]
fn vin_is_read() {
    let (sent, s) = send_all(start(&[0x1A, 0x90], &Options::default()));
    assert_eq!(sent, vec![vec![0x02, 0x1A, 0x90, 0xCC, 0xCC, 0xCC, 0xCC, 0xCC]]);
    let s = hear(s, &[0x10, 0x13, 0x5A, 0x90, b'Y', b'S', b'2', b'R']);
    let (sent, s) = send_all(s);
    assert_eq!(sent, vec![vec![0x30, 0, 0, 0xCC, 0xCC, 0xCC, 0xCC, 0xCC]]);
    let s = hear(s, b"\x216X40005");
    assert!(s.clone().into_result().is_none());
    let s = hear(s, b"\x22412735\xCC");
    assert!(matches!(s.action(), Action::Finish));
    assert_eq!(s.into_result().unwrap().unwrap(), b"\x5A\x90YS2R6X40005412735".to_vec());
}

#[test]
fn single_frame_response() {
    let (_, s) = send_all(start(&[0x3E, 0x00], &Options::default()));
    let s = hear(s, &[0x02, 0x7E, 0x00, 0xAA]);
    assert_eq!(s.into_result().unwrap().unwrap(), vec![0x7E, 0x00]);
}

#[test]
fn long_request_is_segmented() {
    let payload: Vec<u8> = (0..20).collect();
    let (sent, s) = send_all(start(&payload, &Options::default()));
    assert_eq!(sent, vec![vec![0x10, 20, 0, 1, 2, 3, 4, 5]]);
    let s = hear(s, &[0x30, 0, 0]);
    let (sent, s) = send_all(s);
    assert_eq!(
        sent,
        vec![
            vec![0x21, 6, 7, 8, 9, 10, 11, 12],
            vec![0x22, 13, 14, 15, 16, 17, 18, 19],
        ]
    );
    assert!(matches!(s.action(), Action::Receive));
}

#[test]
fn longest_request_wraps_the_sequence() {
    let payload = vec![0x55u8; 4095];
    let (sent, s) = send_all(start(&payload, &Options::default()));
    assert_eq!(sent[0][..2], [0x1F, 0xFF]);
    let (sent, _) = send_all(hear(s, &[0x30, 0, 0]));
    assert_eq!(sent.len(), 585);
    assert_eq!(sent[14][0], 0x2F);
    assert_eq!(sent[15][0], 0x20);
    assert_eq!(sent[584], vec![0x29, 0x55, 0xCC, 0xCC, 0xCC, 0xCC, 0xCC, 0xCC]);
}

#[test]
fn separation_time_is_kept() {
    let payload: Vec<u8> = (0..20).collect();
    let (_, s) = send_all(start(&payload, &Options::default()));
    let s = hear(s, &[0x30, 0, 5]);
    assert!(matches!(s.action(), Action::Send(_)));
    let s = s.sent();
    assert!(matches!(s.action(), Action::Pause(5)));
    let s = s.paused();
    assert!(matches!(s.action(), Action::Send(_)));
    // None after the last frame.
    assert!(matches!(s.sent().action(), Action::Receive));
}

#[test]
fn frames_of_others_are_ignored() {
    let (_, s) = send_all(start(&[1], &Options::default()));
    let s = s.received(&Frame::new_classic(CanId::standard(0x100), &[0x01, 0x99]).unwrap());
    assert!(matches!(s.action(), Action::Receive));
    assert_eq!(hear(s, &[0x01, 0x42]).into_result().unwrap().unwrap(), vec![0x42]);
}

#[test]
fn bad_requests() {
    let o = Options::default();
    let e = request(tx(), rx(), &[], &o).unwrap_err();
    assert_eq!(e, IsoTpError::EmptyPayload);
    assert_eq!((e.kind(), e.message().as_str()), (ErrorKind::InvalidInput, "payload must not be empty"));
    let e = request(tx(), rx(), &[0; 4096], &o).unwrap_err();
    assert_eq!(e, IsoTpError::PayloadTooLong { len: 4096 });
    assert_eq!(e.kind(), ErrorKind::InvalidInput);
    assert_eq!(e.message(), "payload 4096 bytes exceeds 12-bit FF length cap (4095)");
}

#[test]
fn deadlines() {
    let (_, s) = send_all(start(&[1], &Options::default()));
    let e = failure(s.expired());
    assert_eq!((e.kind(), e.message().as_str()), (ErrorKind::TimedOut, "no response from ECU"));
    let (_, s) = send_all(start(&[1; 8], &Options::default()));
    let e = failure(s.expired());
    assert_eq!(e.kind(), ErrorKind::TimedOut);
    assert_eq!(e.message(), "timed out waiting for Flow Control");
    let (_, s) = send_all(start(&[1], &Options::default()));
    let (_, s) = send_all(hear(s, &[0x10, 0x13, 1, 2, 3, 4, 5, 6]));
    let e = failure(s.expired());
    assert_eq!(e.kind(), ErrorKind::TimedOut);
    assert_eq!(e.message(), "timed out collecting Consecutive Frames");
}

#[test]
fn flow_control_errors() {
    let begin = || send_all(start(&[1; 8], &Options::default())).1;
    let e = failure(hear(begin(), &[0x21, 1]));
    assert_eq!(e.kind(), ErrorKind::InvalidData);
    assert_eq!(e.message(), "expected Flow Control, got PCI byte 0x21");
    let e = failure(hear(begin(), &[0x32]));
    assert_eq!((e.kind(), e.message().as_str()), (ErrorKind::Other, "ECU returned Flow Control Overflow"));
    let e = failure(hear(begin(), &[0x3A]));
    assert_eq!(e.kind(), ErrorKind::InvalidData);
    assert_eq!(e.message(), "unknown Flow Control flag 0xA");
    let e = failure(hear(begin(), &[0x30, 4, 0]));
    assert_eq!(e.kind(), ErrorKind::Unsupported);
    assert_eq!(e.message(), "ECU's BlockSize > 0 not yet supported on the send path");
    // An empty frame is no Flow Control.
    assert!(matches!(hear(begin(), &[]).action(), Action::Receive));
    // Nor does one without block size and separation time lack anything.
    assert!(matches!(hear(begin(), &[0x30]).action(), Action::Send(_)));
}

#[test]
fn waits_are_counted() {
    let opts = Options { max_waits: 2, ..Options::default() };
    let (_, s) = send_all(start(&[1; 8], &opts));
    let s = hear(hear(s, &[0x31]), &[0x31]);
    assert!(matches!(s.action(), Action::Receive));
    let e = failure(hear(s, &[0x31]));
    assert_eq!(e, IsoTpError::TooManyWaits { max: 2 });
    assert_eq!((e.kind(), e.message().as_str()), (ErrorKind::TimedOut, "ECU sent more than 2 Wait flow controls"));
}

#[test]
fn all_waits_are_tolerated_up_to_the_largest_limit() {
    let opts = Options { max_waits: 255, ..Options::default() };
    let (_, mut s) = send_all(start(&[1; 8], &opts));
    for _ in 0..255 {
        s = hear(s, &[0x31]);
        assert!(matches!(s.action(), Action::Receive));
    }
    assert_eq!(failure(hear(s, &[0x31])), IsoTpError::TooManyWaits { max: 255 });
}

#[test]
fn response_errors() {
    let begin = || send_all(start(&[1], &Options::default())).1;
    let cases: [(&[u8], &str); 8] = [
        (&[], "empty response frame"),
        (&[0x00, 1], "invalid Single Frame length 0x0"),
        (&[0x03, 1, 2], "invalid Single Frame length 0x3"),
        (&[0x10], "First Frame too short"),
        (&[0x10, 0x07, 1, 2], "First Frame with length 7 would have fit in SF"),
        (&[0x21, 1], "received unsolicited Consecutive Frame as response start"),
        (&[0x30, 0, 0], "received Flow Control while expecting response data"),
        (&[0x7F, 1], "unknown PCI type in response 0x7F"),
    ];
    for (data, message) in cases {
        let e = failure(hear(begin(), data));
        assert_eq!(e.kind(), ErrorKind::InvalidData);
        assert_eq!(e.message(), message);
    }
}

#[test]
fn consecutive_errors() {
    let begin = || {
        let (_, s) = send_all(start(&[1], &Options::default()));
        send_all(hear(s, &[0x10, 0x13, 1, 2, 3, 4, 5, 6])).1
    };
    let e = failure(hear(begin(), &[0x30, 0, 0]));
    assert_eq!((e.kind(), e.message().as_str()), (ErrorKind::InvalidData, "expected Consecutive Frame, got PCI 0x30"));
    let e = failure(hear(begin(), &[]));
    assert_eq!(e.message(), "expected Consecutive Frame, got PCI 0x00");
    let e = failure(hear(begin(), &[0x2B, 7, 8, 9]));
    assert_eq!((e.kind(), e.message().as_str()), (ErrorKind::InvalidData, "CF sequence mismatch: expected 1, got B"));
}

#[test]
fn outcomes_are_final() {
    let (_, s) = send_all(start(&[1], &Options::default()));
    let s = hear(s, &[0x01, 0x42]);
    let s = hear(s.expired().paused().sent(), &[0x01, 0x43]);
    assert_eq!(s.into_result().unwrap().unwrap(), vec![0x42]);
}

#[test]
fn default_options() {
    let o = Options::default();
    assert_eq!((o.padding, o.block_size, o.st_min_ms, o.max_waits), (0xCC, 0, 0, 8));
    assert_eq!((o.timeout.as_secs(), o.timeout.subsec_nanos()), (1, 0));
}
