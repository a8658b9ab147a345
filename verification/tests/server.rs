//! The tools of the server.
use mcanbus::frame::FrameKind;
use mcanbus::server::{
    build_filters, build_frame, default_max_frames, default_padding, default_timeout_ms, failure,
    parse_hex_bytes, parse_hex_id, parse_single_hex_byte, Capture, CaptureArgs, Config,
    FilterEntry, FilterSpec, FrameJson, IsoTpReply, IsoTpRequestArgs, Refusal, SendAndCaptureArgs,
    SendFrameArgs, SendFrameInline,
};
use mcanbus::time::TimeSpan;
use mcanbus::{CanFilter, CanId, FdFlags, Frame, OpenOpts};

fn reason<T>(r: Result<T, Refusal>) -> String {
    match r {
        Ok(_) => panic!("not refused"),
        Err(Refusal::Invalid(s)) => s,
        Err(Refusal::SplitCharacter) => "split".to_string(),
    }
}

#[test]
fn settings() {
    let c = Config::from_settings(" vcan0, ,can0,,", "TRUE");
    assert_eq!(c.allowlist, ["vcan0", "can0"]);
    assert!(c.readonly);
    for on in ["1", "true", "Yes", "oN"] {
        assert!(Config::from_settings("", on).readonly);
    }
    for off in ["", "0", "false", "2", " 1", "on "] {
        assert!(!Config::from_settings("", off).readonly);
    }
    assert!(Config::from_settings("", "").allowlist.is_empty());
}

#[test]
fn gates() {
    let c = Config::from_settings("can0", "");
    assert!(c.check_iface("can0").is_ok());
    assert_eq!(
        reason(c.check_iface("can1")),
        "interface 'can1' is not in the allowlist (set SOCKETCAN_MCP_INTERFACES)"
    );
    assert!(c.check_writable().is_ok());
    assert_eq!(
        reason(Config::from_settings("can0", "1").check_writable()),
        "server is in read-only mode (SOCKETCAN_MCP_READONLY=1)"
    );
}

#[test]
fn identifiers() {
    assert_eq!(parse_hex_id("7DF", false).unwrap(), CanId::Standard(0x7DF));
    assert_eq!(parse_hex_id("0x18daf101", true).unwrap(), CanId::Extended(0x18DA_F101));
    assert_eq!(parse_hex_id("0X12", false).unwrap(), CanId::Standard(0x12));
    assert_eq!(parse_hex_id("0x0x0X12", false).unwrap(), CanId::Standard(0x12));
    // Digits only; and the large letter comes last.
    assert_eq!(reason(parse_hex_id("0X0x12", false)), "bad id '0x12': invalid digit found in string");
    assert_eq!(reason(parse_hex_id("+1", false)), "bad id '+1': invalid digit found in string");
    // Bits without room are cut off.
    assert_eq!(parse_hex_id("12345FFF", false).unwrap(), CanId::Standard(0x7FF));
    assert_eq!(parse_hex_id("FFFFFFFF", true).unwrap(), CanId::Extended(0x1FFF_FFFF));
    assert_eq!(reason(parse_hex_id("0x", false)), "bad id '': cannot parse integer from empty string");
    assert_eq!(reason(parse_hex_id("0xzz", false)), "bad id 'zz': invalid digit found in string");
    assert_eq!(
        reason(parse_hex_id("100000000", true)),
        "bad id '100000000': number too large to fit in target type"
    );
    assert_eq!(reason(parse_hex_id("-1", true)), "bad id '-1': invalid digit found in string");
}

#[test]
fn numbers_without_a_sign_read_as_in_the_standard_library() {
    for s in ["", "+", "-", "-0", "0", "7f", "FF", "100", "1g", "g1", "ffffffffz", "++1", "\u{e9}"] {
        let expected = u8::from_str_radix(s, 16).map_err(|e| format!("bad hex byte '{s}': {e}"));
        let got = parse_single_hex_byte(s);
        match expected {
            Ok(v) => assert_eq!(got.unwrap(), v),
            Err(m) => assert_eq!(reason(got), m),
        }
    }
}

#[test]
fn single_bytes() {
    assert_eq!(parse_single_hex_byte("CC").unwrap(), 0xCC);
    assert_eq!(parse_single_hex_byte("0x0").unwrap(), 0);
    assert_eq!(
        reason(parse_single_hex_byte("+ff")),
        "bad hex byte '+ff': invalid digit found in string"
    );
    assert_eq!(
        reason(parse_single_hex_byte("0x100")),
        "bad hex byte '100': number too large to fit in target type"
    );
    assert_eq!(default_padding(), "CC");
    assert_eq!((default_timeout_ms(), default_max_frames()), (1000, 256));
}

#[test]
fn byte_strings() {
    assert_eq!(parse_hex_bytes("020100").unwrap(), vec![2, 1, 0]);
    assert_eq!(parse_hex_bytes("").unwrap(), Vec::<u8>::new());
    assert_eq!(parse_hex_bytes("0xDEadBEef").unwrap(), vec![0xDE, 0xAD, 0xBE, 0xEF]);
    assert_eq!(parse_hex_bytes("0Xff").unwrap(), vec![0xFF]);
    assert_eq!(parse_hex_bytes("0x0x01").unwrap(), vec![1]);
    assert_eq!(parse_hex_bytes("0x0X").unwrap(), Vec::<u8>::new());
    // Digits only: a sign is none.
    assert_eq!(
        reason(parse_hex_bytes("+F")),
        "bad hex byte at offset 0: invalid digit found in string"
    );
    assert_eq!(
        reason(parse_hex_bytes("020+00")),
        "bad hex byte at offset 2: invalid digit found in string"
    );
    assert_eq!(
        reason(parse_hex_bytes("0X0x01")),
        "bad hex byte at offset 0: invalid digit found in string"
    );
    assert_eq!(reason(parse_hex_bytes("123")), "data hex string must have even length");
    assert_eq!(
        reason(parse_hex_bytes("00ZZ")),
        "bad hex byte at offset 2: invalid digit found in string"
    );
    // A character of two bytes is read as a whole.
    assert_eq!(
        reason(parse_hex_bytes("00\u{e9}")),
        "bad hex byte at offset 2: invalid digit found in string"
    );
    // One of three bytes cannot be, nor one that is cut in the middle.
    assert!(matches!(parse_hex_bytes("0\u{e9}0"), Err(Refusal::SplitCharacter)));
    assert!(matches!(parse_hex_bytes("\u{20ac}0"), Err(Refusal::SplitCharacter)));
    // What is wrong before counts.
    assert_eq!(
        reason(parse_hex_bytes("ZZ\u{20ac}0")),
        "bad hex byte at offset 0: invalid digit found in string"
    );
    assert_eq!(reason(parse_hex_bytes("\u{20ac}")), "data hex string must have even length");
}

fn inline(id: &str, data: &str) -> SendFrameInline {
    SendFrameInline { id: id.into(), extended: false, data: data.into(), fd: false, brs: false }
}

#[test]
fn frames_are_built() {
    let f = build_frame(&inline("7DF", "020100")).unwrap();
    assert_eq!(f.to_string(), "7DF#020100");
    let f = build_frame(&SendFrameInline { extended: true, fd: true, brs: true, ..inline("1", "00") })
        .unwrap();
    assert_eq!(f.to_string(), "00000001##100");
    assert_eq!(
        reason(build_frame(&inline("1", "000102030405060708"))),
        "invalid frame: payload 9 bytes exceeds maximum 8 bytes"
    );
    assert_eq!(
        reason(build_frame(&SendFrameInline { fd: true, ..inline("1", &"00".repeat(65)) })),
        "invalid frame: payload 65 bytes exceeds maximum 64 bytes"
    );
    // The identifier is looked at first.
    assert!(reason(build_frame(&inline("x", "1"))).starts_with("bad id"));
}

fn filter(id: &str, mask: &str, extended: bool) -> FilterEntry {
    FilterEntry { id: id.into(), mask: mask.into(), extended }
}

#[test]
fn filters_are_built() {
    let spec = FilterSpec { entries: vec![filter("7E8", "0x7F8", false), filter("1", "2", true)] };
    assert_eq!(
        build_filters(&spec).unwrap(),
        vec![
            CanFilter { id: 0x7E8, mask: 0x7F8 },
            CanFilter { id: 0x8000_0001, mask: 0x8000_0002 },
        ]
    );
    let bad = |e| reason(build_filters(&FilterSpec { entries: vec![filter("1", "1", false), e] }));
    assert_eq!(bad(filter("q", "1", false)), "bad filter id: invalid digit found in string");
    assert_eq!(bad(filter("1", "", false)), "bad filter mask: cannot parse integer from empty string");
    assert_eq!(
        build_filters(&FilterSpec { entries: vec![filter("0x0x5", "0x7", false)] }).unwrap(),
        vec![CanFilter { id: 5, mask: 7 }]
    );
    // A sign is no digit.
    assert_eq!(bad(filter("+1", "1", false)), "bad filter id: invalid digit found in string");
    assert_eq!(bad(filter("1", "0x+1", false)), "bad filter mask: invalid digit found in string");
    // Only the small letter is a prefix here.
    assert_eq!(bad(filter("0X1", "1", false)), "bad filter id: invalid digit found in string");
    assert!(build_filters(&FilterSpec { entries: vec![] }).unwrap().is_empty());
}

#[test]
fn frames_in_words() {
    let mut f = Frame::new_fd(CanId::extended(0x1A), &[0xDE, 0xAD], FdFlags { brs: true, esi: true })
        .unwrap();
    f.timestamp_ns = Some(5);
    let j = FrameJson::from_frame(&f);
    assert_eq!((j.id.as_str(), j.data.as_str(), j.dlc), ("0000001A", "DEAD", 2));
    assert!(j.extended && j.fd && j.brs && j.esi);
    assert_eq!(j.timestamp_ns, Some(5));
    let j = FrameJson::from_frame(&Frame::new_classic(CanId::standard(0x7), &[]).unwrap());
    assert_eq!((j.id.as_str(), j.data.as_str(), j.dlc), ("007", "", 0));
    assert!(!j.extended && !j.fd && !j.brs && !j.esi);
}

#[test]
fn described_frames_can_be_sent_again() {
    let f = Frame::new_fd(CanId::extended(0x1ABC), &[0, 0xFF, 0x7E], FdFlags { brs: true, esi: false })
        .unwrap();
    let j = FrameJson::from_frame(&f);
    let again = build_frame(&SendFrameInline {
        id: j.id,
        extended: j.extended,
        data: j.data,
        fd: j.fd,
        brs: j.brs,
    })
    .unwrap();
    assert_eq!((again.id, again.kind, again.data()), (f.id, f.kind, f.data()));
}

fn same_but_timeout_and_filter(o: &OpenOpts, ms: u64, filters: Option<usize>) {
    let d = OpenOpts::default();
    assert_eq!((o.fd, o.recv_buf_bytes, o.send_buf_bytes), (d.fd, d.recv_buf_bytes, d.send_buf_bytes));
    assert_eq!((o.timestamping, o.error_filter, o.nonblocking), (d.timestamping, None, false));
    assert_eq!(o.recv_timeout, Some(TimeSpan::from_millis(ms)));
    assert_eq!(o.filter.as_ref().map(|f| f.len()), filters);
    assert!(!o.clear_filter);
}

fn send_args(iface: &str) -> SendFrameArgs {
    SendFrameArgs { iface: iface.into(), frame: inline("123", "AB") }
}

#[test]
fn send_frame_is_planned() {
    let c = Config::from_settings("can0", "");
    let p = c.send_frame(&send_args("can0")).unwrap();
    assert_eq!((p.iface.as_str(), p.frame.to_string().as_str()), ("can0", "123#AB"));
    same_but_timeout_and_filter(&p.opts, 500, None);
    assert!(reason(c.send_frame(&send_args("can1"))).contains("not in the allowlist"));
    // The allowlist is looked at first, then read-only mode.
    let ro = Config::from_settings("can0", "1");
    assert!(reason(ro.send_frame(&send_args("can0"))).contains("read-only"));
    assert!(reason(ro.send_frame(&send_args("can1"))).contains("not in the allowlist"));
}

fn capture_args(iface: &str, max_frames: usize, filter: Option<FilterSpec>) -> CaptureArgs {
    CaptureArgs { iface: iface.into(), timeout_ms: 200, max_frames, filter }
}

#[test]
fn capture_is_planned() {
    // Read-only mode does not matter.
    let c = Config::from_settings("can0", "1");
    let p = c.capture(&capture_args("can0", 5000, None)).unwrap();
    assert_eq!((p.iface.as_str(), p.timeout_ms, p.max_frames), ("can0", 200, 4096));
    same_but_timeout_and_filter(&p.opts, 100, None);
    let spec = FilterSpec { entries: vec![filter("1", "2", false)] };
    let p = c.capture(&capture_args("can0", 10, Some(spec))).unwrap();
    assert_eq!(p.max_frames, 10);
    same_but_timeout_and_filter(&p.opts, 100, Some(1));
    assert!(reason(c.capture(&capture_args("can1", 1, None))).contains("'can1'"));
    let spec = FilterSpec { entries: vec![filter("", "2", false)] };
    assert!(reason(c.capture(&capture_args("can0", 1, Some(spec)))).starts_with("bad filter id"));
}

fn isotp_args() -> IsoTpRequestArgs {
    IsoTpRequestArgs {
        iface: "can0".into(),
        tx_id: "18DA00F9".into(),
        rx_id: "18DAF900".into(),
        extended: true,
        payload: "1A90".into(),
        padding: default_padding(),
        timeout_ms: 1500,
        block_size: 3,
        st_min_ms: 4,
    }
}

#[test]
fn isotp_request_is_planned() {
    let c = Config::from_settings("can0", "");
    let p = c.isotp_request(&isotp_args()).unwrap();
    assert_eq!((p.tx_id, p.rx_id), (CanId::Extended(0x18DA_00F9), CanId::Extended(0x18DA_F900)));
    assert_eq!(p.payload, vec![0x1A, 0x90]);
    assert_eq!((p.options.padding, p.options.block_size, p.options.st_min_ms), (0xCC, 3, 4));
    assert_eq!((p.options.max_waits, p.options.timeout), (8, TimeSpan::from_millis(1500)));
    same_but_timeout_and_filter(&p.opts, 50, None);
    assert!(Config::from_settings("can0", "1").isotp_request(&isotp_args()).is_err());
    assert!(Config::from_settings("can1", "").isotp_request(&isotp_args()).is_err());
    let bad = |a: IsoTpRequestArgs| reason(c.isotp_request(&a));
    assert!(bad(IsoTpRequestArgs { tx_id: "?".into(), ..isotp_args() }).starts_with("bad id '?'"));
    assert!(bad(IsoTpRequestArgs { rx_id: "!".into(), ..isotp_args() }).starts_with("bad id '!'"));
    assert!(bad(IsoTpRequestArgs { payload: "1".into(), ..isotp_args() }).contains("even length"));
    assert!(bad(IsoTpRequestArgs { padding: "".into(), ..isotp_args() }).starts_with("bad hex byte ''"));
}

fn both_args(rx: Option<&str>) -> SendAndCaptureArgs {
    SendAndCaptureArgs {
        iface: "can0".into(),
        rx_iface: rx.map(String::from),
        frame: inline("7DF", "020100"),
        timeout_ms: 200,
        max_frames: 9999,
        filter: Some(FilterSpec { entries: vec![filter("7E8", "7F8", false)] }),
    }
}

#[test]
fn send_and_capture_is_planned() {
    let c = Config::from_settings("can0,can1", "");
    for rx in [None, Some("can0")] {
        let p = c.send_and_capture(&both_args(rx)).unwrap();
        assert_eq!(p.capture.iface, "can0");
        assert!(p.tx_iface.is_none());
    }
    let p = c.send_and_capture(&both_args(Some("can1"))).unwrap();
    assert_eq!((p.capture.iface.as_str(), p.tx_iface.as_deref()), ("can1", Some("can0")));
    assert_eq!((p.capture.timeout_ms, p.capture.max_frames), (200, 4096));
    assert!(matches!(p.frame.kind, FrameKind::Classic));
    same_but_timeout_and_filter(&p.capture.opts, 50, Some(1));
    same_but_timeout_and_filter(&p.tx_opts, 500, None);
    assert!(reason(c.send_and_capture(&both_args(Some("can2")))).contains("'can2'"));
    assert!(Config::from_settings("can0,can1", "on").send_and_capture(&both_args(None)).is_err());
    assert!(Config::from_settings("can1", "").send_and_capture(&both_args(Some("can1"))).is_err());
}

#[test]
fn nothing_is_allowed_by_default() {
    let c = Config::from_settings("", "");
    assert!(c.send_frame(&send_args("can0")).is_err());
    assert!(c.capture(&capture_args("can0", 1, None)).is_err());
    assert!(c.isotp_request(&isotp_args()).is_err());
    assert!(c.send_and_capture(&both_args(None)).is_err());
    assert!(c.check_iface("").is_err());
}

#[test]
fn captures_stop() {
    let f = Frame::new_classic(CanId::standard(1), &[7]).unwrap();
    let mut c = Capture::new(2);
    assert!(c.goes_on(true) && !c.goes_on(false));
    c.add_frame(f);
    assert!(c.goes_on(true));
    c.add_frame(f);
    assert!(!c.goes_on(true));
    let json = c.to_json();
    assert_eq!((json.len(), json[1].data.as_str()), (2, "07"));
    assert!(!Capture::new(0).goes_on(true));
}

#[test]
fn replies_in_words() {
    let r = IsoTpReply::from_response(b"\x5A\x90YS2R6X40005412735");
    assert_eq!(r.len, 19);
    assert_eq!(r.hex, "5A905953325236583430303035343132373335");
    assert_eq!(r.ascii, "Z.YS2R6X40005412735");
    assert_eq!(IsoTpReply::from_response(&[0x1F, 0x20, 0x7E, 0x7F, 0xFF]).ascii, ". ~..");
    assert_eq!(failure("open can0", "No such device"), "open can0: No such device");
}
