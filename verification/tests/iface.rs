//! Interfaces and netlink messages.
use mcanbus::bytes::{native_order, ByteOrder};
use mcanbus::error::ErrorKind;
use mcanbus::iface::{
    list_can_interfaces, LinkAction, LinkGoal, LinkOutcome, LinkStep, LinkTask, NetEntry,
};
use mcanbus::netlink::{
    encode_get_link, encode_set_link, get_can_state_raw, nl_find_attr, nla_align, parse_ack,
    LinkError,
};
use mcanbus::text::NumberError;
use mcanbus::{CanState, Interface};

#[test]
fn list_does_not_crash() {
    assert!(list_can_interfaces(&[]).is_empty());
}

#[test]
fn nonexistent_index_errs() {
    let task = Interface::new("definitely_not_an_iface_xyz_42").index();
    let r = finished(&task.failed(19));
    assert_eq!(r, LinkOutcome::Failed(LinkError::Os { errno: 19 }));
}

#[test]
fn canstate_round_trip() {
    for raw in 0..=5 {
        let s = CanState::from_raw(raw).unwrap();
        // Just ensure mapping is stable.
        let _ = format!("{s:?}");
    }
    assert!(CanState::from_raw(99).is_none());
}

#[test]
fn canstate_numbers_and_names() {
    let states = [
        (CanState::ErrorActive, "ErrorActive"),
        (CanState::ErrorWarning, "ErrorWarning"),
        (CanState::ErrorPassive, "ErrorPassive"),
        (CanState::BusOff, "BusOff"),
        (CanState::Stopped, "Stopped"),
        (CanState::Sleeping, "Sleeping"),
    ];
    for (raw, (state, name)) in states.into_iter().enumerate() {
        assert_eq!(CanState::from_raw(raw as u32), Some(state));
        assert_eq!(state.name(), name);
        assert_eq!(format!("{state:?}"), name);
    }
    assert_eq!(CanState::from_raw(6), None);
}

#[test]
fn set_link_request_bytes() {
    assert_eq!(
        encode_set_link(ByteOrder::Little, 0x0102, true),
        vec![
            32, 0, 0, 0, 16, 0, 5, 0, 1, 0, 0, 0, 0, 0, 0, 0, // header
            0, 0, 0, 0, 2, 1, 0, 0, 1, 0, 0, 0, 1, 0, 0, 0, // ifinfomsg
        ]
    );
    assert_eq!(
        encode_set_link(ByteOrder::Big, 0x0102, false),
        vec![
            0, 0, 0, 32, 0, 16, 0, 5, 0, 0, 0, 1, 0, 0, 0, 0, //
            0, 0, 0, 0, 0, 0, 1, 2, 0, 0, 0, 0, 0, 0, 0, 1, //
        ]
    );
}

#[test]
fn get_link_request_bytes() {
    assert_eq!(
        encode_get_link(ByteOrder::Little, 7),
        vec![
            32, 0, 0, 0, 18, 0, 5, 0, 2, 0, 0, 0, 0, 0, 0, 0, //
            0, 0, 0, 0, 7, 0, 0, 0, 0, 0, 0, 0, 0, 0, 0, 0, //
        ]
    );
}

/// An acknowledgement in little-endian order with the given error code.
fn ack(code: i32) -> Vec<u8> {
    let mut m = vec![36, 0, 0, 0, 2, 0, 0, 0, 1, 0, 0, 0, 0, 0, 0, 0];
    m.extend_from_slice(&code.to_le_bytes());
    m
}

#[test]
fn acknowledgements() {
    let o = ByteOrder::Little;
    assert_eq!(parse_ack(o, &ack(0)), Ok(()));
    // EPERM comes back as it is.
    assert_eq!(parse_ack(o, &ack(-1)), Err(LinkError::Os { errno: 1 }));
    assert_eq!(parse_ack(o, &ack(-95)), Err(LinkError::Os { errno: 95 }));
    assert_eq!(parse_ack(o, &ack(0)[..15]), Err(LinkError::ShortReply));
    assert_eq!(parse_ack(o, &ack(0)[..19]), Err(LinkError::TruncatedReply));
    let mut other = ack(0);
    other[4] = 16;
    assert_eq!(parse_ack(o, &other), Err(LinkError::UnexpectedReply { kind: 16 }));
}

#[test]
fn link_error_messages() {
    assert_eq!(LinkError::ShortReply.message(), "netlink response shorter than nlmsghdr");
    assert_eq!(LinkError::ShortReply.kind(), Some(ErrorKind::Other));
    let e = LinkError::UnexpectedReply { kind: 16 };
    assert_eq!(e.message(), "unexpected netlink response type 16");
    assert_eq!(LinkError::TruncatedReply.message(), "netlink error response truncated");
    assert_eq!(LinkError::NulInName.message(), "interface name has nul byte");
    assert_eq!(LinkError::NulInName.kind(), Some(ErrorKind::InvalidInput));
    assert_eq!(LinkError::Os { errno: 1 }.kind(), None);
    assert_eq!(LinkError::Os { errno: 1 }.message(), "");
}

/// An attribute in little-endian order, with its padding.
fn attr(kind: u16, value: &[u8]) -> Vec<u8> {
    let mut m = ((value.len() + 4) as u16).to_le_bytes().to_vec();
    m.extend_from_slice(&kind.to_le_bytes());
    m.extend_from_slice(value);
    while m.len() % 4 != 0 {
        m.push(0);
    }
    m
}

#[test]
fn attributes_are_found() {
    let o = ByteOrder::Little;
    let run = [attr(1, b"abc"), attr(2, &[]), attr(3, b"12345"), attr(3, b"again")].concat();
    assert_eq!(nl_find_attr(o, &run, 1), Some(&b"abc"[..]));
    assert_eq!(nl_find_attr(o, &run, 2), Some(&b""[..]));
    assert_eq!(nl_find_attr(o, &run, 3), Some(&b"12345"[..]));
    assert_eq!(nl_find_attr(o, &run, 4), None);
    // The flag bits of the type do not count.
    assert_eq!(nl_find_attr(o, &attr(0x8003, b"x"), 3), Some(&b"x"[..]));
    // A length that does not fit ends the run.
    assert_eq!(nl_find_attr(o, &[3, 0, 1, 0, 0], 1), None);
    assert_eq!(nl_find_attr(o, &[9, 0, 1, 0, 0, 0, 0, 0], 1), None);
    // The last attribute need not be padded.
    assert_eq!(nl_find_attr(o, &[5, 0, 1, 0, 7], 1), Some(&[7u8][..]));
    assert_eq!(nl_find_attr(o, &[5, 0, 1, 0, 7], 2), None);
    assert_eq!(nl_find_attr(ByteOrder::Big, &[0, 5, 0, 1, 7], 1), Some(&[7u8][..]));
}

#[test]
fn alignment() {
    assert_eq!([0, 1, 4, 5, 8].map(nla_align), [0, 4, 4, 8, 8]);
}

fn description(attrs: &[u8]) -> Vec<u8> {
    let mut m = vec![0, 0, 0, 0, 16, 0, 0, 0, 2, 0, 0, 0, 0, 0, 0, 0];
    m.extend_from_slice(&[0; 16]);
    m.extend_from_slice(attrs);
    m
}

fn link_info(kind: &[u8], data: &[u8]) -> Vec<u8> {
    attr(18, &[attr(1, kind), attr(2, data)].concat())
}

#[test]
fn can_state_is_read() {
    let o = ByteOrder::Little;
    let data = [attr(1, &[9; 32]), attr(4, &3u32.to_le_bytes())].concat();
    let name = attr(3, b"can0\0");
    let reply = description(&[name, link_info(b"can\0", &data)].concat());
    assert_eq!(get_can_state_raw(o, &reply), Ok(Some(3)));
    // Not a CAN device.
    let reply = description(&link_info(b"vcan\0", &data));
    assert_eq!(get_can_state_raw(o, &reply), Ok(None));
    let reply = description(&link_info(b"canx", &data));
    assert_eq!(get_can_state_raw(o, &reply), Ok(None));
    let reply = description(&link_info(b"can", &data));
    assert_eq!(get_can_state_raw(o, &reply), Ok(Some(3)));
    // No state, or too little of it.
    let reply = description(&link_info(b"can\0", &attr(1, &[0])));
    assert_eq!(get_can_state_raw(o, &reply), Ok(None));
    let reply = description(&link_info(b"can\0", &attr(4, &[1, 2, 3])));
    assert_eq!(get_can_state_raw(o, &reply), Ok(None));
    assert_eq!(get_can_state_raw(o, &description(&[])), Ok(None));
    assert_eq!(get_can_state_raw(o, &[0; 31]), Ok(None));
    // An error, or an acknowledgement without a description.
    let mut refused = ack(-19);
    refused.extend_from_slice(&[0; 16]);
    assert_eq!(get_can_state_raw(o, &refused), Err(LinkError::Os { errno: 19 }));
    let mut acked = ack(0);
    acked.extend_from_slice(&[0; 16]);
    assert_eq!(get_can_state_raw(o, &acked), Ok(None));
}

fn finished(t: &LinkTask) -> LinkOutcome {
    match t.action() {
        LinkAction::Finish(o) => o,
        other => panic!("not finished: {other:?}"),
    }
}

fn exchange(t: &LinkTask) -> Vec<u8> {
    match t.action() {
        LinkAction::Exchange(m) => m,
        other => panic!("no exchange: {other:?}"),
    }
}

#[test]
fn link_is_taken_up() {
    let t = LinkTask::new("can0", LinkGoal::Change { up: true }, ByteOrder::Little);
    assert!(matches!(t.action(), LinkAction::Resolve));
    let t = t.resolved(4);
    assert_eq!(exchange(&t), encode_set_link(ByteOrder::Little, 4, true));
    assert_eq!(finished(&t.replied(&ack(0))), LinkOutcome::Done);
    let t = LinkTask::new("can0", LinkGoal::Change { up: false }, ByteOrder::Little).resolved(4);
    assert_eq!(exchange(&t), encode_set_link(ByteOrder::Little, 4, false));
    let end = finished(&t.replied(&ack(-1)));
    assert_eq!(end, LinkOutcome::Failed(LinkError::Os { errno: 1 }));
}

#[test]
fn link_is_cycled() {
    let t = LinkTask::new("can0", LinkGoal::Cycle, ByteOrder::Little).resolved(4);
    assert_eq!(exchange(&t), encode_set_link(ByteOrder::Little, 4, false));
    let t = t.replied(&ack(0));
    assert!(matches!(t.action(), LinkAction::Sleep(150)));
    let t = t.paused();
    assert_eq!(exchange(&t), encode_set_link(ByteOrder::Little, 4, true));
    assert_eq!(finished(&t.replied(&ack(0))), LinkOutcome::Done);
}

#[test]
fn link_state_is_asked_for() {
    let t = LinkTask::new("can0", LinkGoal::State, ByteOrder::Little).resolved(4);
    assert_eq!(exchange(&t), encode_get_link(ByteOrder::Little, 4));
    let reply = description(&link_info(b"can\0", &attr(4, &1u32.to_le_bytes())));
    let end = finished(&t.replied(&reply));
    assert_eq!(end, LinkOutcome::State(Some(CanState::ErrorWarning)));
    let t = LinkTask::new("can0", LinkGoal::State, ByteOrder::Little).resolved(4);
    let reply = description(&link_info(b"can\0", &attr(4, &9u32.to_le_bytes())));
    assert_eq!(finished(&t.replied(&reply)), LinkOutcome::State(None));
}

#[test]
fn link_failures_are_final() {
    let t = Interface::new("can0").index().failed(19);
    assert_eq!(finished(&t), LinkOutcome::Failed(LinkError::Os { errno: 19 }));
    let t = t.resolved(3).replied(&ack(0)).paused().failed(1);
    assert_eq!(finished(&t), LinkOutcome::Failed(LinkError::Os { errno: 19 }));
    let t = Interface::new("ca\0n").set_up();
    assert_eq!(finished(&t), LinkOutcome::Failed(LinkError::NulInName));
}

#[test]
fn interface_tasks() {
    let i = Interface::new("vcan0");
    assert_eq!(i.name, "vcan0");
    assert_eq!(finished(&i.index().resolved(12)), LinkOutcome::Index(12));
    assert_eq!(i.set_up().goal, LinkGoal::Change { up: true });
    assert_eq!(i.set_down().goal, LinkGoal::Change { up: false });
    assert_eq!(i.cycle().goal, LinkGoal::Cycle);
    let t = i.state();
    assert_eq!((t.goal, t.step, t.order), (LinkGoal::State, LinkStep::Resolve, native_order()));
    assert_eq!(t.name, "vcan0");
}

#[test]
fn flags_say_whether_an_interface_is_up() {
    let i = Interface::new("can0");
    assert_eq!(i.flags_path(), "/sys/class/net/can0/flags");
    assert_eq!(i.is_up(None), Ok(None));
    assert_eq!(i.is_up(Some("0x40081\n")), Ok(Some(true)));
    assert_eq!(i.is_up(Some("0x40080\n")), Ok(Some(false)));
    assert_eq!(i.is_up(Some(" c1 ")), Ok(Some(true)));
    assert_eq!(i.is_up(Some("0x")), Err(NumberError::Empty));
    assert_eq!(i.is_up(Some("0x0x1")), Err(NumberError::InvalidDigit));
    assert_eq!(i.is_up(Some("+1")), Ok(Some(true)));
    assert_eq!(i.is_up(Some("+")), Err(NumberError::InvalidDigit));
    assert_eq!(i.is_up(Some("++1")), Err(NumberError::InvalidDigit));
    assert_eq!(i.is_up(Some("0x1ffffffff")), Err(NumberError::Overflow));
}

#[test]
fn bitrate_is_found() {
    let i = Interface::new("can0");
    assert_eq!(i.bitrate(None), None);
    assert_eq!(i.bitrate(Some("")), None);
    let out = "[{\"ifname\":\"can0\",\"bittiming\":{\"bitrate\":500000,\"sample\":\"0.875\"},\"bitrate\":1}]";
    assert_eq!(i.bitrate(Some(out)), Some(500_000));
    assert_eq!(i.bitrate(Some("\"bitrate\":")), None);
    assert_eq!(i.bitrate(Some("\"bitrate\": 5")), None);
    assert_eq!(i.bitrate(Some("\"bitrate\":4294967296")), None);
}

fn entry(name: &str, kind: &str) -> NetEntry {
    NetEntry { name: name.to_string(), kind: kind.to_string() }
}

#[test]
fn can_devices_are_listed_in_order() {
    let entries = [
        entry("vcan0", "280\n"),
        entry("eth0", "1\n"),
        entry("can10", "280\n"),
        entry("lo", "772\n"),
        entry("can0", " 280 "),
        entry("can2", "280"),
        entry("x", "2800"),
        entry("y", ""),
    ];
    let names: Vec<String> = list_can_interfaces(&entries).into_iter().map(|i| i.name).collect();
    assert_eq!(names, ["can0", "can10", "can2", "vcan0"]);
    assert!(list_can_interfaces(&[]).is_empty());
}
