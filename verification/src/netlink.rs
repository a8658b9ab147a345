//! Route netlink messages: the two requests that are sent, the replies that
//! are read, and the attributes in them.
use vstd::prelude::*;
use vstd::slice::slice_subrange;

use crate::bytes;
use crate::bytes::{put_u16, put_u32, read_i32, read_u16, read_u32, ByteOrder};
use crate::error::ErrorKind;
use crate::text;
use crate::text::push_dec;

verus! {

/// `sizeof(struct nlmsghdr)`.
pub const NLMSGHDR_LEN: usize = 16;

/// `sizeof(struct ifinfomsg)`.
pub const IFINFOMSG_LEN: usize = 16;

/// Message type: the reply carries an error code, zero for success.
pub const NLMSG_ERROR: u16 = 2;

/// Message type: create or change a link.
pub const RTM_NEWLINK: u16 = 16;

/// Message type: describe a link.
pub const RTM_GETLINK: u16 = 18;

/// Request flags: this is a request (1), and it is to be acknowledged (4).
pub const REQUEST_AND_ACK: u16 = 5;

/// Link flag: the link is up.
pub const IFF_UP: u32 = 1;

/// Link attribute: what kind of link it is, and its details.
pub const IFLA_LINKINFO: u16 = 18;

/// Attribute of the link information: the kind.
pub const IFLA_INFO_KIND: u16 = 1;

/// Attribute of the link information: the details.
pub const IFLA_INFO_DATA: u16 = 2;

/// Attribute of a CAN link's details: the controller state.
pub const IFLA_CAN_STATE: u16 = 4;

// ---------------------------------------------------------------------------
// Requests

/// A request about one link: the netlink header, then `struct ifinfomsg` with
/// the link's index, the flags that are wanted and the mask of those that are
/// to change.
pub open spec fn link_request(
    order: ByteOrder,
    kind: u16,
    number: u32,
    ifindex: u32,
    flags: u32,
    change: u32,
) -> Seq<u8> {
    bytes::u32_bytes(order, 32) + bytes::u16_bytes(order, kind) + bytes::u16_bytes(
        order,
        REQUEST_AND_ACK,
    ) + bytes::u32_bytes(order, number) + bytes::u32_bytes(order, 0) + seq![0u8, 0u8, 0u8, 0u8]
        + bytes::u32_bytes(order, ifindex) + bytes::u32_bytes(order, flags) + bytes::u32_bytes(
        order,
        change,
    )
}

/// The request that takes a link up or down: only the "up" flag changes.
pub open spec fn set_link_request(order: ByteOrder, ifindex: u32, up: bool) -> Seq<u8> {
    link_request(
        order,
        RTM_NEWLINK,
        1,
        ifindex,
        if up {
            IFF_UP
        } else {
            0
        },
        IFF_UP,
    )
}

/// The request that asks for the description of a link.
pub open spec fn get_link_request(order: ByteOrder, ifindex: u32) -> Seq<u8> {
    link_request(order, RTM_GETLINK, 2, ifindex, 0, 0)
}

fn push_u16(out: &mut Vec<u8>, order: ByteOrder, v: u16)
    ensures
        final(out)@ == old(out)@ + bytes::u16_bytes(order, v),
{
    let b = put_u16(order, v);
    out.push(b[0]);
    out.push(b[1]);
    assert(out@ =~= old(out)@ + bytes::u16_bytes(order, v));
}

fn push_u32(out: &mut Vec<u8>, order: ByteOrder, v: u32)
    ensures
        final(out)@ == old(out)@ + bytes::u32_bytes(order, v),
{
    let b = put_u32(order, v);
    out.push(b[0]);
    out.push(b[1]);
    out.push(b[2]);
    out.push(b[3]);
    assert(out@ =~= old(out)@ + bytes::u32_bytes(order, v));
}

fn encode_link_request(
    order: ByteOrder,
    kind: u16,
    number: u32,
    ifindex: u32,
    flags: u32,
    change: u32,
) -> (m: Vec<u8>)
    ensures
        m@ == link_request(order, kind, number, ifindex, flags, change),
{
    let mut m: Vec<u8> = Vec::new();
    push_u32(&mut m, order, (NLMSGHDR_LEN + IFINFOMSG_LEN) as u32);
    push_u16(&mut m, order, kind);
    push_u16(&mut m, order, REQUEST_AND_ACK);
    push_u32(&mut m, order, number);
    push_u32(&mut m, order, 0);
    m.push(0);
    m.push(0);
    m.push(0);
    m.push(0);
    push_u32(&mut m, order, ifindex);
    push_u32(&mut m, order, flags);
    push_u32(&mut m, order, change);
    assert(m@ =~= link_request(order, kind, number, ifindex, flags, change));
    m
}

/// Encodes the request that takes a link up or down.
pub fn encode_set_link(order: ByteOrder, ifindex: u32, up: bool) -> (m: Vec<u8>)
    ensures
        m@ == set_link_request(order, ifindex, up),
{
    let flags: u32 = if up {
        IFF_UP
    } else {
        0
    };
    encode_link_request(order, RTM_NEWLINK, 1, ifindex, flags, IFF_UP)
}

/// Encodes the request that asks for the description of a link.
pub fn encode_get_link(order: ByteOrder, ifindex: u32) -> (m: Vec<u8>)
    ensures
        m@ == get_link_request(order, ifindex),
{
    encode_link_request(order, RTM_GETLINK, 2, ifindex, 0, 0)
}

// ---------------------------------------------------------------------------
// Errors

/// Why something could not be asked of a link, or was refused.
#[derive(Clone, Copy, Debug, PartialEq, Eq, Structural)]
pub enum LinkError {
    /// The name of the link holds a NUL.
    NulInName,
    /// The reply is shorter than a netlink header.
    ShortReply,
    /// The reply is not an acknowledgement.
    UnexpectedReply { kind: u16 },
    /// The error code is missing.
    TruncatedReply,
    /// The system refused, with this error number.
    Os { errno: i32 },
}

impl LinkError {
    /// The category of the error; `None` where the error number says it.
    pub open spec fn category(self) -> Option<ErrorKind> {
        match self {
            LinkError::NulInName => Some(ErrorKind::InvalidInput),
            LinkError::Os { .. } => None,
            _ => Some(ErrorKind::Other),
        }
    }

    /// What [`LinkError::message`] says.
    pub open spec fn text(self) -> Seq<char> {
        match self {
            LinkError::NulInName => "interface name has nul byte"@,
            LinkError::ShortReply => "netlink response shorter than nlmsghdr"@,
            LinkError::UnexpectedReply { kind } => "unexpected netlink response type "@
                + text::dec_digits(kind as nat),
            LinkError::TruncatedReply => "netlink error response truncated"@,
            LinkError::Os { .. } => ""@,
        }
    }

    /// The category of the error; `None` where the error number says it.
    pub fn kind(self) -> (k: Option<ErrorKind>)
        ensures
            k == self.category(),
    {
        match self {
            LinkError::NulInName => Some(ErrorKind::InvalidInput),
            LinkError::Os { .. } => None,
            _ => Some(ErrorKind::Other),
        }
    }

    /// The error as a sentence; empty where the error number says it all.
    pub fn message(self) -> (s: String)
        ensures
            s@ == self.text(),
    {
        match self {
            LinkError::NulInName => String::from_str("interface name has nul byte"),
            LinkError::ShortReply => String::from_str("netlink response shorter than nlmsghdr"),
            LinkError::UnexpectedReply { kind } => {
                let mut s = String::from_str("unexpected netlink response type ");
                push_dec(&mut s, kind as u64);
                s
            },
            LinkError::TruncatedReply => String::from_str("netlink error response truncated"),
            LinkError::Os { .. } => String::from_str(""),
        }
    }
}

// ---------------------------------------------------------------------------
// Acknowledgements

/// The type of a netlink message.
pub open spec fn message_kind(order: ByteOrder, reply: Seq<u8>) -> u16 {
    bytes::u16_of(order, reply.subrange(4, 6))
}

/// The error number behind the header of a reply, where it stands with its sign
/// turned; zero for success.
pub open spec fn error_number(order: ByteOrder, reply: Seq<u8>) -> i32 {
    let code = bytes::i32_of(order, reply.subrange(16, 20));
    if code == i32::MIN {
        code
    } else {
        (-code) as i32
    }
}

/// What a reply says of a request that changes something.
pub open spec fn acknowledgement(order: ByteOrder, reply: Seq<u8>) -> Result<(), LinkError> {
    if reply.len() < 16 {
        Err(LinkError::ShortReply)
    } else if message_kind(order, reply) != NLMSG_ERROR {
        Err(LinkError::UnexpectedReply { kind: message_kind(order, reply) })
    } else if reply.len() < 20 {
        Err(LinkError::TruncatedReply)
    } else if error_number(order, reply) == 0 {
        Ok(())
    } else {
        Err(LinkError::Os { errno: error_number(order, reply) })
    }
}

fn read_error_number(order: ByteOrder, reply: &[u8]) -> (errno: i32)
    requires
        reply@.len() >= 20,
    ensures
        errno == error_number(order, reply@),
{
    let code = read_i32(order, reply, NLMSGHDR_LEN);
    if code == i32::MIN {
        code
    } else {
        -code
    }
}

/// Reads the reply to a request that changes something.
pub fn parse_ack(order: ByteOrder, reply: &[u8]) -> (r: Result<(), LinkError>)
    ensures
        r == acknowledgement(order, reply@),
{
    if reply.len() < NLMSGHDR_LEN {
        return Err(LinkError::ShortReply);
    }
    let kind = read_u16(order, reply, 4);
    if kind != NLMSG_ERROR {
        return Err(LinkError::UnexpectedReply { kind });
    }
    if reply.len() < NLMSGHDR_LEN + 4 {
        return Err(LinkError::TruncatedReply);
    }
    let errno = read_error_number(order, reply);
    if errno == 0 {
        Ok(())
    } else {
        Err(LinkError::Os { errno })
    }
}

// ---------------------------------------------------------------------------
// Attributes

/// The smallest multiple of four that is not less than `len`.
pub open spec fn aligned(len: nat) -> nat {
    (len + 3) / 4 * 4
}

/// Rounds a length up to the alignment of netlink attributes.
pub fn nla_align(len: usize) -> (r: usize)
    requires
        len <= usize::MAX - 3,
    ensures
        r == aligned(len as nat),
        len <= r < len + 4,
        r % 4 == 0,
{
    (len + 3) / 4 * 4
}

/// The value of the first attribute of the given type in a run of netlink
/// attributes. Each starts with its length, header included, and its type, of
/// which the two high bits are flags; the next starts at the next multiple of
/// four. A length that does not fit ends the run.
pub open spec fn attribute(order: ByteOrder, buf: Seq<u8>, kind: u16) -> Option<Seq<u8>>
    decreases buf.len(),
{
    if buf.len() < 4 {
        None
    } else {
        let len = bytes::u16_of(order, buf.subrange(0, 2)) as nat;
        let found = bytes::u16_of(order, buf.subrange(2, 4)) % 0x4000;
        if len < 4 || len > buf.len() {
            None
        } else if found == kind {
            Some(buf.subrange(4, len as int))
        } else if aligned(len) > buf.len() {
            None
        } else {
            attribute(order, buf.skip(aligned(len) as int), kind)
        }
    }
}

/// Find the first netlink attribute with the given type.
pub fn nl_find_attr(order: ByteOrder, buf: &[u8], nla_type: u16) -> (r: Option<&[u8]>)
    ensures
        match (r, attribute(order, buf@, nla_type)) {
            (Some(v), Some(s)) => v@ == s,
            (None, None) => true,
            _ => false,
        },
{
    let mut off: usize = 0;
    assert(buf@.skip(0) =~= buf@);
    while buf.len() - off >= 4
        invariant
            off <= buf@.len(),
            attribute(order, buf@, nla_type) == attribute(order, buf@.skip(off as int), nla_type),
        decreases buf@.len() - off,
    {
        let ghost rest = buf@.skip(off as int);
        assert(rest.subrange(0, 2) =~= buf@.subrange(off as int, off + 2));
        assert(rest.subrange(2, 4) =~= buf@.subrange(off + 2, off + 4));
        let nla_len = read_u16(order, buf, off) as usize;
        let ty = read_u16(order, buf, off + 2) % 0x4000;
        if nla_len < 4 || nla_len > buf.len() - off {
            return None;
        }
        if ty == nla_type {
            let v = slice_subrange(buf, off + 4, off + nla_len);
            assert(v@ =~= rest.subrange(4, nla_len as int));
            return Some(v);
        }
        let step = nla_align(nla_len);
        if step > buf.len() - off {
            return None;
        }
        assert(rest.skip(step as int) =~= buf@.skip(off + step));
        off = off + step;
    }
    None
}

// ---------------------------------------------------------------------------
// The controller state

/// The bytes of `s` before the first zero.
pub open spec fn before_nul(s: Seq<u8>) -> Seq<u8>
    decreases s.len(),
{
    if s.len() == 0 || s[0] == 0 {
        Seq::<u8>::empty()
    } else {
        seq![s[0]] + before_nul(s.skip(1))
    }
}

/// The name by which CAN links go, in ASCII.
pub open spec fn can_kind() -> Seq<u8> {
    seq![0x63u8, 0x61u8, 0x6Eu8]
}

/// Whether the kind of a link reads "can".
pub open spec fn is_can_kind(kind: Seq<u8>) -> bool {
    before_nul(kind) == can_kind()
}

/// The controller state that the attributes of a link hold.
pub open spec fn state_in_attributes(order: ByteOrder, attrs: Seq<u8>) -> Option<u32> {
    match attribute(order, attrs, IFLA_LINKINFO) {
        None => None,
        Some(info) => match (
            attribute(order, info, IFLA_INFO_KIND),
            attribute(order, info, IFLA_INFO_DATA),
        ) {
            (Some(kind), Some(data)) => match attribute(order, data, IFLA_CAN_STATE) {
                Some(state) if is_can_kind(kind) && state.len() >= 4 => Some(
                    bytes::u32_of(order, state.take(4)),
                ),
                _ => None,
            },
            _ => None,
        },
    }
}

/// The controller state that the description of a link holds. `None` where the
/// link is no CAN device or its driver does not tell.
pub open spec fn can_state_in(order: ByteOrder, reply: Seq<u8>) -> Result<Option<u32>, LinkError> {
    if reply.len() < 32 {
        Ok(None)
    } else if message_kind(order, reply) == NLMSG_ERROR {
        if error_number(order, reply) == 0 {
            Ok(None)
        } else {
            Err(LinkError::Os { errno: error_number(order, reply) })
        }
    } else {
        Ok(state_in_attributes(order, reply.skip(32)))
    }
}

fn reads_can(kind: &[u8]) -> (r: bool)
    ensures
        r == is_can_kind(kind@),
{
    proof {
        reveal_with_fuel(before_nul, 5);
        let s = before_nul(kind@);
        assert(can_kind().len() == 3);
        if kind@.len() >= 1 && kind@[0] != 0 {
            assert(s[0] == kind@[0]);
            if kind@.len() >= 2 && kind@[1] != 0 {
                assert(s[1] == kind@[1]);
                if kind@.len() >= 3 && kind@[2] != 0 {
                    assert(s[2] == kind@[2]);
                    if kind@.len() >= 4 && kind@[3] != 0 {
                        assert(s.len() >= 4);
                    } else {
                        assert(s.len() == 3);
                        if s[0] == 0x63 && s[1] == 0x61 && s[2] == 0x6E {
                            assert(s =~= can_kind());
                        }
                    }
                }
            }
        }
    }
    kind.len() >= 3 && kind[0] == 0x63 && kind[1] == 0x61 && kind[2] == 0x6E && (kind.len() == 3
        || kind[3] == 0)
}

/// Reads the controller state out of the description of a link.
pub fn get_can_state_raw(order: ByteOrder, reply: &[u8]) -> (r: Result<Option<u32>, LinkError>)
    ensures
        r == can_state_in(order, reply@),
{
    if reply.len() < NLMSGHDR_LEN + IFINFOMSG_LEN {
        return Ok(None);
    }
    if read_u16(order, reply, 4) == NLMSG_ERROR {
        let errno = read_error_number(order, reply);
        if errno == 0 {
            return Ok(None);
        }
        return Err(LinkError::Os { errno });
    }
    let attrs = slice_subrange(reply, NLMSGHDR_LEN + IFINFOMSG_LEN, reply.len());
    assert(attrs@ =~= reply@.skip(32));
    let info = match nl_find_attr(order, attrs, IFLA_LINKINFO) {
        Some(v) => v,
        None => return Ok(None),
    };
    let kind = match nl_find_attr(order, info, IFLA_INFO_KIND) {
        Some(v) => v,
        None => return Ok(None),
    };
    if !reads_can(kind) {
        return Ok(None);
    }
    let data = match nl_find_attr(order, info, IFLA_INFO_DATA) {
        Some(v) => v,
        None => return Ok(None),
    };
    let state = match nl_find_attr(order, data, IFLA_CAN_STATE) {
        Some(v) => v,
        None => return Ok(None),
    };
    if state.len() < 4 {
        return Ok(None);
    }
    assert(state@.subrange(0, 4) =~= state@.take(4));
    Ok(Some(read_u32(order, state, 0)))
}

// ---------------------------------------------------------------------------
// Laws

/// An attribute: its type and its value.
pub struct Attribute {
    pub kind: u16,
    pub value: Seq<u8>,
}

impl Attribute {
    /// Whether the attribute can be written: its length is a 16-bit number and
    /// its type leaves the two flag bits clear.
    pub open spec fn fits(self) -> bool {
        self.value.len() + 4 <= 0xFFFF && self.kind < 0x4000
    }

    /// The attribute as it is written, with the bytes that align the next one.
    pub open spec fn written(self, order: ByteOrder) -> Seq<u8> {
        bytes::u16_bytes(order, (self.value.len() + 4) as u16) + bytes::u16_bytes(order, self.kind)
            + self.value + Seq::new(
            (aligned(self.value.len()) - self.value.len()) as nat,
            |i: int| 0u8,
        )
    }
}

/// A run of attributes as it is written.
pub open spec fn written(order: ByteOrder, attrs: Seq<Attribute>) -> Seq<u8>
    decreases attrs.len(),
{
    if attrs.len() == 0 {
        Seq::<u8>::empty()
    } else {
        attrs[0].written(order) + written(order, attrs.skip(1))
    }
}

/// The value of the first attribute of the given type.
pub open spec fn first_of(attrs: Seq<Attribute>, kind: u16) -> Option<Seq<u8>>
    decreases attrs.len(),
{
    if attrs.len() == 0 {
        None
    } else if attrs[0].kind == kind {
        Some(attrs[0].value)
    } else {
        first_of(attrs.skip(1), kind)
    }
}

/// Whether all attributes can be written.
pub open spec fn all_fit(attrs: Seq<Attribute>) -> bool {
    forall|i: int| 0 <= i < attrs.len() ==> #[trigger] attrs[i].fits()
}

proof fn lemma_written_fields(order: ByteOrder, a: Attribute, rest: Seq<u8>)
    requires
        a.fits(),
    ensures
        ({
            let buf = a.written(order) + rest;
            let len = a.value.len() + 4;
            &&& buf.len() >= aligned(len)
            &&& bytes::u16_of(order, buf.subrange(0, 2)) == len
            &&& bytes::u16_of(order, buf.subrange(2, 4)) == a.kind
            &&& buf.subrange(4, len as int) == a.value
            &&& buf.skip(aligned(len) as int) == rest
        }),
{
    let buf = a.written(order) + rest;
    let len = a.value.len() + 4;
    bytes::law_u16_round_trip(order, len as u16);
    bytes::law_u16_round_trip(order, a.kind);
    let l = bytes::u16_bytes(order, len as u16);
    let k = bytes::u16_bytes(order, a.kind);
    let pad = Seq::new((aligned(a.value.len()) - a.value.len()) as nat, |i: int| 0u8);
    assert(a.written(order) == l + k + a.value + pad);
    assert(buf.subrange(0, 2) =~= l);
    assert(buf.subrange(2, 4) =~= k);
    assert(buf.subrange(4, len as int) =~= a.value);
    assert(buf.skip(aligned(len) as int) =~= rest);
}

proof fn lemma_attribute_step(order: ByteOrder, buf: Seq<u8>, kind: u16, len: nat, found: u16)
    requires
        4 <= len,
        aligned(len) <= buf.len(),
        found < 0x4000,
        bytes::u16_of(order, buf.subrange(0, 2)) == len,
        bytes::u16_of(order, buf.subrange(2, 4)) == found,
    ensures
        attribute(order, buf, kind) == if found == kind {
            Some(buf.subrange(4, len as int))
        } else {
            attribute(order, buf.skip(aligned(len) as int), kind)
        },
{
}

proof fn lemma_one_attribute(order: ByteOrder, a: Attribute, rest: Seq<u8>, kind: u16)
    requires
        a.fits(),
    ensures
        attribute(order, a.written(order) + rest, kind) == if a.kind == kind {
            Some(a.value)
        } else {
            attribute(order, rest, kind)
        },
{
    let buf = a.written(order) + rest;
    lemma_written_fields(order, a, rest);
    lemma_attribute_step(order, buf, kind, a.value.len() + 4, a.kind);
}

/// In a written run of attributes, the first one of the type that is asked for
/// is found, with its value as it was written; where there is none, none is
/// found.
pub proof fn law_first_attribute_is_found(order: ByteOrder, attrs: Seq<Attribute>, kind: u16)
    requires
        all_fit(attrs),
    ensures
        attribute(order, written(order, attrs), kind) == first_of(attrs, kind),
    decreases attrs.len(),
{
    if attrs.len() == 0 {
        assert(written(order, attrs).len() == 0);
    } else {
        assert(attrs[0].fits());
        lemma_one_attribute(order, attrs[0], written(order, attrs.skip(1)), kind);
        assert(all_fit(attrs.skip(1))) by {
            assert forall|i: int| 0 <= i < attrs.skip(1).len() implies #[trigger] attrs.skip(
                1,
            )[i].fits() by {
                assert(attrs.skip(1)[i] == attrs[i + 1]);
            }
        }
        law_first_attribute_is_found(order, attrs.skip(1), kind);
    }
}

/// The controller state of a CAN link is read out of its description, whatever
/// other attributes stand around it on each of the three levels.
pub proof fn law_state_is_read(
    order: ByteOrder,
    head: Seq<u8>,
    link: Seq<Attribute>,
    info: Seq<Attribute>,
    data: Seq<Attribute>,
    kind: Seq<u8>,
    state: u32,
)
    requires
        head.len() == 32,
        message_kind(order, head) != NLMSG_ERROR,
        all_fit(link),
        all_fit(info),
        all_fit(data),
        first_of(link, IFLA_LINKINFO) == Some(written(order, info)),
        first_of(info, IFLA_INFO_KIND) == Some(kind),
        is_can_kind(kind),
        first_of(info, IFLA_INFO_DATA) == Some(written(order, data)),
        first_of(data, IFLA_CAN_STATE) == Some(bytes::u32_bytes(order, state)),
    ensures
        can_state_in(order, head + written(order, link)) == Ok::<Option<u32>, LinkError>(
            Some(state),
        ),
{
    let reply = head + written(order, link);
    assert(reply.subrange(4, 6) =~= head.subrange(4, 6));
    assert(reply.skip(32) =~= written(order, link));
    law_first_attribute_is_found(order, link, IFLA_LINKINFO);
    law_first_attribute_is_found(order, info, IFLA_INFO_KIND);
    law_first_attribute_is_found(order, info, IFLA_INFO_DATA);
    law_first_attribute_is_found(order, data, IFLA_CAN_STATE);
    bytes::law_u32_round_trip(order, state);
    assert(bytes::u32_bytes(order, state).take(4) =~= bytes::u32_bytes(order, state));
}

/// A request holds, at the places where the kernel looks for them, its own
/// length, its type and the link's index.
pub proof fn law_request_layout(
    order: ByteOrder,
    kind: u16,
    number: u32,
    ifindex: u32,
    flags: u32,
    change: u32,
)
    ensures
        ({
            let m = link_request(order, kind, number, ifindex, flags, change);
            &&& m.len() == 32
            &&& bytes::u32_of(order, m.subrange(0, 4)) == m.len()
            &&& message_kind(order, m) == kind
            &&& bytes::u32_of(order, m.subrange(20, 24)) == ifindex
            &&& bytes::u32_of(order, m.subrange(24, 28)) == flags
            &&& bytes::u32_of(order, m.subrange(28, 32)) == change
        }),
{
    let m = link_request(order, kind, number, ifindex, flags, change);
    assert(m.subrange(0, 4) =~= bytes::u32_bytes(order, 32));
    assert(m.subrange(4, 6) =~= bytes::u16_bytes(order, kind));
    assert(m.subrange(20, 24) =~= bytes::u32_bytes(order, ifindex));
    assert(m.subrange(24, 28) =~= bytes::u32_bytes(order, flags));
    assert(m.subrange(28, 32) =~= bytes::u32_bytes(order, change));
    bytes::law_u32_round_trip(order, 32);
    bytes::law_u16_round_trip(order, kind);
    bytes::law_u32_round_trip(order, ifindex);
    bytes::law_u32_round_trip(order, flags);
    bytes::law_u32_round_trip(order, change);
}

/// The number in the four bytes of `b` from `at` on.
pub open spec fn number_at(order: ByteOrder, b: Seq<u8>, at: int) -> int {
    bytes::sum_of_four(order, b[at], b[at + 1], b[at + 2], b[at + 3])
}

/// The number in the two bytes of `b` from `at` on.
pub open spec fn half_at(order: ByteOrder, b: Seq<u8>, at: int) -> int {
    match order {
        ByteOrder::Little => b[at] + 256 * b[at + 1],
        ByteOrder::Big => b[at + 1] + 256 * b[at],
    }
}

/// Whether `m` is a request of 32 bytes of the given type (16 changes a link, 18
/// asks for its description) that is to be acknowledged, about this link, with these
/// flags and this mask of flags to change.
pub open spec fn is_request(
    order: ByteOrder,
    m: Seq<u8>,
    kind: int,
    ifindex: u32,
    flags: int,
    change: int,
) -> bool {
    &&& m.len() == 32
    &&& number_at(order, m, 0) == 32
    &&& half_at(order, m, 4) == kind
    &&& half_at(order, m, 6) == 5
    &&& number_at(order, m, 12) == 0
    &&& number_at(order, m, 16) == 0
    &&& number_at(order, m, 20) == ifindex
    &&& number_at(order, m, 24) == flags
    &&& number_at(order, m, 28) == change
}

proof fn lemma_request_fields(
    order: ByteOrder,
    kind: u16,
    number: u32,
    ifindex: u32,
    flags: u32,
    change: u32,
)
    ensures
        is_request(
            order,
            link_request(order, kind, number, ifindex, flags, change),
            kind as int,
            ifindex,
            flags as int,
            change as int,
        ),
{
    let m = link_request(order, kind, number, ifindex, flags, change);
    let b0 = bytes::u32_bytes(order, 32);
    let b1 = bytes::u16_bytes(order, kind);
    let b2 = bytes::u16_bytes(order, REQUEST_AND_ACK);
    let b3 = bytes::u32_bytes(order, number);
    let b4 = bytes::u32_bytes(order, 0);
    let b5 = seq![0u8, 0u8, 0u8, 0u8];
    let b6 = bytes::u32_bytes(order, ifindex);
    let b7 = bytes::u32_bytes(order, flags);
    let b8 = bytes::u32_bytes(order, change);
    bytes::law_bytes_stand_in_order(order, b0, 32, kind);
    bytes::law_bytes_stand_in_order(order, b4, 0, REQUEST_AND_ACK);
    bytes::law_bytes_stand_in_order(order, b3, number, 0);
    bytes::law_bytes_stand_in_order(order, b6, ifindex, 0);
    bytes::law_bytes_stand_in_order(order, b7, flags, 0);
    bytes::law_bytes_stand_in_order(order, b8, change, 0);
    assert(m.subrange(0, 4) =~= b0);
    assert(m.subrange(4, 6) =~= b1);
    assert(m.subrange(6, 8) =~= b2);
    assert(m.subrange(12, 16) =~= b4);
    assert(m.subrange(16, 20) =~= b5);
    assert(m.subrange(20, 24) =~= b6);
    assert(m.subrange(24, 28) =~= b7);
    assert(m.subrange(28, 32) =~= b8);
    assert(m[0] == b0[0] && m[1] == b0[1] && m[2] == b0[2] && m[3] == b0[3]);
    assert(m[4] == b1[0] && m[5] == b1[1] && m[6] == b2[0] && m[7] == b2[1]);
    assert(m[12] == b4[0] && m[13] == b4[1] && m[14] == b4[2] && m[15] == b4[3]);
    assert(m[20] == b6[0] && m[21] == b6[1] && m[22] == b6[2] && m[23] == b6[3]);
    assert(m[24] == b7[0] && m[25] == b7[1] && m[26] == b7[2] && m[27] == b7[3]);
    assert(m[28] == b8[0] && m[29] == b8[1] && m[30] == b8[2] && m[31] == b8[3]);
}

/// Taking a link up or down is a request to change the lowest flag of that link, to
/// one or to zero, and no other.
pub proof fn law_change_request_changes_one_flag(order: ByteOrder, ifindex: u32, up: bool)
    ensures
        is_request(
            order,
            set_link_request(order, ifindex, up),
            16,
            ifindex,
            if up {
                1
            } else {
                0
            },
            1,
        ),
{
    lemma_request_fields(
        order,
        RTM_NEWLINK,
        1,
        ifindex,
        if up {
            IFF_UP
        } else {
            0
        },
        IFF_UP,
    );
}

/// Asking for the description of a link changes nothing.
pub proof fn law_query_changes_nothing(order: ByteOrder, ifindex: u32)
    ensures
        is_request(order, get_link_request(order, ifindex), 18, ifindex, 0, 0),
{
    lemma_request_fields(order, RTM_GETLINK, 2, ifindex, 0, 0);
}

/// The number in four bytes, the topmost bit being a sign.
pub open spec fn signed_at(order: ByteOrder, b: Seq<u8>, at: int) -> int {
    let v = number_at(order, b, at);
    if v < 0x8000_0000 {
        v
    } else {
        v - 0x1_0000_0000
    }
}

proof fn lemma_reply_fields(order: ByteOrder, reply: Seq<u8>)
    ensures
        reply.len() >= 16 ==> message_kind(order, reply) == half_at(order, reply, 4),
        reply.len() >= 20 ==> bytes::i32_of(order, reply.subrange(16, 20)) == signed_at(
            order,
            reply,
            16,
        ),
{
    if reply.len() >= 20 {
        bytes::law_bytes_stand_in_order(order, reply.subrange(16, 20), 0, 0);
    }
}

/// A change is made if and only if the kernel answers with an error message (type
/// 2) whose code is zero. Any other code is an error number with its sign turned;
/// anything else is no answer.
pub proof fn law_answer_is_a_code(order: ByteOrder, reply: Seq<u8>)
    ensures
        reply.len() < 16 ==> acknowledgement(order, reply) == Err::<(), LinkError>(
            LinkError::ShortReply,
        ),
        reply.len() >= 16 && half_at(order, reply, 4) != 2 ==> acknowledgement(order, reply)
            == Err::<(), LinkError>(
            LinkError::UnexpectedReply { kind: half_at(order, reply, 4) as u16 },
        ),
        16 <= reply.len() < 20 && half_at(order, reply, 4) == 2 ==> acknowledgement(order, reply)
            == Err::<(), LinkError>(LinkError::TruncatedReply),
        reply.len() >= 20 && half_at(order, reply, 4) == 2 ==> {
            let code = signed_at(order, reply, 16);
            &&& acknowledgement(order, reply) is Ok <==> code == 0
            &&& code != 0 && code > i32::MIN ==> acknowledgement(order, reply) == Err::<
                (),
                LinkError,
            >(LinkError::Os { errno: (-code) as i32 })
            &&& code == i32::MIN ==> acknowledgement(order, reply) == Err::<(), LinkError>(
                LinkError::Os { errno: i32::MIN },
            )
        },
{
    lemma_reply_fields(order, reply);
}

/// A kind reads "can" where these three letters stand in front of its end or of a
/// zero, and only there.
pub proof fn law_can_kind_is_spelled_out(kind: Seq<u8>)
    ensures
        is_can_kind(kind) == (kind.len() >= 3 && kind[0] == 99 && kind[1] == 97 && kind[2] == 110
            && (kind.len() == 3 || kind[3] == 0)),
{
    reveal_with_fuel(before_nul, 5);
    let s = before_nul(kind);
    assert(can_kind().len() == 3);
    if kind.len() >= 1 && kind[0] != 0 {
        assert(s[0] == kind[0]);
        if kind.len() >= 2 && kind[1] != 0 {
            assert(s[1] == kind[1]);
            if kind.len() >= 3 && kind[2] != 0 {
                assert(s[2] == kind[2]);
                if kind.len() >= 4 && kind[3] != 0 {
                    assert(s.len() >= 4);
                } else {
                    assert(s.len() == 3);
                    if s[0] == 0x63 && s[1] == 0x61 && s[2] == 0x6E {
                        assert(s =~= can_kind());
                    }
                }
            }
        }
    }
}

/// An attribute starts with its length and its type, of which the two topmost bits
/// do not count. If it is of the type that is looked for, its value is what follows
/// up to its length; if not, the search goes on at the next multiple of four. A
/// length below four or beyond the end finds nothing.
pub proof fn law_attributes_are_walked(order: ByteOrder, buf: Seq<u8>, kind: u16)
    ensures
        buf.len() < 4 ==> attribute(order, buf, kind) is None,
        buf.len() >= 4 ==> {
            let len = half_at(order, buf, 0);
            let found = half_at(order, buf, 2) % 0x4000;
            let next = len + (4 - len % 4) % 4;
            &&& len < 4 || len > buf.len() ==> attribute(order, buf, kind) is None
            &&& 4 <= len <= buf.len() && found == kind ==> attribute(order, buf, kind) == Some(
                buf.subrange(4, len),
            )
            &&& 4 <= len <= buf.len() && found != kind ==> attribute(order, buf, kind) == if next
                > buf.len() {
                None
            } else {
                attribute(order, buf.skip(next), kind)
            }
        },
{
    if buf.len() >= 4 {
        let len = half_at(order, buf, 0);
        assert(bytes::u16_of(order, buf.subrange(0, 2)) == len);
        assert(bytes::u16_of(order, buf.subrange(2, 4)) == half_at(order, buf, 2));
        assert(aligned(len as nat) == len + (4 - len % 4) % 4);
    }
}

/// A description is read unless it is too short or an error message; the error
/// number of the latter is handed on.
pub proof fn law_error_instead_of_a_description(order: ByteOrder, reply: Seq<u8>)
    ensures
        reply.len() < 32 ==> can_state_in(order, reply) == Ok::<Option<u32>, LinkError>(None),
        reply.len() >= 32 && half_at(order, reply, 4) == 2 ==> {
            let code = signed_at(order, reply, 16);
            &&& code == 0 ==> can_state_in(order, reply) == Ok::<Option<u32>, LinkError>(None)
            &&& code != 0 && code > i32::MIN ==> can_state_in(order, reply) == Err::<
                Option<u32>,
                LinkError,
            >(LinkError::Os { errno: (-code) as i32 })
            &&& code == i32::MIN ==> can_state_in(order, reply) == Err::<Option<u32>, LinkError>(
                LinkError::Os { errno: i32::MIN },
            )
        },
        reply.len() >= 32 && half_at(order, reply, 4) != 2 ==> can_state_in(order, reply) is Ok,
{
    lemma_reply_fields(order, reply);
}

/// The state is told only by a CAN link: where the kind is another one, or any of
/// the attributes on the way (18, then 1 and 2, then 4) is missing, or the state is
/// shorter than a number, there is none.
pub proof fn law_state_takes_all_of_its_attributes(order: ByteOrder, reply: Seq<u8>)
    requires
        reply.len() >= 32,
        half_at(order, reply, 4) != 2,
    ensures
        can_state_in(order, reply) matches Ok(Some(v)) ==> {
            &&& attribute(order, reply.skip(32), 18) matches Some(info)
            &&& attribute(order, info, 1) matches Some(kind)
            &&& attribute(order, info, 2) matches Some(data)
            &&& attribute(order, data, 4) matches Some(state)
            &&& kind.len() >= 3 && kind[0] == 99 && kind[1] == 97 && kind[2] == 110 && (kind.len()
                == 3 || kind[3] == 0)
            &&& state.len() >= 4
            &&& v == number_at(order, state, 0)
        },
        can_state_in(order, reply) == Ok::<Option<u32>, LinkError>(None) ==> {
            let info = attribute(order, reply.skip(32), 18);
            let kind = attribute(order, info->Some_0, 1);
            let data = attribute(order, info->Some_0, 2);
            let state = attribute(order, data->Some_0, 4);
            ||| info is None
            ||| kind is None
            ||| data is None
            ||| state is None
            ||| !is_can_kind(kind->Some_0)
            ||| state->Some_0.len() < 4
        },
{
    lemma_reply_fields(order, reply);
    if let Some(info) = attribute(order, reply.skip(32), 18) {
        if let Some(kind) = attribute(order, info, 1) {
            law_can_kind_is_spelled_out(kind);
            if let Some(data) = attribute(order, info, 2) {
                if let Some(state) = attribute(order, data, 4) {
                    if state.len() >= 4 {
                        bytes::law_bytes_stand_in_order(order, state.take(4), 0, 0);
                    }
                }
            }
        }
    }
}

/// What is wrong with a name is invalid input; an error number speaks for itself;
/// anything else is another error.
pub proof fn law_link_errors_have_their_categories(e: LinkError)
    ensures
        (e is NulInName) == (e.category() == Some(ErrorKind::InvalidInput)),
        (e is Os) == (e.category() is None),
        (e is ShortReply || e is UnexpectedReply || e is TruncatedReply) == (e.category() == Some(
            ErrorKind::Other,
        )),
{
}

} // verus!
