//! The tools of an MCP server that gives access to CAN interfaces: what they
//! are asked, what they refuse, and what they are to do.
//!
//! Tools that touch a bus are gated by an allowlist of interface names. Each of
//! them is planned here before anything is opened: a plan is what is to be done
//! with the bus, a [`Refusal`] says why nothing is done.
//!
//! | Variable                   | Effect                                            |
//! | -------------------------- | ------------------------------------------------- |
//! | `SOCKETCAN_MCP_INTERFACES` | Comma-separated allowlist. If unset, no interface is allowed. |
//! | `SOCKETCAN_MCP_READONLY`   | When `1`, `true`, `yes` or `on`, tools that send refuse. |
use vstd::prelude::*;

use crate::consts::CAN_EFF_FLAG;
use crate::frame::{CanId, FdFlags, Frame, FrameError, FrameKind, FrameView};
use crate::isotp::Options;
use crate::socket::{CanFilter, OpenOpts, Timestamping};
use crate::text;
use crate::text::{
    chars_of, hex_string, parse_number, printable_string, push_dec, same_chars, same_text,
    split_at_commas, string_of, strip_prefixes, to_lower_case, trim, value_of_digit, NumberError,
};
use crate::time::TimeSpan;

verus! {

// ---------------------------------------------------------------------------
// Refusals

/// Why a tool does nothing.
#[derive(Clone, Debug)]
pub enum Refusal {
    /// The parameters are invalid, for the reason given.
    Invalid(String),
    /// A hexadecimal string holds a character that two of its bytes cannot be
    /// cut out of.
    SplitCharacter,
}

/// Why a tool does nothing.
pub enum RefusalView {
    Invalid(Seq<char>),
    SplitCharacter,
}

impl View for Refusal {
    type V = RefusalView;

    open spec fn view(&self) -> RefusalView {
        match *self {
            Refusal::Invalid(s) => RefusalView::Invalid(s@),
            Refusal::SplitCharacter => RefusalView::SplitCharacter,
        }
    }
}

/// What went wrong while a tool did its work: what was being done, and what the
/// system said.
pub fn failure(what: &str, detail: &str) -> (s: String)
    ensures
        s@ == what@ + ": "@ + detail@,
{
    let mut s = String::from_str(what);
    s.append(": ");
    s.append(detail);
    s
}

// ---------------------------------------------------------------------------
// Configuration

/// What the server allows.
#[derive(Clone, Debug)]
pub struct Config {
    /// The interfaces that may be touched.
    pub allowlist: Vec<String>,
    /// Whether nothing may be sent.
    pub readonly: bool,
}

/// The texts that are not empty, without the white space around them.
pub open spec fn named(parts: Seq<Seq<char>>) -> Seq<Seq<char>>
    decreases parts.len(),
{
    if parts.len() == 0 {
        Seq::<Seq<char>>::empty()
    } else {
        let before = named(parts.drop_last());
        let name = text::trimmed(parts.last());
        if name.len() == 0 {
            before
        } else {
            before.push(name)
        }
    }
}

/// Whether a setting is switched on.
pub open spec fn switched_on(setting: Seq<char>) -> bool {
    let s = text::lower_case(setting);
    ||| s == "1"@
    ||| s == "true"@
    ||| s == "yes"@
    ||| s == "on"@
}

/// The texts of a list of strings.
pub open spec fn strings_of(v: Seq<String>) -> Seq<Seq<char>> {
    v.map_values(|s: String| s@)
}

fn is_one_of(cs: &[char], words: &[&str]) -> (r: bool)
    ensures
        r == exists|i: int| 0 <= i < words@.len() && cs@ == #[trigger] words@[i]@,
{
    for i in 0..words.len()
        invariant
            forall|j: int| 0 <= j < i ==> cs@ != #[trigger] words@[j]@,
    {
        let w = chars_of(words[i]);
        if same_chars(cs, w.as_slice()) {
            return true;
        }
    }
    false
}

impl Config {
    /// Whether the interface may be touched.
    pub open spec fn allows(&self, iface: Seq<char>) -> bool {
        strings_of(self.allowlist@).contains(iface)
    }

    /// Why an interface may not be touched; `None` where it may.
    pub open spec fn iface_refusal(&self, iface: Seq<char>) -> Option<RefusalView> {
        if self.allows(iface) {
            None
        } else {
            Some(
                RefusalView::Invalid(
                    "interface '"@ + iface
                        + "' is not in the allowlist (set SOCKETCAN_MCP_INTERFACES)"@,
                ),
            )
        }
    }

    /// Why nothing may be sent; `None` where it may.
    pub open spec fn write_refusal(&self) -> Option<RefusalView> {
        if self.readonly {
            Some(
                RefusalView::Invalid("server is in read-only mode (SOCKETCAN_MCP_READONLY=1)"@),
            )
        } else {
            None
        }
    }

    /// Why nothing may be sent on an interface; `None` where it may.
    pub open spec fn send_refusal(&self, iface: Seq<char>) -> Option<RefusalView> {
        match self.iface_refusal(iface) {
            Some(r) => Some(r),
            None => self.write_refusal(),
        }
    }

    /// The configuration in the settings `SOCKETCAN_MCP_INTERFACES` and
    /// `SOCKETCAN_MCP_READONLY`, which are empty where they are not set.
    pub fn from_settings(interfaces: &str, readonly: &str) -> (c: Self)
        ensures
            strings_of(c.allowlist@) == named(text::comma_parts(interfaces@)),
            c.readonly == switched_on(readonly@),
    {
        let cs = chars_of(interfaces);
        let parts = split_at_commas(cs.as_slice());
        let ghost all = text::texts_of(parts@);
        let mut allowlist: Vec<String> = Vec::new();
        assert(all.take(0) =~= Seq::<Seq<char>>::empty());
        assert(strings_of(allowlist@) =~= Seq::<Seq<char>>::empty());
        for i in 0..parts.len()
            invariant
                all == text::texts_of(parts@),
                strings_of(allowlist@) == named(all.take(i as int)),
        {
            proof {
                assert(all.take(i + 1).drop_last() =~= all.take(i as int));
                assert(all.take(i + 1).last() == parts@[i as int]@);
            }
            let name = trim(parts[i].as_slice());
            if name.len() != 0 {
                let ghost before = allowlist@;
                allowlist.push(string_of(name));
                assert(strings_of(allowlist@) =~= strings_of(before).push(name@));
            }
        }
        assert(all.take(all.len() as int) =~= all);
        let rs = chars_of(readonly);
        let lower = to_lower_case(rs.as_slice());
        let words: [&str; 4] = ["1", "true", "yes", "on"];
        let on = is_one_of(lower.as_slice(), words.as_slice());
        proof {
            assert(words@[0]@ == "1"@);
            assert(words@[1]@ == "true"@);
            assert(words@[2]@ == "yes"@);
            assert(words@[3]@ == "on"@);
        }
        Config { allowlist, readonly: on }
    }

    /// Refuses an interface that may not be touched.
    pub fn check_iface(&self, iface: &str) -> (r: Result<(), Refusal>)
        ensures
            match r {
                Ok(()) => self.iface_refusal(iface@) is None,
                Err(e) => self.iface_refusal(iface@) == Some(e@),
            },
    {
        for i in 0..self.allowlist.len()
            invariant
                forall|j: int|
                    0 <= j < i ==> #[trigger] strings_of(self.allowlist@)[j] != iface@,
        {
            if same_text(self.allowlist[i].as_str(), iface) {
                assert(strings_of(self.allowlist@)[i as int] == iface@);
                return Ok(());
            }
        }
        let mut s = String::from_str("interface '");
        s.append(iface);
        s.append("' is not in the allowlist (set SOCKETCAN_MCP_INTERFACES)");
        Err(Refusal::Invalid(s))
    }

    /// Refuses to send where nothing may be sent.
    pub fn check_writable(&self) -> (r: Result<(), Refusal>)
        ensures
            match r {
                Ok(()) => self.write_refusal() is None,
                Err(e) => self.write_refusal() == Some(e@),
            },
    {
        if self.readonly {
            return Err(
                Refusal::Invalid(
                    String::from_str("server is in read-only mode (SOCKETCAN_MCP_READONLY=1)"),
                ),
            );
        }
        Ok(())
    }

    fn check_send(&self, iface: &str) -> (r: Result<(), Refusal>)
        ensures
            match r {
                Ok(()) => self.send_refusal(iface@) is None,
                Err(e) => self.send_refusal(iface@) == Some(e@),
            },
    {
        match self.check_iface(iface) {
            Err(e) => Err(e),
            Ok(()) => self.check_writable(),
        }
    }
}

// ---------------------------------------------------------------------------
// Hexadecimal parameters

/// `s` without the prefixes `0x`, and then without the prefixes `0X`.
pub open spec fn bare(s: Seq<char>) -> Seq<char> {
    text::without_prefixes(text::without_prefixes(s, 'x'), 'X')
}

fn strip(s: &[char]) -> (r: &[char])
    ensures
        r@ == bare(s@),
{
    strip_prefixes(strip_prefixes(s, 'x'), 'X')
}

/// The identifier that `s` spells. Bits that the format has no room for are cut
/// off.
pub open spec fn hex_id(s: Seq<char>, extended: bool) -> Result<CanId, RefusalView> {
    match text::number_of(bare(s), 16, 0xFFFF_FFFF) {
        Err(e) => Err(
            RefusalView::Invalid("bad id '"@ + bare(s) + "': "@ + e.text()),
        ),
        Ok(v) => Ok(
            if extended {
                CanId::Extended((v % 0x2000_0000) as u32)
            } else {
                CanId::Standard((v % 0x800) as u16)
            },
        ),
    }
}

/// Reads an identifier.
pub fn parse_hex_id(s: &str, extended: bool) -> (r: Result<CanId, Refusal>)
    ensures
        match r {
            Ok(id) => hex_id(s@, extended) == Ok::<CanId, RefusalView>(id) && id.in_range(),
            Err(e) => hex_id(s@, extended) == Err::<CanId, RefusalView>(e@),
        },
{
    let cs = chars_of(s);
    let digits = strip(cs.as_slice());
    match parse_number(digits, 16, 0xFFFF_FFFF) {
        Err(e) => {
            let mut m = String::from_str("bad id '");
            m.append(string_of(digits).as_str());
            m.append("': ");
            m.append(e.message());
            Err(Refusal::Invalid(m))
        },
        Ok(v) => {
            if extended {
                let raw = v as u32;
                proof {
                    assert(raw & 0x1FFF_FFFF == raw % 0x2000_0000) by (bit_vector);
                }
                Ok(CanId::extended(raw))
            } else {
                let raw = (v % 0x1_0000) as u16;
                proof {
                    assert(raw & 0x7FF == raw % 0x800) by (bit_vector);
                    assert(v % 0x1_0000 % 0x800 == v % 0x800);
                }
                Ok(CanId::standard(raw))
            }
        },
    }
}

/// The byte that `s` spells.
pub open spec fn hex_byte(s: Seq<char>) -> Result<u8, RefusalView> {
    match text::number_of(bare(s), 16, 0xFF) {
        Err(e) => Err(
            RefusalView::Invalid("bad hex byte '"@ + bare(s) + "': "@ + e.text()),
        ),
        Ok(v) => Ok(v as u8),
    }
}

/// Reads a byte.
pub fn parse_single_hex_byte(s: &str) -> (r: Result<u8, Refusal>)
    ensures
        match r {
            Ok(b) => hex_byte(s@) == Ok::<u8, RefusalView>(b),
            Err(e) => hex_byte(s@) == Err::<u8, RefusalView>(e@),
        },
{
    let cs = chars_of(s);
    let digits = strip(cs.as_slice());
    match parse_number(digits, 16, 0xFF) {
        Err(e) => {
            let mut m = String::from_str("bad hex byte '");
            m.append(string_of(digits).as_str());
            m.append("': ");
            m.append(e.message());
            Err(Refusal::Invalid(m))
        },
        Ok(v) => Ok(v as u8),
    }
}

/// The bytes of `s` without its prefixes.
pub open spec fn bare_bytes(s: Seq<char>) -> Seq<u8> {
    vstd::utf8::encode_utf8(bare(s))
}

/// Whether a character starts at this byte of a text, or the text ends there.
pub open spec fn is_cut(b: Seq<u8>, at: int) -> bool {
    at == b.len() || !(0x80 <= b[at] < 0xC0)
}

/// The number that two digits spell in hexadecimal; `None` where one of the two
/// bytes of text is no digit.
pub open spec fn pair_value(high: char, low: char) -> Option<nat> {
    match (text::digit_value(high, 16), text::digit_value(low, 16)) {
        (Some(h), Some(l)) => Some(16 * h + l),
        _ => None,
    }
}

/// The bytes that the text spells from the given place on, two digits for each.
pub open spec fn pairs_from(b: Seq<u8>, at: int) -> Result<Seq<u8>, RefusalView>
    decreases b.len() - at,
{
    if at + 2 > b.len() {
        Ok(Seq::<u8>::empty())
    } else if !is_cut(b, at) || !is_cut(b, at + 2) {
        Err(RefusalView::SplitCharacter)
    } else {
        match pair_value(b[at] as char, b[at + 1] as char) {
            None => Err(
                RefusalView::Invalid(
                    "bad hex byte at offset "@ + text::dec_digits(at as nat) + ": "@
                        + NumberError::InvalidDigit.text(),
                ),
            ),
            Some(v) => match pairs_from(b, at + 2) {
                Err(r) => Err(r),
                Ok(rest) => Ok(seq![v as u8] + rest),
            },
        }
    }
}

/// The bytes that `s` spells, two digits for each.
pub open spec fn hex_bytes(s: Seq<char>) -> Result<Seq<u8>, RefusalView> {
    let b = bare_bytes(s);
    if b.len() % 2 != 0 {
        Err(RefusalView::Invalid("data hex string must have even length"@))
    } else {
        pairs_from(b, 0)
    }
}

fn cut_at(b: &[u8], at: usize) -> (r: bool)
    requires
        at <= b@.len(),
    ensures
        r == is_cut(b@, at as int),
{
    at == b.len() || b[at] < 0x80 || b[at] >= 0xC0
}

fn offset_refusal(at: usize) -> (r: Refusal)
    ensures
        r@ == RefusalView::Invalid(
            "bad hex byte at offset "@ + text::dec_digits(at as nat) + ": "@
                + NumberError::InvalidDigit.text(),
        ),
{
    let mut m = String::from_str("bad hex byte at offset ");
    push_dec(&mut m, at as u64);
    m.append(": ");
    m.append(NumberError::InvalidDigit.message());
    Refusal::Invalid(m)
}

fn read_pair(high: u8, low: u8) -> (r: Option<u8>)
    ensures
        match (r, pair_value(high as char, low as char)) {
            (Some(v), Some(w)) => v == w,
            (None, None) => true,
            _ => false,
        },
{
    match (value_of_digit(high as char, 16), value_of_digit(low as char, 16)) {
        (Some(h), Some(l)) => Some((16 * h + l) as u8),
        _ => None,
    }
}

/// Whether the bytes are those that the digits spell, two digits for each.
pub open spec fn spelled(digits: Seq<char>, v: Seq<u8>) -> bool {
    &&& v.len() * 2 == digits.len()
    &&& forall|i: int|
        0 <= i < v.len() ==> Some(#[trigger] v[i] as nat) == pair_value(
            digits[2 * i],
            digits[2 * i + 1],
        )
}

/// Reads a string of bytes: an even number of hexadecimal digits, two for each
/// byte, and nothing else.
pub fn parse_hex_bytes(s: &str) -> (r: Result<Vec<u8>, Refusal>)
    ensures
        match r {
            Ok(v) => hex_bytes(s@) == Ok::<Seq<u8>, RefusalView>(v@),
            Err(e) => hex_bytes(s@) == Err::<Seq<u8>, RefusalView>(e@),
        },
        vstd::utf8::is_ascii_chars(s@) ==> {
            &&& r is Ok <==> bare(s@).len() % 2 == 0 && text::all_digits(bare(s@), 16)
            &&& r matches Ok(v) ==> spelled(bare(s@), v@)
        },
{
    proof {
        if vstd::utf8::is_ascii_chars(s@) {
            law_hex_bytes_are_digit_pairs(s@);
        }
    }
    let cs = chars_of(s);
    let digits = string_of(strip(cs.as_slice()));
    let b = digits.as_str().as_bytes();
    if b.len() % 2 != 0 {
        return Err(Refusal::Invalid(String::from_str("data hex string must have even length")));
    }
    let mut v: Vec<u8> = Vec::new();
    let mut at: usize = 0;
    assert(v@ =~= Seq::<u8>::empty());
    while at < b.len()
        invariant
            b@ == bare_bytes(s@),
            b@.len() % 2 == 0,
            at % 2 == 0,
            at <= b@.len(),
            pairs_from(b@, 0) == match pairs_from(b@, at as int) {
                Ok(rest) => Ok::<Seq<u8>, RefusalView>(v@ + rest),
                Err(r) => Err(r),
            },
            vstd::utf8::is_ascii_chars(s@) ==> {
                &&& hex_bytes(s@) is Ok <==> bare(s@).len() % 2 == 0 && text::all_digits(
                    bare(s@),
                    16,
                )
                &&& hex_bytes(s@) matches Ok(w) ==> spelled(bare(s@), w)
            },
        decreases b@.len() - at,
    {
        if !cut_at(b, at) || !cut_at(b, at + 2) {
            return Err(Refusal::SplitCharacter);
        }
        match read_pair(b[at], b[at + 1]) {
            None => {
                return Err(offset_refusal(at));
            },
            Some(x) => {
                let ghost before = v@;
                v.push(x);
                proof {
                    if let Ok(rest) = pairs_from(b@, at + 2) {
                        assert(before + (seq![x] + rest) =~= v@ + rest);
                    }
                }
            },
        }
        at = at + 2;
    }
    assert(v@ + Seq::<u8>::empty() =~= v@);
    Ok(v)
}

// ---------------------------------------------------------------------------
// Arguments

/// A frame to be sent, as it is given.
#[derive(Clone, Debug)]
pub struct SendFrameInline {
    /// CAN identifier as a hex string.
    pub id: String,
    /// Whether `id` is a 29-bit extended identifier.
    pub extended: bool,
    /// Payload as a hex string.
    pub data: String,
    /// CAN-FD frame.
    pub fd: bool,
    /// Bit-Rate Switch (FD only).
    pub brs: bool,
}

/// What `send_frame` is asked.
#[derive(Clone, Debug)]
pub struct SendFrameArgs {
    /// Interface name to transmit on (must be in the server allowlist).
    pub iface: String,
    /// The frame.
    pub frame: SendFrameInline,
}

/// One pattern of a filter.
#[derive(Clone, Debug)]
pub struct FilterEntry {
    /// ID pattern as hex string.
    pub id: String,
    /// Mask as hex string.
    pub mask: String,
    /// Whether this is an extended-ID filter.
    pub extended: bool,
}

/// A filter: a frame is delivered if it matches any of the entries.
#[derive(Clone, Debug)]
pub struct FilterSpec {
    /// One or more filter entries.
    pub entries: Vec<FilterEntry>,
}

/// What `capture` is asked.
#[derive(Clone, Debug)]
pub struct CaptureArgs {
    /// Interface to listen on.
    pub iface: String,
    /// Maximum time to wait, in milliseconds.
    pub timeout_ms: u64,
    /// Maximum number of frames to return; never more than 4096.
    pub max_frames: usize,
    /// Optional filter: if set, only matching frames are delivered.
    pub filter: Option<FilterSpec>,
}

/// What `send_and_capture` is asked.
#[derive(Clone, Debug)]
pub struct SendAndCaptureArgs {
    /// Interface for both sending and receiving.
    pub iface: String,
    /// Optional separate interface for receiving; defaults to `iface`.
    pub rx_iface: Option<String>,
    /// Frame to send.
    pub frame: SendFrameInline,
    /// Capture window after sending, in milliseconds.
    pub timeout_ms: u64,
    /// Maximum number of response frames to capture; never more than 4096.
    pub max_frames: usize,
    /// Filter for the response capture.
    pub filter: Option<FilterSpec>,
}

/// What `isotp_request` is asked.
#[derive(Clone, Debug)]
pub struct IsoTpRequestArgs {
    /// Interface to use for both transmit and receive.
    pub iface: String,
    /// Tester-side ID to transmit on, as a hex string.
    pub tx_id: String,
    /// ECU-side ID to receive on, as a hex string.
    pub rx_id: String,
    /// Whether `tx_id` and `rx_id` are 29-bit extended identifiers.
    pub extended: bool,
    /// Request payload as a hex string.
    pub payload: String,
    /// Padding byte for unused bytes within an 8-byte frame, hex.
    pub padding: String,
    /// Total timeout for the entire request/response cycle, milliseconds.
    pub timeout_ms: u64,
    /// Block Size to advertise in outgoing Flow Control.
    pub block_size: u8,
    /// SeparationTime (ms) to ask the ECU to honour.
    pub st_min_ms: u8,
}

/// The padding where none is given.
pub fn default_padding() -> (s: String)
    ensures
        s@ == "CC"@,
{
    String::from_str("CC")
}

/// The timeout in milliseconds where none is given.
pub fn default_timeout_ms() -> (n: u64)
    ensures
        n == 1000,
{
    1000
}

/// The number of frames to capture where none is given.
pub fn default_max_frames() -> (n: usize)
    ensures
        n == 256,
{
    256
}

// ---------------------------------------------------------------------------
// Frames and filters

/// A frame in words.
#[derive(Clone, Debug)]
pub struct FrameJson {
    pub id: String,
    pub extended: bool,
    pub fd: bool,
    pub brs: bool,
    pub esi: bool,
    pub dlc: u8,
    pub data: String,
    pub timestamp_ns: Option<u64>,
}

impl FrameJson {
    /// Whether this is the frame `f` in words.
    pub open spec fn describes(&self, f: FrameView) -> bool {
        &&& self.id@ == f.id.text()
        &&& self.extended == (f.id is Extended)
        &&& self.fd == (f.kind is Fd)
        &&& self.brs == (f.kind matches FrameKind::Fd(flags) && flags.brs)
        &&& self.esi == (f.kind matches FrameKind::Fd(flags) && flags.esi)
        &&& self.dlc == f.payload.len()
        &&& self.data@ == text::hex_dump(f.payload)
        &&& self.timestamp_ns == f.timestamp_ns
    }

    /// Puts a frame in words.
    pub fn from_frame(f: &Frame) -> (j: Self)
        requires
            f.wf(),
        ensures
            j.describes(f@),
    {
        let (fd, brs, esi) = match f.kind {
            FrameKind::Classic => (false, false, false),
            FrameKind::Fd(flags) => (true, flags.brs, flags.esi),
        };
        FrameJson {
            id: f.id.to_string(),
            extended: f.id.is_extended(),
            fd,
            brs,
            esi,
            dlc: f.len,
            data: hex_string(f.data()),
            timestamp_ns: f.timestamp_ns,
        }
    }
}

/// The kind of frame that is asked for.
pub open spec fn kind_asked(args: &SendFrameInline) -> FrameKind {
    if args.fd {
        FrameKind::Fd(FdFlags { brs: args.brs, esi: false })
    } else {
        FrameKind::Classic
    }
}

/// The frame that is asked for.
pub open spec fn frame_asked(args: &SendFrameInline) -> Result<FrameView, RefusalView> {
    match hex_id(args.id@, args.extended) {
        Err(r) => Err(r),
        Ok(id) => match hex_bytes(args.data@) {
            Err(r) => Err(r),
            Ok(payload) => {
                let kind = kind_asked(args);
                if payload.len() > kind.max_payload() {
                    Err(
                        RefusalView::Invalid(
                            "invalid frame: "@ + (FrameError::DataTooLong {
                                len: payload.len() as usize,
                                max: kind.max_payload() as usize,
                            }).text(),
                        ),
                    )
                } else {
                    Ok(FrameView { id, kind, payload, timestamp_ns: None })
                }
            },
        },
    }
}

/// Makes the frame that is asked for.
pub fn build_frame(args: &SendFrameInline) -> (r: Result<Frame, Refusal>)
    ensures
        match r {
            Ok(f) => {
                &&& f.wf()
                &&& f.zero_tail()
                &&& f@.valid()
                &&& frame_asked(args) == Ok::<FrameView, RefusalView>(f@)
            },
            Err(e) => frame_asked(args) == Err::<FrameView, RefusalView>(e@),
        },
{
    let id = match parse_hex_id(args.id.as_str(), args.extended) {
        Ok(id) => id,
        Err(e) => return Err(e),
    };
    let data = match parse_hex_bytes(args.data.as_str()) {
        Ok(data) => data,
        Err(e) => return Err(e),
    };
    let frame = if args.fd {
        Frame::new_fd(id, data.as_slice(), FdFlags { brs: args.brs, esi: false })
    } else {
        Frame::new_classic(id, data.as_slice())
    };
    match frame {
        Ok(f) => Ok(f),
        Err(e) => {
            let mut m = String::from_str("invalid frame: ");
            m.append(e.to_string().as_str());
            Err(Refusal::Invalid(m))
        },
    }
}

/// The filter that an entry asks for. An extended one matches extended frames
/// only.
pub open spec fn filter_asked(e: &FilterEntry) -> Result<CanFilter, RefusalView> {
    match text::number_of(text::without_prefixes(e.id@, 'x'), 16, 0xFFFF_FFFF) {
        Err(err) => Err(RefusalView::Invalid("bad filter id: "@ + err.text())),
        Ok(id) => match text::number_of(text::without_prefixes(e.mask@, 'x'), 16, 0xFFFF_FFFF) {
            Err(err) => Err(RefusalView::Invalid("bad filter mask: "@ + err.text())),
            Ok(mask) => Ok(
                if e.extended {
                    CanFilter { id: id as u32 | CAN_EFF_FLAG, mask: mask as u32 | CAN_EFF_FLAG }
                } else {
                    CanFilter { id: id as u32, mask: mask as u32 }
                },
            ),
        },
    }
}

/// The filters that the entries ask for. The first that cannot be read decides
/// the refusal.
pub open spec fn filters_asked(entries: Seq<FilterEntry>) -> Result<Seq<CanFilter>, RefusalView>
    decreases entries.len(),
{
    if entries.len() == 0 {
        Ok(Seq::<CanFilter>::empty())
    } else {
        match filters_asked(entries.drop_last()) {
            Err(r) => Err(r),
            Ok(before) => match filter_asked(&entries.last()) {
                Err(r) => Err(r),
                Ok(f) => Ok(before.push(f)),
            },
        }
    }
}

fn hex_word(s: &str) -> (r: Result<u32, NumberError>)
    ensures
        match r {
            Ok(v) => text::number_of(text::without_prefixes(s@, 'x'), 16, 0xFFFF_FFFF) == Ok::<
                nat,
                NumberError,
            >(v as nat),
            Err(e) => text::number_of(text::without_prefixes(s@, 'x'), 16, 0xFFFF_FFFF) == Err::<
                nat,
                NumberError,
            >(e),
        },
{
    let cs = chars_of(s);
    match parse_number(strip_prefixes(cs.as_slice(), 'x'), 16, 0xFFFF_FFFF) {
        Ok(v) => Ok(v as u32),
        Err(e) => Err(e),
    }
}

fn build_filter(e: &FilterEntry) -> (r: Result<CanFilter, Refusal>)
    ensures
        match r {
            Ok(f) => filter_asked(e) == Ok::<CanFilter, RefusalView>(f),
            Err(x) => filter_asked(e) == Err::<CanFilter, RefusalView>(x@),
        },
{
    let id = match hex_word(e.id.as_str()) {
        Ok(v) => v,
        Err(err) => {
            let mut m = String::from_str("bad filter id: ");
            m.append(err.message());
            return Err(Refusal::Invalid(m));
        },
    };
    let mask = match hex_word(e.mask.as_str()) {
        Ok(v) => v,
        Err(err) => {
            let mut m = String::from_str("bad filter mask: ");
            m.append(err.message());
            return Err(Refusal::Invalid(m));
        },
    };
    Ok(
        if e.extended {
            CanFilter { id: id | CAN_EFF_FLAG, mask: mask | CAN_EFF_FLAG }
        } else {
            CanFilter { id, mask }
        },
    )
}

proof fn lemma_filters_refused_early(entries: Seq<FilterEntry>, n: int)
    requires
        0 <= n <= entries.len(),
        filters_asked(entries.take(n)) is Err,
    ensures
        filters_asked(entries) == filters_asked(entries.take(n)),
    decreases entries.len() - n,
{
    if n == entries.len() {
        assert(entries.take(n) =~= entries);
    } else {
        assert(entries.take(n + 1).drop_last() =~= entries.take(n));
        lemma_filters_refused_early(entries, n + 1);
    }
}

/// Makes the filters that are asked for.
pub fn build_filters(filter: &FilterSpec) -> (r: Result<Vec<CanFilter>, Refusal>)
    ensures
        match r {
            Ok(v) => filters_asked(filter.entries@) == Ok::<Seq<CanFilter>, RefusalView>(v@),
            Err(e) => filters_asked(filter.entries@) == Err::<Seq<CanFilter>, RefusalView>(e@),
        },
{
    let mut v: Vec<CanFilter> = Vec::new();
    assert(filter.entries@.take(0) =~= Seq::<FilterEntry>::empty());
    for i in 0..filter.entries.len()
        invariant
            filters_asked(filter.entries@.take(i as int)) == Ok::<Seq<CanFilter>, RefusalView>(v@),
    {
        proof {
            let now = filter.entries@.take(i + 1);
            assert(now.drop_last() =~= filter.entries@.take(i as int));
            assert(now.last() == filter.entries@[i as int]);
        }
        match build_filter(&filter.entries[i]) {
            Ok(f) => v.push(f),
            Err(e) => {
                proof {
                    lemma_filters_refused_early(filter.entries@, i + 1);
                }
                return Err(e);
            },
        }
    }
    assert(filter.entries@.take(filter.entries@.len() as int) =~= filter.entries@);
    Ok(v)
}

/// The filters that are asked for, if any are.
pub open spec fn optional_filters(f: Option<FilterSpec>) -> Result<
    Option<Seq<CanFilter>>,
    RefusalView,
> {
    match f {
        None => Ok(None),
        Some(f) => match filters_asked(f.entries@) {
            Ok(v) => Ok(Some(v)),
            Err(r) => Err(r),
        },
    }
}

fn build_optional_filters(f: &Option<FilterSpec>) -> (r: Result<Option<Vec<CanFilter>>, Refusal>)
    ensures
        match r {
            Ok(None) => optional_filters(*f) == Ok::<Option<Seq<CanFilter>>, RefusalView>(None),
            Ok(Some(v)) => optional_filters(*f) == Ok::<Option<Seq<CanFilter>>, RefusalView>(
                Some(v@),
            ),
            Err(e) => optional_filters(*f) == Err::<Option<Seq<CanFilter>>, RefusalView>(e@),
        },
{
    match f {
        None => Ok(None),
        Some(f) => match build_filters(f) {
            Ok(v) => Ok(Some(v)),
            Err(e) => Err(e),
        },
    }
}

// ---------------------------------------------------------------------------
// Plans

/// The most frames that are captured at once.
pub const MAX_CAPTURE: usize = 4096;

/// Whether a socket is opened as by default, but for the receive timeout and the
/// filters.
pub open spec fn opens_with(opts: &OpenOpts, timeout_ms: nat, filters: Option<Seq<CanFilter>>)
    -> bool {
    &&& opts.wf()
    &&& opts.fd
    &&& opts.recv_buf_bytes == Some(8388608usize)
    &&& opts.send_buf_bytes == Some(1048576usize)
    &&& opts.timestamping == Timestamping::BestAvailable
    &&& opts.recv_timeout matches Some(t) && t.nanos() == timeout_ms * 1_000_000
    &&& opts.filters() == filters
    &&& opts.error_filter is None
    &&& !opts.nonblocking
}

fn open_opts(timeout_ms: u64, filter: Option<Vec<CanFilter>>) -> (o: OpenOpts)
    ensures
        opens_with(
            &o,
            timeout_ms as nat,
            match filter {
                Some(f) => Some(f@),
                None => None,
            },
        ),
{
    let mut o = OpenOpts::default();
    o.recv_timeout = Some(TimeSpan::from_millis(timeout_ms));
    o.filter = filter;
    o
}

fn capture_limit(max_frames: usize) -> (n: usize)
    ensures
        n == if max_frames < 4096 {
            max_frames
        } else {
            4096
        },
{
    if max_frames < MAX_CAPTURE {
        max_frames
    } else {
        MAX_CAPTURE
    }
}

/// A frame is to be sent.
#[derive(Debug)]
pub struct SendPlan {
    /// On which interface.
    pub iface: String,
    /// How its socket is opened.
    pub opts: OpenOpts,
    /// The frame.
    pub frame: Frame,
}

/// Frames are to be captured.
#[derive(Debug)]
pub struct CapturePlan {
    /// On which interface.
    pub iface: String,
    /// How its socket is opened.
    pub opts: OpenOpts,
    /// For how many milliseconds at most.
    pub timeout_ms: u64,
    /// How many frames at most.
    pub max_frames: usize,
}

/// An ISO-TP request is to be made.
#[derive(Debug)]
pub struct IsoTpPlan {
    /// On which interface.
    pub iface: String,
    /// How its socket is opened.
    pub opts: OpenOpts,
    /// The identifier to send with.
    pub tx_id: CanId,
    /// The identifier that the response has.
    pub rx_id: CanId,
    /// The request.
    pub payload: Vec<u8>,
    /// How the exchange is made.
    pub options: Options,
}

/// A frame is to be sent and replies are to be captured.
#[derive(Debug)]
pub struct SendAndCapturePlan {
    /// How the replies are captured. This socket is opened first, so that no
    /// reply is missed.
    pub capture: CapturePlan,
    /// The interface to send on, where it is not the one that is listened to.
    pub tx_iface: Option<String>,
    /// How its socket is opened.
    pub tx_opts: OpenOpts,
    /// The frame.
    pub frame: Frame,
}

/// What `send_frame` does: the frame that is sent.
pub open spec fn send_planned(config: &Config, args: &SendFrameArgs) -> Result<
    FrameView,
    RefusalView,
> {
    match config.send_refusal(args.iface@) {
        Some(r) => Err(r),
        None => frame_asked(&args.frame),
    }
}

/// What `capture` does: the filters that are set.
pub open spec fn capture_planned(config: &Config, args: &CaptureArgs) -> Result<
    Option<Seq<CanFilter>>,
    RefusalView,
> {
    match config.iface_refusal(args.iface@) {
        Some(r) => Err(r),
        None => optional_filters(args.filter),
    }
}

/// An ISO-TP request: identifiers, payload and padding.
pub struct IsoTpRequestView {
    pub tx_id: CanId,
    pub rx_id: CanId,
    pub payload: Seq<u8>,
    pub padding: u8,
}

/// What `isotp_request` does.
pub open spec fn isotp_planned(config: &Config, args: &IsoTpRequestArgs) -> Result<
    IsoTpRequestView,
    RefusalView,
> {
    match config.send_refusal(args.iface@) {
        Some(r) => Err(r),
        None => match hex_id(args.tx_id@, args.extended) {
            Err(r) => Err(r),
            Ok(tx_id) => match hex_id(args.rx_id@, args.extended) {
                Err(r) => Err(r),
                Ok(rx_id) => match hex_bytes(args.payload@) {
                    Err(r) => Err(r),
                    Ok(payload) => match hex_byte(args.padding@) {
                        Err(r) => Err(r),
                        Ok(padding) => Ok(IsoTpRequestView { tx_id, rx_id, payload, padding }),
                    },
                },
            },
        },
    }
}

/// The interface that `send_and_capture` listens to.
pub open spec fn listening_iface(args: &SendAndCaptureArgs) -> Seq<char> {
    match args.rx_iface {
        Some(i) => i@,
        None => args.iface@,
    }
}

/// What `send_and_capture` does: the frame that is sent, and the filters that are
/// set for the replies.
pub open spec fn send_and_capture_planned(config: &Config, args: &SendAndCaptureArgs) -> Result<
    (FrameView, Option<Seq<CanFilter>>),
    RefusalView,
> {
    match config.send_refusal(args.iface@) {
        Some(r) => Err(r),
        None => match config.iface_refusal(listening_iface(args)) {
            Some(r) => Err(r),
            None => match frame_asked(&args.frame) {
                Err(r) => Err(r),
                Ok(f) => match optional_filters(args.filter) {
                    Err(r) => Err(r),
                    Ok(filters) => Ok((f, filters)),
                },
            },
        },
    }
}

impl Config {
    /// Plans `send_frame`.
    pub fn send_frame(&self, args: &SendFrameArgs) -> (r: Result<SendPlan, Refusal>)
        ensures
            match r {
                Ok(p) => {
                    &&& send_planned(self, args) == Ok::<FrameView, RefusalView>(p.frame@)
                    &&& p.frame.wf()
                    &&& p.frame.zero_tail()
                    &&& p.frame@.valid()
                    &&& p.iface@ == args.iface@
                    &&& opens_with(&p.opts, 500, None)
                },
                Err(e) => send_planned(self, args) == Err::<FrameView, RefusalView>(e@),
            },
    {
        if let Err(e) = self.check_send(args.iface.as_str()) {
            return Err(e);
        }
        match build_frame(&args.frame) {
            Err(e) => Err(e),
            Ok(frame) => Ok(
                SendPlan { iface: args.iface.clone(), opts: open_opts(500, None), frame },
            ),
        }
    }

    /// Plans `capture`.
    pub fn capture(&self, args: &CaptureArgs) -> (r: Result<CapturePlan, Refusal>)
        ensures
            match r {
                Ok(p) => {
                    &&& capture_planned(self, args) is Ok
                    &&& p.iface@ == args.iface@
                    &&& opens_with(&p.opts, 100, capture_planned(self, args)->Ok_0)
                    &&& p.timeout_ms == args.timeout_ms
                    &&& p.max_frames == if args.max_frames < 4096 {
                        args.max_frames
                    } else {
                        4096
                    }
                },
                Err(e) => capture_planned(self, args) == Err::<
                    Option<Seq<CanFilter>>,
                    RefusalView,
                >(e@),
            },
    {
        if let Err(e) = self.check_iface(args.iface.as_str()) {
            return Err(e);
        }
        match build_optional_filters(&args.filter) {
            Err(e) => Err(e),
            Ok(filter) => Ok(
                CapturePlan {
                    iface: args.iface.clone(),
                    opts: open_opts(100, filter),
                    timeout_ms: args.timeout_ms,
                    max_frames: capture_limit(args.max_frames),
                },
            ),
        }
    }

    /// Plans `isotp_request`.
    pub fn isotp_request(&self, args: &IsoTpRequestArgs) -> (r: Result<IsoTpPlan, Refusal>)
        ensures
            match r {
                Ok(p) => {
                    &&& isotp_planned(self, args) == Ok::<IsoTpRequestView, RefusalView>(
                        (IsoTpRequestView {
                            tx_id: p.tx_id,
                            rx_id: p.rx_id,
                            payload: p.payload@,
                            padding: p.options.padding,
                        }),
                    )
                    &&& p.iface@ == args.iface@
                    &&& opens_with(&p.opts, 50, None)
                    &&& p.options.block_size == args.block_size
                    &&& p.options.st_min_ms == args.st_min_ms
                    &&& p.options.timeout.wf()
                    &&& p.options.timeout.nanos() == args.timeout_ms * 1_000_000
                    &&& p.options.max_waits == 8
                },
                Err(e) => isotp_planned(self, args) == Err::<IsoTpRequestView, RefusalView>(e@),
            },
    {
        if let Err(e) = self.check_send(args.iface.as_str()) {
            return Err(e);
        }
        let tx_id = match parse_hex_id(args.tx_id.as_str(), args.extended) {
            Ok(id) => id,
            Err(e) => return Err(e),
        };
        let rx_id = match parse_hex_id(args.rx_id.as_str(), args.extended) {
            Ok(id) => id,
            Err(e) => return Err(e),
        };
        let payload = match parse_hex_bytes(args.payload.as_str()) {
            Ok(v) => v,
            Err(e) => return Err(e),
        };
        let padding = match parse_single_hex_byte(args.padding.as_str()) {
            Ok(b) => b,
            Err(e) => return Err(e),
        };
        let mut options = Options::default();
        options.padding = padding;
        options.block_size = args.block_size;
        options.st_min_ms = args.st_min_ms;
        options.timeout = TimeSpan::from_millis(args.timeout_ms);
        Ok(
            IsoTpPlan {
                iface: args.iface.clone(),
                opts: open_opts(50, None),
                tx_id,
                rx_id,
                payload,
                options,
            },
        )
    }

    /// Plans `send_and_capture`.
    pub fn send_and_capture(&self, args: &SendAndCaptureArgs) -> (r: Result<
        SendAndCapturePlan,
        Refusal,
    >)
        ensures
            match r {
                Ok(p) => {
                    &&& send_and_capture_planned(self, args) is Ok
                    &&& p.frame@ == (send_and_capture_planned(self, args)->Ok_0).0
                    &&& p.frame.wf()
                    &&& p.frame.zero_tail()
                    &&& p.frame@.valid()
                    &&& p.capture.iface@ == listening_iface(args)
                    &&& opens_with(
                        &p.capture.opts,
                        50,
                        (send_and_capture_planned(self, args)->Ok_0).1,
                    )
                    &&& p.capture.timeout_ms == args.timeout_ms
                    &&& p.capture.max_frames == if args.max_frames < 4096 {
                        args.max_frames
                    } else {
                        4096
                    }
                    &&& match p.tx_iface {
                        Some(i) => i@ == args.iface@ && listening_iface(args) != args.iface@,
                        None => listening_iface(args) == args.iface@,
                    }
                    &&& opens_with(&p.tx_opts, 500, None)
                },
                Err(e) => send_and_capture_planned(self, args) == Err::<
                    (FrameView, Option<Seq<CanFilter>>),
                    RefusalView,
                >(e@),
            },
    {
        if let Err(e) = self.check_send(args.iface.as_str()) {
            return Err(e);
        }
        let rx_iface = match &args.rx_iface {
            Some(i) => i.clone(),
            None => args.iface.clone(),
        };
        let shared = same_text(rx_iface.as_str(), args.iface.as_str());
        if !shared {
            if let Err(e) = self.check_iface(rx_iface.as_str()) {
                return Err(e);
            }
        }
        let frame = match build_frame(&args.frame) {
            Ok(f) => f,
            Err(e) => return Err(e),
        };
        let filter = match build_optional_filters(&args.filter) {
            Ok(f) => f,
            Err(e) => return Err(e),
        };
        let tx_iface = if shared {
            None
        } else {
            Some(args.iface.clone())
        };
        let capture = CapturePlan {
            iface: rx_iface,
            opts: open_opts(50, filter),
            timeout_ms: args.timeout_ms,
            max_frames: capture_limit(args.max_frames),
        };
        Ok(SendAndCapturePlan { capture, tx_iface, tx_opts: open_opts(500, None), frame })
    }
}

// ---------------------------------------------------------------------------
// Captures and replies

/// The frames that were captured so far.
#[derive(Debug)]
pub struct Capture {
    max_frames: usize,
    frames: Vec<Frame>,
}

impl Capture {
    /// How many frames are wanted.
    pub closed spec fn limit(&self) -> nat {
        self.max_frames as nat
    }

    /// The frames that were captured so far.
    pub closed spec fn frames(&self) -> Seq<FrameView> {
        self.frames@.map_values(|f: Frame| f@)
    }

    /// Whether there are no more frames than are wanted, and all are well formed.
    pub closed spec fn wf(&self) -> bool {
        &&& self.frames@.len() <= self.max_frames
        &&& forall|i: int| 0 <= i < self.frames@.len() ==> (#[trigger] self.frames@[i]).wf()
    }

    /// A capture that has not begun.
    pub fn new(max_frames: usize) -> (c: Self)
        ensures
            c.wf(),
            c.limit() == max_frames,
            c.frames() == Seq::<FrameView>::empty(),
    {
        let c = Capture { max_frames, frames: Vec::new() };
        assert(c.frames() =~= Seq::<FrameView>::empty());
        c
    }

    /// Whether the capture goes on: there is time left, and more frames are
    /// wanted.
    pub fn goes_on(&self, in_time: bool) -> (r: bool)
        requires
            self.wf(),
        ensures
            r == (in_time && self.frames().len() < self.limit()),
    {
        in_time && self.frames.len() < self.max_frames
    }

    /// A frame was received.
    pub fn add_frame(&mut self, frame: Frame)
        requires
            old(self).wf(),
            frame.wf(),
            old(self).frames().len() < old(self).limit(),
        ensures
            final(self).wf(),
            final(self).limit() == old(self).limit(),
            final(self).frames() == old(self).frames().push(frame@),
    {
        self.frames.push(frame);
        assert(self.frames() =~= old(self).frames().push(frame@));
    }

    /// The frames in words.
    pub fn to_json(&self) -> (v: Vec<FrameJson>)
        requires
            self.wf(),
        ensures
            v@.len() == self.frames().len(),
            forall|i: int| 0 <= i < v@.len() ==> (#[trigger] v@[i]).describes(self.frames()[i]),
    {
        let mut v: Vec<FrameJson> = Vec::new();
        for i in 0..self.frames.len()
            invariant
                self.wf(),
                v@.len() == i,
                forall|j: int| 0 <= j < i ==> (#[trigger] v@[j]).describes(self.frames()[j]),
        {
            v.push(FrameJson::from_frame(&self.frames[i]));
        }
        v
    }
}

/// An ISO-TP response in words.
#[derive(Clone, Debug)]
pub struct IsoTpReply {
    /// In hexadecimal.
    pub hex: String,
    /// As text, with dots for what cannot be printed.
    pub ascii: String,
    /// Its length.
    pub len: usize,
}

impl IsoTpReply {
    /// Puts a response in words.
    pub fn from_response(response: &[u8]) -> (r: Self)
        ensures
            r.hex@ == text::hex_dump(response@),
            r.ascii@ == text::printable(response@),
            r.len == response@.len(),
    {
        IsoTpReply {
            hex: hex_string(response),
            ascii: printable_string(response),
            len: response.len(),
        }
    }
}

// ---------------------------------------------------------------------------
// Laws

/// No bus is touched through an interface that is not on the allowlist: every
/// tool that would is refused.
pub proof fn law_allowlist_guards_every_bus(
    config: &Config,
    send: &SendFrameArgs,
    capture: &CaptureArgs,
    isotp: &IsoTpRequestArgs,
    both: &SendAndCaptureArgs,
)
    ensures
        send_planned(config, send) is Ok ==> config.allows(send.iface@),
        capture_planned(config, capture) is Ok ==> config.allows(capture.iface@),
        isotp_planned(config, isotp) is Ok ==> config.allows(isotp.iface@),
        send_and_capture_planned(config, both) is Ok ==> config.allows(both.iface@)
            && config.allows(listening_iface(both)),
{
}

/// Where the allowlist is empty, every call that would touch a bus is refused,
/// for that reason.
pub proof fn law_empty_allowlist_refuses_all(config: &Config, iface: Seq<char>)
    requires
        config.allowlist@.len() == 0,
    ensures
        config.iface_refusal(iface) is Some,
        config.send_refusal(iface) == config.iface_refusal(iface),
{
}

/// In read-only mode nothing is sent: every tool that would is refused.
pub proof fn law_readonly_sends_nothing(
    config: &Config,
    send: &SendFrameArgs,
    isotp: &IsoTpRequestArgs,
    both: &SendAndCaptureArgs,
)
    requires
        config.readonly,
    ensures
        send_planned(config, send) is Err,
        isotp_planned(config, isotp) is Err,
        send_and_capture_planned(config, both) is Err,
{
}

/// Settings that are not set allow nothing, and do not switch read-only mode on.
pub proof fn law_unset_settings_allow_nothing()
    ensures
        named(text::comma_parts(Seq::<char>::empty())) == Seq::<Seq<char>>::empty(),
        !switched_on(Seq::<char>::empty()),
{
    let parts = text::comma_parts(Seq::<char>::empty());
    assert(parts.drop_last().len() == 0);
    assert(named(parts.drop_last()) == Seq::<Seq<char>>::empty());
    assert(text::trimmed(Seq::<char>::empty()).len() == 0);
    assert(text::lower_case(Seq::<char>::empty()).len() == 0);
    reveal_strlit("1");
    reveal_strlit("true");
    reveal_strlit("yes");
    reveal_strlit("on");
}

proof fn lemma_bare_is_bytewise(s: Seq<char>)
    requires
        vstd::utf8::is_ascii_chars(s),
    ensures
        bare_bytes(s).len() == bare(s).len(),
        forall|i: int|
            0 <= i < bare(s).len() ==> #[trigger] bare_bytes(s)[i] as char == bare(s)[i]
                && bare_bytes(s)[i] < 0x80,
{
    let t = text::without_prefixes(s, 'x');
    text::lemma_without_prefixes(s, 'x');
    text::lemma_without_prefixes(t, 'X');
    let k = choose|k: int| 0 <= k <= s.len() && t == #[trigger] s.skip(k);
    let m = choose|m: int| 0 <= m <= t.len() && bare(s) == #[trigger] t.skip(m);
    let d = bare(s);
    assert forall|i: int| 0 <= i < d.len() implies '\0' <= #[trigger] d[i] <= '\u{7f}' by {
        assert(d[i] == s[k + m + i]);
    }
    vstd::utf8::is_ascii_chars_encode_utf8(d);
    let b = bare_bytes(s);
    assert forall|i: int| 0 <= i < d.len() implies #[trigger] b[i] as char == d[i] && b[i]
        < 0x80 by {
        assert(d[i] as u8 == b[i]);
    }
}

proof fn lemma_pairs_are_digits(b: Seq<u8>, at: int)
    requires
        0 <= at <= b.len(),
        at % 2 == 0,
        b.len() % 2 == 0,
        forall|i: int| 0 <= i < b.len() ==> #[trigger] b[i] < 0x80,
    ensures
        pairs_from(b, at) is Ok <==> (forall|i: int|
            at <= i < b.len() ==> text::digit_value(#[trigger] b[i] as char, 16) is Some),
        pairs_from(b, at) matches Ok(v) ==> {
            &&& v.len() * 2 == b.len() - at
            &&& forall|i: int|
                0 <= i < v.len() ==> Some(#[trigger] v[i] as nat) == pair_value(
                    b[at + 2 * i] as char,
                    b[at + 2 * i + 1] as char,
                )
        },
    decreases b.len() - at,
{
    if at < b.len() {
        lemma_pairs_are_digits(b, at + 2);
        assert(b[at] < 0x80 && b[at + 1] < 0x80);
        assert(is_cut(b, at + 2)) by {
            if at + 2 < b.len() {
                assert(b[at + 2] < 0x80);
            }
        }
        if let Ok(v) = pairs_from(b, at) {
            let rest = pairs_from(b, at + 2)->Ok_0;
            assert forall|i: int| 0 <= i < v.len() implies Some(#[trigger] v[i] as nat)
                == pair_value(b[at + 2 * i] as char, b[at + 2 * i + 1] as char) by {
                if i > 0 {
                    assert(v[i] == rest[i - 1]);
                }
            }
            assert forall|i: int| at <= i < b.len() implies text::digit_value(
                #[trigger] b[i] as char,
                16,
            ) is Some by {
                assert(i == at || i == at + 1 || at + 2 <= i);
            }
        }
    }
}

/// A payload is an even number of hexadecimal digits, after a prefix or not: text
/// in ASCII is read if and only if it is just that, and then gives the bytes that
/// its digits spell.
pub proof fn law_hex_bytes_are_digit_pairs(s: Seq<char>)
    requires
        vstd::utf8::is_ascii_chars(s),
    ensures
        hex_bytes(s) is Ok <==> bare(s).len() % 2 == 0 && text::all_digits(bare(s), 16),
        hex_bytes(s) matches Ok(v) ==> spelled(bare(s), v),
{
    let b = bare_bytes(s);
    lemma_bare_is_bytewise(s);
    if b.len() % 2 == 0 {
        lemma_pairs_are_digits(b, 0);
        if text::all_digits(bare(s), 16) {
            assert forall|i: int| 0 <= i < b.len() implies text::digit_value(
                #[trigger] b[i] as char,
                16,
            ) is Some by {
                assert(b[i] as char == bare(s)[i]);
            }
        }
        if hex_bytes(s) is Ok {
            assert forall|i: int| 0 <= i < bare(s).len() implies text::digit_value(
                #[trigger] bare(s)[i],
                16,
            ) is Some by {
                assert(b[i] as char == bare(s)[i]);
            }
            let v = hex_bytes(s)->Ok_0;
            assert forall|i: int| 0 <= i < v.len() implies Some(#[trigger] v[i] as nat)
                == pair_value(bare(s)[2 * i], bare(s)[2 * i + 1]) by {
                assert(b[2 * i] as char == bare(s)[2 * i]);
                assert(b[2 * i + 1] as char == bare(s)[2 * i + 1]);
            }
        }
    }
}

/// Bytes survive being written in hexadecimal and read again.
pub proof fn law_hex_bytes_round_trip(data: Seq<u8>)
    ensures
        hex_bytes(text::hex_dump(data)) == Ok::<Seq<u8>, RefusalView>(data),
{
    let t = text::hex_dump(data);
    assert forall|i: int| 0 <= i < t.len() implies '\0' <= #[trigger] t[i] <= '\u{7f}' by {}
    assert forall|i: int| 0 <= i < t.len() implies text::digit_value(
        #[trigger] t[i],
        16,
    ) is Some by {}
    assert(bare(t) == t);
    law_hex_bytes_are_digit_pairs(t);
    let v = hex_bytes(t)->Ok_0;
    assert forall|i: int| 0 <= i < v.len() implies v[i] == data[i] by {
        assert(t[2 * i] == text::hex_digit(data[i] as int / 16));
        assert(t[2 * i + 1] == text::hex_digit(data[i] as int % 16));
        assert(Some(v[i] as nat) == pair_value(t[2 * i], t[2 * i + 1]));
    }
    assert(v =~= data);
}

proof fn lemma_bare_hex(v: nat, width: nat)
    ensures
        bare(text::hex_text(v, width)) == text::hex_text(v, width),
{
    text::law_hex_round_trip(v, width, v);
    let t = text::hex_text(v, width);
    if t.len() >= 2 {
        assert('0' <= t[1] <= 'F');
    }
}

/// An identifier survives being written in hexadecimal and read again.
pub proof fn law_hex_id_round_trip(id: CanId)
    requires
        id.in_range(),
    ensures
        hex_id(id.text(), id is Extended) == Ok::<CanId, RefusalView>(id),
{
    match id {
        CanId::Standard(n) => {
            lemma_bare_hex(n as nat, 3);
            text::law_hex_round_trip(n as nat, 3, 0xFFFF_FFFF);
        },
        CanId::Extended(n) => {
            lemma_bare_hex(n as nat, 8);
            text::law_hex_round_trip(n as nat, 8, 0xFFFF_FFFF);
        },
    }
}

/// What a capture tells of a frame is enough to send it again: asking for a frame
/// with the words that describe one gives the same identifier, kind and payload.
/// (The error state indicator cannot be asked for, so it must not be set.)
pub proof fn law_described_frame_can_be_sent(
    frame: FrameView,
    words: &FrameJson,
    args: &SendFrameInline,
)
    requires
        frame.valid(),
        frame.kind matches FrameKind::Fd(flags) ==> !flags.esi,
        words.describes(frame),
        args.id@ == words.id@,
        args.extended == words.extended,
        args.data@ == words.data@,
        args.fd == words.fd,
        args.brs == words.brs,
    ensures
        frame_asked(args) == Ok::<FrameView, RefusalView>(
            (FrameView { timestamp_ns: None, ..frame }),
        ),
{
    law_hex_id_round_trip(frame.id);
    law_hex_bytes_round_trip(frame.payload);
}

/// Whether `s` is made of these digits, after a prefix or not.
pub open spec fn spells(s: Seq<char>, digits: Seq<char>) -> bool {
    ||| s == digits
    ||| s == seq!['0', 'x'] + digits
}

/// Whether `s` is made of these digits, after a prefix of either letter or not.
pub open spec fn spells_either(s: Seq<char>, digits: Seq<char>) -> bool {
    ||| spells(s, digits)
    ||| s == seq!['0', 'X'] + digits
}

proof fn lemma_spells_bare(s: Seq<char>, digits: Seq<char>)
    requires
        text::all_digits(digits, 16),
        spells_either(s, digits),
    ensures
        bare(s) == digits,
{
    text::law_prefixes_are_taken_away(digits, digits, 'x');
    text::law_prefixes_are_taken_away(digits, digits, 'X');
    let t = seq!['0', 'X'] + digits;
    if s == t {
        assert(t[1] == 'X');
        assert(text::without_prefixes(t, 'x') == t);
    }
}

/// A filter entry lets through just what it says: the data frames whose identifier
/// agrees with the pattern in the bits of the mask, whatever their format, and only
/// extended ones where the entry is an extended one.
pub proof fn law_filter_entry_matches_its_pattern(
    e: &FilterEntry,
    id_digits: Seq<char>,
    mask_digits: Seq<char>,
    x: CanId,
)
    requires
        id_digits.len() > 0,
        text::all_digits(id_digits, 16),
        spells(e.id@, id_digits),
        text::place_value(id_digits, 16) < 0x2000_0000,
        mask_digits.len() > 0,
        text::all_digits(mask_digits, 16),
        spells(e.mask@, mask_digits),
        text::place_value(mask_digits, 16) < 0x2000_0000,
        x.in_range(),
    ensures
        ({
            let i = text::place_value(id_digits, 16) as u32;
            let m = text::place_value(mask_digits, 16) as u32;
            &&& filter_asked(e) matches Ok(f) && f.accepts(x.wire_word()) == (x.number() & m == i
                & m && (e.extended ==> x is Extended))
            &&& m == 0x1FFF_FFFF && e.extended ==> (filter_asked(e)->Ok_0.accepts(x.wire_word())
                == (x == CanId::Extended(i)))
        }),
{
    let i = text::place_value(id_digits, 16) as u32;
    let m = text::place_value(mask_digits, 16) as u32;
    lemma_filter_numbers(e, id_digits, mask_digits);
    crate::frame::law_can_id_word_is_number(x);
    let w = x.wire_word();
    let n = x.number();
    let standard = x is Standard;
    assert(((w & m == i & m) == (n & m == i & m)) && ((w & (m | 0x8000_0000) == (i | 0x8000_0000)
        & (m | 0x8000_0000)) == (n & m == i & m && !standard)) && (m == 0x1FFF_FFFF ==> (n & m == i
        & m) == (n == i))) by (bit_vector)
        requires
            i < 0x2000_0000,
            m < 0x2000_0000,
            n < 0x2000_0000,
            standard ==> w == n,
            !standard ==> w == n + 0x8000_0000,
    ;
}

proof fn lemma_filter_numbers(e: &FilterEntry, id_digits: Seq<char>, mask_digits: Seq<char>)
    requires
        id_digits.len() > 0,
        text::all_digits(id_digits, 16),
        spells(e.id@, id_digits),
        text::place_value(id_digits, 16) <= 0xFFFF_FFFF,
        mask_digits.len() > 0,
        text::all_digits(mask_digits, 16),
        spells(e.mask@, mask_digits),
        text::place_value(mask_digits, 16) <= 0xFFFF_FFFF,
    ensures
        ({
            let i = text::place_value(id_digits, 16) as u32;
            let m = text::place_value(mask_digits, 16) as u32;
            filter_asked(e) == Ok::<CanFilter, RefusalView>(
                if e.extended {
                    CanFilter { id: i | 0x8000_0000, mask: m | 0x8000_0000 }
                } else {
                    CanFilter { id: i, mask: m }
                },
            )
        }),
{
    text::law_prefixes_are_taken_away(id_digits, id_digits, 'x');
    text::law_prefixes_are_taken_away(mask_digits, mask_digits, 'x');
    text::law_numbers_are_digits(id_digits, 16, 0xFFFF_FFFF);
    text::law_numbers_are_digits(mask_digits, 16, 0xFFFF_FFFF);
}

/// The words of a filter entry are its pattern and its mask as they are given; an
/// extended entry asks for the topmost bit as well.
pub proof fn law_filter_entry_keeps_its_words(
    e: &FilterEntry,
    id_digits: Seq<char>,
    mask_digits: Seq<char>,
)
    requires
        id_digits.len() > 0,
        text::all_digits(id_digits, 16),
        spells(e.id@, id_digits),
        text::place_value(id_digits, 16) <= 0xFFFF_FFFF,
        mask_digits.len() > 0,
        text::all_digits(mask_digits, 16),
        spells(e.mask@, mask_digits),
        text::place_value(mask_digits, 16) <= 0xFFFF_FFFF,
    ensures
        ({
            let i = text::place_value(id_digits, 16) as int;
            let m = text::place_value(mask_digits, 16) as int;
            &&& filter_asked(e) is Ok
            &&& filter_asked(e)->Ok_0.id == if e.extended && i < 0x8000_0000 {
                i + 0x8000_0000
            } else {
                i
            }
            &&& filter_asked(e)->Ok_0.mask == if e.extended && m < 0x8000_0000 {
                m + 0x8000_0000
            } else {
                m
            }
        }),
{
    lemma_filter_numbers(e, id_digits, mask_digits);
    let i = text::place_value(id_digits, 16) as u32;
    let m = text::place_value(mask_digits, 16) as u32;
    assert((i < 0x8000_0000 ==> i | 0x8000_0000 == i + 0x8000_0000) && (i >= 0x8000_0000 ==> i
        | 0x8000_0000 == i) && (m < 0x8000_0000 ==> m | 0x8000_0000 == m + 0x8000_0000) && (m
        >= 0x8000_0000 ==> m | 0x8000_0000 == m)) by (bit_vector);
}

/// An entry is refused where its pattern or its mask is no hexadecimal number of 32
/// bits, and only then.
pub proof fn law_bad_filter_entries_are_refused(e: &FilterEntry)
    ensures
        ({
            let i = text::without_prefixes(e.id@, 'x');
            let m = text::without_prefixes(e.mask@, 'x');
            filter_asked(e) is Ok <==> i.len() > 0 && text::all_digits(i, 16) && text::place_value(
                i,
                16,
            ) <= 0xFFFF_FFFF && m.len() > 0 && text::all_digits(m, 16) && text::place_value(m, 16)
                <= 0xFFFF_FFFF
        }),
{
    text::law_numbers_are_digits(text::without_prefixes(e.id@, 'x'), 16, 0xFFFF_FFFF);
    text::law_numbers_are_digits(text::without_prefixes(e.mask@, 'x'), 16, 0xFFFF_FFFF);
}

/// Each entry of a filter gives one filter, in order. The first entry that is
/// refused decides.
pub proof fn law_every_entry_gives_a_filter(entries: Seq<FilterEntry>)
    ensures
        filters_asked(entries) matches Ok(v) ==> v.len() == entries.len() && forall|i: int|
            #![trigger v[i]]
            0 <= i < entries.len() ==> filter_asked(&entries[i]) == Ok::<CanFilter, RefusalView>(
                v[i],
            ),
        filters_asked(entries) matches Err(r) ==> exists|k: int| {
            &&& 0 <= k < entries.len()
            &&& filter_asked(&#[trigger] entries[k]) == Err::<CanFilter, RefusalView>(r)
            &&& forall|i: int| 0 <= i < k ==> filter_asked(&#[trigger] entries[i]) is Ok
        },
    decreases entries.len(),
{
    if entries.len() > 0 {
        let n = entries.len() - 1;
        let e0 = entries.drop_last();
        law_every_entry_gives_a_filter(e0);
        match filters_asked(e0) {
            Err(r) => {
                let k = choose|k: int| {
                    &&& 0 <= k < e0.len()
                    &&& filter_asked(&#[trigger] e0[k]) == Err::<CanFilter, RefusalView>(r)
                    &&& forall|i: int| 0 <= i < k ==> filter_asked(&#[trigger] e0[i]) is Ok
                };
                assert(entries[k] == e0[k]);
                assert forall|i: int| 0 <= i < k implies filter_asked(
                    &#[trigger] entries[i],
                ) is Ok by {
                    assert(entries[i] == e0[i]);
                }
            },
            Ok(v0) => {
                assert forall|i: int| 0 <= i < n implies filter_asked(
                    &#[trigger] entries[i],
                ) == Ok::<CanFilter, RefusalView>(v0[i]) by {
                    assert(entries[i] == e0[i]);
                    assert(v0[i] == v0[i]);
                }
                match filter_asked(&entries[n]) {
                    Err(_) => {
                        assert(filter_asked(&entries[n]) is Err);
                    },
                    Ok(f) => {
                        let v = filters_asked(entries)->Ok_0;
                        assert forall|i: int|
                            #![trigger v[i]]
                            0 <= i < entries.len() implies filter_asked(&entries[i]) == Ok::<
                            CanFilter,
                            RefusalView,
                        >(v[i]) by {
                            if i < n {
                                assert(v[i] == v0[i]);
                            }
                        }
                    },
                }
            },
        }
    }
}

/// An identifier is a hexadecimal number of 32 bits, after a prefix or not, of which
/// the low 29 bits count for an extended one and the low 11 for a standard one.
/// Anything else is refused.
pub proof fn law_identifiers_are_hexadecimal(s: Seq<char>, digits: Seq<char>, extended: bool)
    ensures
        digits.len() > 0 && text::all_digits(digits, 16) && text::place_value(digits, 16)
            <= 0xFFFF_FFFF && spells_either(s, digits) ==> hex_id(s, extended) == Ok::<
            CanId,
            RefusalView,
        >(
            if extended {
                CanId::Extended((text::place_value(digits, 16) as int % 0x2000_0000) as u32)
            } else {
                CanId::Standard((text::place_value(digits, 16) as int % 0x800) as u16)
            },
        ),
        hex_id(s, extended) is Ok ==> bare(s).len() > 0 && text::all_digits(bare(s), 16)
            && text::place_value(bare(s), 16) <= 0xFFFF_FFFF,
        hex_id(s, extended) matches Ok(id) ==> id.in_range() && (id is Extended) == extended,
{
    if text::all_digits(digits, 16) && spells_either(s, digits) {
        lemma_spells_bare(s, digits);
    }
    text::law_numbers_are_digits(bare(s), 16, 0xFFFF_FFFF);
}

/// A byte is a hexadecimal number of 8 bits, after a prefix or not. Anything else is
/// refused.
pub proof fn law_padding_is_a_hexadecimal_byte(s: Seq<char>, digits: Seq<char>)
    ensures
        digits.len() > 0 && text::all_digits(digits, 16) && text::place_value(digits, 16) <= 0xFF
            && spells_either(s, digits) ==> hex_byte(s) == Ok::<u8, RefusalView>(
            text::place_value(digits, 16) as u8,
        ),
        hex_byte(s) is Ok ==> bare(s).len() > 0 && text::all_digits(bare(s), 16)
            && text::place_value(bare(s), 16) <= 0xFF,
{
    if text::all_digits(digits, 16) && spells_either(s, digits) {
        lemma_spells_bare(s, digits);
    }
    text::law_numbers_are_digits(bare(s), 16, 0xFF);
}

/// A payload is given by two hexadecimal digits for each byte, the high one first,
/// after a prefix or not.
pub proof fn law_payload_is_hexadecimal(s: Seq<char>, digits: Seq<char>)
    requires
        digits.len() % 2 == 0,
        text::all_digits(digits, 16),
        spells_either(s, digits),
    ensures
        hex_bytes(s) matches Ok(v) && v.len() * 2 == digits.len() && forall|i: int|
            #![trigger v[i]]
            0 <= i < v.len() ==> v[i] == 16 * text::digit_value(digits[2 * i], 16)->Some_0
                + text::digit_value(digits[2 * i + 1], 16)->Some_0,
{
    lemma_spells_bare(s, digits);
    lemma_spelled_is_ascii(s, digits);
    law_hex_bytes_are_digit_pairs(s);
    let v = hex_bytes(s)->Ok_0;
    assert forall|i: int| #![trigger v[i]] 0 <= i < v.len() implies v[i] == 16 * text::digit_value(
        digits[2 * i],
        16,
    )->Some_0 + text::digit_value(digits[2 * i + 1], 16)->Some_0 by {
        assert(Some(v[i] as nat) == pair_value(digits[2 * i], digits[2 * i + 1]));
        assert(text::digit_value(digits[2 * i], 16) is Some);
        assert(text::digit_value(digits[2 * i + 1], 16) is Some);
    }
}

proof fn lemma_spelled_is_ascii(s: Seq<char>, digits: Seq<char>)
    requires
        text::all_digits(digits, 16),
        spells_either(s, digits),
    ensures
        vstd::utf8::is_ascii_chars(s),
{
    assert forall|i: int| 0 <= i < s.len() implies '\0' <= #[trigger] s[i] <= '\u{7f}' by {
        if s == digits {
            assert(text::digit_value(digits[i], 16) is Some);
        } else if i >= 2 {
            assert(s[i] == digits[i - 2]);
            assert(text::digit_value(digits[i - 2], 16) is Some);
        }
    }
}

/// A payload of an odd number of characters is refused, and so is one with a
/// character that is no digit: the offset of the first such pair is told.
pub proof fn law_bad_payloads_are_refused(s: Seq<char>, k: int)
    requires
        vstd::utf8::is_ascii_chars(s),
    ensures
        bare(s).len() % 2 != 0 ==> hex_bytes(s) == Err::<Seq<u8>, RefusalView>(
            RefusalView::Invalid("data hex string must have even length"@),
        ),
        bare(s).len() % 2 == 0 && 0 <= k && 2 * k + 2 <= bare(s).len() && (forall|i: int|
            0 <= i < 2 * k ==> text::digit_value(#[trigger] bare(s)[i], 16) is Some) && (
        text::digit_value(bare(s)[2 * k], 16) is None || text::digit_value(
            bare(s)[2 * k + 1],
            16,
        ) is None) ==> hex_bytes(s) == Err::<Seq<u8>, RefusalView>(
            RefusalView::Invalid(
                "bad hex byte at offset "@ + text::dec_digits((2 * k) as nat) + ": "@
                    + "invalid digit found in string"@,
            ),
        ),
{
    lemma_bare_is_bytewise(s);
    let d = bare(s);
    let b = bare_bytes(s);
    if d.len() % 2 == 0 && 0 <= k && 2 * k + 2 <= d.len() && (forall|i: int|
        0 <= i < 2 * k ==> text::digit_value(#[trigger] d[i], 16) is Some) && (text::digit_value(
        d[2 * k],
        16,
    ) is None || text::digit_value(d[2 * k + 1], 16) is None) {
        assert(b[2 * k] as char == d[2 * k]);
        assert(b[2 * k + 1] as char == d[2 * k + 1]);
        assert forall|i: int| 0 <= i < 2 * k implies text::digit_value(
            #[trigger] b[i] as char,
            16,
        ) is Some by {
            assert(b[i] as char == d[i]);
        }
        lemma_bad_pair(b, 0, 2 * k);
    }
}

proof fn lemma_bad_pair(b: Seq<u8>, at: int, bad: int)
    requires
        0 <= at <= bad,
        at % 2 == 0,
        bad % 2 == 0,
        bad + 2 <= b.len(),
        b.len() % 2 == 0,
        forall|i: int| 0 <= i < b.len() ==> #[trigger] b[i] < 0x80,
        forall|i: int| at <= i < bad ==> text::digit_value(#[trigger] b[i] as char, 16) is Some,
        text::digit_value(b[bad] as char, 16) is None || text::digit_value(
            b[bad + 1] as char,
            16,
        ) is None,
    ensures
        pairs_from(b, at) == Err::<Seq<u8>, RefusalView>(
            RefusalView::Invalid(
                "bad hex byte at offset "@ + text::dec_digits(bad as nat) + ": "@
                    + "invalid digit found in string"@,
            ),
        ),
    decreases bad - at,
{
    assert(b[at] < 0x80);
    assert(is_cut(b, at + 2)) by {
        if at + 2 < b.len() {
            assert(b[at + 2] < 0x80);
        }
    }
    if at < bad {
        assert(text::digit_value(b[at] as char, 16) is Some);
        assert(text::digit_value(b[at + 1] as char, 16) is Some);
        lemma_bad_pair(b, at + 2, bad);
    }
}

/// The frame that is asked for has the identifier and the payload that are given; it
/// is a CAN-FD frame where that is asked for, with the bit rate switch if wanted. A
/// payload that does not fit (8 bytes, 64 for CAN-FD) is refused.
pub proof fn law_frame_is_as_asked(args: &SendFrameInline)
    ensures
        match (hex_id(args.id@, args.extended), hex_bytes(args.data@)) {
            (Err(r), _) => frame_asked(args) == Err::<FrameView, RefusalView>(r),
            (Ok(_), Err(r)) => frame_asked(args) == Err::<FrameView, RefusalView>(r),
            (Ok(id), Ok(payload)) => {
                &&& frame_asked(args) is Ok <==> payload.len() <= if args.fd {
                    64
                } else {
                    8int
                }
                &&& frame_asked(args) matches Ok(f) ==> {
                    &&& f.id == id
                    &&& f.payload == payload
                    &&& f.timestamp_ns is None
                    &&& !args.fd ==> f.kind == FrameKind::Classic
                    &&& args.fd ==> f.kind == FrameKind::Fd(
                        FdFlags { brs: args.brs, esi: false },
                    )
                }
            },
        },
{
}

/// An interface may be touched where its name is on the allowlist, and written to
/// where the server is not in read-only mode; and only there.
pub proof fn law_allowlist_and_mode_decide(config: &Config, iface: Seq<char>)
    ensures
        config.iface_refusal(iface) is None <==> exists|i: int|
            0 <= i < config.allowlist@.len() && (#[trigger] config.allowlist@[i])@ == iface,
        config.allows(iface) <==> config.iface_refusal(iface) is None,
        config.write_refusal() is None <==> !config.readonly,
        config.send_refusal(iface) is None <==> config.iface_refusal(iface) is None
            && !config.readonly,
        config.iface_refusal(iface) matches Some(r) ==> config.send_refusal(iface) == Some(r) && r
            == RefusalView::Invalid(
            "interface '"@ + iface + "' is not in the allowlist (set SOCKETCAN_MCP_INTERFACES)"@,
        ),
        config.readonly ==> config.write_refusal() == Some(
            RefusalView::Invalid("server is in read-only mode (SOCKETCAN_MCP_READONLY=1)"@),
        ),
{
    let names = strings_of(config.allowlist@);
    if names.contains(iface) {
        let i = choose|i: int| 0 <= i < names.len() && names[i] == iface;
        assert(config.allowlist@[i]@ == iface);
    }
    if exists|i: int|
        0 <= i < config.allowlist@.len() && (#[trigger] config.allowlist@[i])@ == iface {
        let i = choose|i: int|
            0 <= i < config.allowlist@.len() && (#[trigger] config.allowlist@[i])@ == iface;
        assert(names[i] == iface);
    }
}

/// What is allowed is done: a tool refuses for no other reason than the interface,
/// the mode, or its own arguments.
pub proof fn law_what_is_allowed_is_done(
    config: &Config,
    send: &SendFrameArgs,
    capture: &CaptureArgs,
    both: &SendAndCaptureArgs,
)
    ensures
        config.allows(send.iface@) && !config.readonly ==> send_planned(config, send)
            == frame_asked(&send.frame),
        config.allows(capture.iface@) ==> capture_planned(config, capture) == optional_filters(
            capture.filter,
        ),
        both.rx_iface matches Some(i) ==> listening_iface(both) == i@,
        both.rx_iface is None ==> listening_iface(both) == both.iface@,
        config.allows(both.iface@) && !config.readonly && config.allows(listening_iface(both))
            ==> match (frame_asked(&both.frame), optional_filters(both.filter)) {
            (Err(r), _) => send_and_capture_planned(config, both) == Err::<
                (FrameView, Option<Seq<CanFilter>>),
                RefusalView,
            >(r),
            (Ok(_), Err(r)) => send_and_capture_planned(config, both) == Err::<
                (FrameView, Option<Seq<CanFilter>>),
                RefusalView,
            >(r),
            (Ok(f), Ok(v)) => send_and_capture_planned(config, both) == Ok::<
                (FrameView, Option<Seq<CanFilter>>),
                RefusalView,
            >((f, v)),
        },
        !config.allows(send.iface@) ==> send_planned(config, send) is Err,
        !config.allows(capture.iface@) ==> capture_planned(config, capture) is Err,
        !config.allows(both.iface@) || !config.allows(listening_iface(both))
            ==> send_and_capture_planned(config, both) is Err,
{
}

/// A request goes to the identifiers, and with the payload and the padding, that are
/// given; the first of these that cannot be read is what it is refused for.
pub proof fn law_isotp_request_is_as_asked(config: &Config, args: &IsoTpRequestArgs)
    ensures
        !config.allows(args.iface@) || config.readonly ==> isotp_planned(config, args) is Err,
        config.allows(args.iface@) && !config.readonly ==> ({
            let tx = hex_id(args.tx_id@, args.extended);
            let rx = hex_id(args.rx_id@, args.extended);
            let payload = hex_bytes(args.payload@);
            let padding = hex_byte(args.padding@);
            let p = isotp_planned(config, args);
            &&& tx matches Err(r) ==> p == Err::<IsoTpRequestView, RefusalView>(r)
            &&& tx is Ok ==> (rx matches Err(r) ==> p == Err::<IsoTpRequestView, RefusalView>(r))
            &&& tx is Ok && rx is Ok ==> (payload matches Err(r) ==> p == Err::<
                IsoTpRequestView,
                RefusalView,
            >(r))
            &&& tx is Ok && rx is Ok && payload is Ok ==> (padding matches Err(r) ==> p == Err::<
                IsoTpRequestView,
                RefusalView,
            >(r))
            &&& tx is Ok && rx is Ok && payload is Ok && padding is Ok ==> (p matches Ok(q)
                && q.tx_id == tx->Ok_0 && q.rx_id == rx->Ok_0 && q.payload == payload->Ok_0
                && q.padding == padding->Ok_0)
        }),
{
}

/// Without a filter the kernel's own stays; with one, its entries replace it.
pub proof fn law_filters_are_those_of_the_entries(f: Option<FilterSpec>)
    ensures
        f is None ==> optional_filters(f) == Ok::<Option<Seq<CanFilter>>, RefusalView>(None),
        f matches Some(spec) ==> match filters_asked(spec.entries@) {
            Ok(v) => optional_filters(f) == Ok::<Option<Seq<CanFilter>>, RefusalView>(Some(v)),
            Err(r) => optional_filters(f) == Err::<Option<Seq<CanFilter>>, RefusalView>(r),
        },
{
}

/// The sockets of the server are opened with the best timestamps and for CAN-FD, with
/// buffers of 8 MiB and 1 MiB, with the timeout that is given, and with the filters
/// that are given or none.
pub proof fn law_sockets_of_the_server(
    opts: &OpenOpts,
    timeout_ms: nat,
    filters: Option<Seq<CanFilter>>,
)
    requires
        opens_with(opts, timeout_ms, filters),
    ensures
        opts.fd,
        opts.recv_buf_bytes == Some((8 * 1024 * 1024) as usize),
        opts.send_buf_bytes == Some((1024 * 1024) as usize),
        opts.timestamping == Timestamping::BestAvailable,
        opts.recv_timeout matches Some(t) && t.nanos() == timeout_ms * 1_000_000,
        opts.error_filter is None,
        !opts.nonblocking,
        filters is None ==> opts.filter is None && !opts.clear_filter,
        filters matches Some(v) ==> (opts.filter matches Some(f) && f@ == v) || (opts.filter is None
            && opts.clear_filter && v.len() == 0),
{
}

proof fn lemma_named_contains(parts: Seq<Seq<char>>, n: Seq<char>)
    ensures
        named(parts).contains(n) <==> n.len() > 0 && exists|i: int|
            0 <= i < parts.len() && text::trimmed(#[trigger] parts[i]) == n,
    decreases parts.len(),
{
    if parts.len() > 0 {
        let p0 = parts.drop_last();
        let k = parts.len() - 1;
        let name = text::trimmed(parts.last());
        let before = named(p0);
        let all = named(parts);
        lemma_named_contains(p0, n);
        if before.contains(n) {
            let i = choose|i: int|
                0 <= i < p0.len() && text::trimmed(#[trigger] p0[i]) == n;
            assert(parts[i] == p0[i]);
            let j = choose|j: int| 0 <= j < before.len() && before[j] == n;
            assert(all[j] == n);
        }
        if all.contains(n) && !before.contains(n) {
            let j = choose|j: int| 0 <= j < all.len() && all[j] == n;
            assert(j == before.len());
            assert(text::trimmed(parts[k]) == n);
        }
        if n.len() > 0 && exists|i: int|
            0 <= i < parts.len() && text::trimmed(#[trigger] parts[i]) == n {
            let i = choose|i: int|
                0 <= i < parts.len() && text::trimmed(#[trigger] parts[i]) == n;
            if i < k {
                assert(p0[i] == parts[i]);
            } else {
                assert(all[all.len() - 1] == n);
            }
        }
    }
}

/// The allowlist is what stands between commas, without the white space around it:
/// a name is on it if and only if it is one of these, and not empty.
pub proof fn law_allowlist_is_separated_by_commas(parts: Seq<Seq<char>>, name: Seq<char>)
    requires
        parts.len() > 0,
        forall|i: int| 0 <= i < parts.len() ==> !(#[trigger] parts[i]).contains(','),
    ensures
        named(text::comma_parts(text::with_commas(parts))).contains(name) <==> name.len() > 0
            && exists|i: int| 0 <= i < parts.len() && text::trimmed(#[trigger] parts[i]) == name,
{
    text::law_commas_part_texts(parts);
    lemma_named_contains(parts, name);
}

/// Whether a character is this small letter or its capital.
pub open spec fn is_letter(c: char, small: int) -> bool {
    c as int == small || c as int == small - 32
}

/// A setting is switched on by 1, true, yes or on, in letters of either case, and by
/// nothing else.
pub proof fn law_switches(s: Seq<char>)
    ensures
        switched_on(s) <==> {
            ||| s.len() == 1 && s[0] == '1'
            ||| s.len() == 4 && is_letter(s[0], 116) && is_letter(s[1], 114) && is_letter(
                s[2],
                117,
            ) && is_letter(s[3], 101)
            ||| s.len() == 3 && is_letter(s[0], 121) && is_letter(s[1], 101) && is_letter(s[2], 115)
            ||| s.len() == 2 && is_letter(s[0], 111) && is_letter(s[1], 110)
        },
{
    reveal_strlit("1");
    reveal_strlit("true");
    reveal_strlit("yes");
    reveal_strlit("on");
    let t = text::lower_case(s);
    text::law_lower_case_letter_by_letter(s);
    assert forall|i: int| 0 <= i < s.len() implies #[trigger] t[i] as int == if 65 <= s[i] as int
        <= 90 {
        s[i] as int + 32
    } else {
        s[i] as int
    } by {}
    if s.len() == 1 && s[0] == '1' {
        assert(t =~= "1"@);
    }
    if s.len() == 4 && is_letter(s[0], 116) && is_letter(s[1], 114) && is_letter(s[2], 117)
        && is_letter(s[3], 101) {
        assert(t =~= "true"@);
    }
    if s.len() == 3 && is_letter(s[0], 121) && is_letter(s[1], 101) && is_letter(s[2], 115) {
        assert(t =~= "yes"@);
    }
    if s.len() == 2 && is_letter(s[0], 111) && is_letter(s[1], 110) {
        assert(t =~= "on"@);
    }
    if switched_on(s) {
        if t == "1"@ {
            assert(t[0] == '1');
        } else if t == "true"@ {
            assert(t[0] == 't' && t[1] == 'r' && t[2] == 'u' && t[3] == 'e');
        } else if t == "yes"@ {
            assert(t[0] == 'y' && t[1] == 'e' && t[2] == 's');
        } else {
            assert(t[0] == 'o' && t[1] == 'n');
        }
    }
}

/// Words tell everything of a frame: where they describe two valid frames, these are
/// the same. They give the length of the payload as a number.
pub proof fn law_words_tell_frames_apart(words: &FrameJson, f: FrameView, g: FrameView)
    requires
        f.valid(),
        g.valid(),
        words.describes(f),
        words.describes(g),
    ensures
        f == g,
        words.dlc == f.payload.len(),
        words.extended == (f.id is Extended),
        words.fd == (f.kind is Fd),
        words.timestamp_ns == f.timestamp_ns,
        f.kind matches FrameKind::Fd(flags) ==> words.brs == flags.brs && words.esi == flags.esi,
        f.kind == FrameKind::Classic ==> !words.brs && !words.esi,
{
    law_hex_id_round_trip(f.id);
    law_hex_id_round_trip(g.id);
    law_hex_bytes_round_trip(f.payload);
    law_hex_bytes_round_trip(g.payload);
}

/// The identifier of a frame in words is its number in capital hexadecimal digits,
/// three for a standard one and eight for an extended one.
pub proof fn law_identifier_in_words(id: CanId)
    requires
        id.in_range(),
    ensures
        id.text().len() == if id is Extended {
            8
        } else {
            3nat
        },
        text::number_of(id.text(), 16, 0xFFFF_FFFF) == Ok::<nat, NumberError>(id.number() as nat),
        forall|i: int| 0 <= i < id.text().len() ==> '0' <= #[trigger] id.text()[i] <= 'F',
{
    vstd::arithmetic::power::lemma_pow1(16);
    assert(vstd::arithmetic::power::pow(16, 3) == 0x1000) by {
        reveal_with_fuel(vstd::arithmetic::power::pow, 4);
    }
    assert(vstd::arithmetic::power::pow(16, 8) == 0x1_0000_0000) by {
        reveal_with_fuel(vstd::arithmetic::power::pow, 9);
    }
    match id {
        CanId::Standard(n) => {
            text::law_hex_text_fills_its_width(n as nat, 3);
            text::law_hex_round_trip(n as nat, 3, 0xFFFF_FFFF);
        },
        CanId::Extended(n) => {
            text::law_hex_text_fills_its_width(n as nat, 8);
            text::law_hex_round_trip(n as nat, 8, 0xFFFF_FFFF);
        },
    }
}

} // verus!
