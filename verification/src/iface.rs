//! CAN interfaces: listing them, taking them up and down, asking for the state
//! of their controllers.
//!
//! Everything that talks to the kernel is a [`LinkTask`]: it says what is to be
//! done next, and is told what came of it. Changing a link takes
//! `CAP_NET_ADMIN`; without it the kernel's `EPERM` comes back as it is.
use vstd::prelude::*;

use crate::bytes;
use crate::bytes::{native_order, ByteOrder};
use crate::consts::{
    CAN_STATE_BUS_OFF, CAN_STATE_ERROR_ACTIVE, CAN_STATE_ERROR_PASSIVE, CAN_STATE_ERROR_WARNING,
    CAN_STATE_SLEEPING, CAN_STATE_STOPPED,
};
use crate::netlink;
use crate::netlink::{
    encode_get_link, encode_set_link, get_can_state_raw, parse_ack, LinkError,
};
use crate::text;
use crate::text::{
    chars_of, find, is_text_le, leading_digits, parse_number, same_chars, strip_plus,
    strip_prefix, trim, NumberError,
};

verus! {

// ---------------------------------------------------------------------------
// Controller state

/// CAN controller state, as in `enum can_state` of `linux/can/netlink.h`.
#[derive(Clone, Copy, Debug, PartialEq, Eq, Structural)]
pub enum CanState {
    /// Error-active (normal operation).
    ErrorActive,
    /// Error-warning (an error counter has reached 96).
    ErrorWarning,
    /// Error-passive (an error counter has reached 128).
    ErrorPassive,
    /// Bus-off (the transmit error counter has reached 256). The controller is
    /// disconnected from the bus until it is restarted.
    BusOff,
    /// Stopped (administratively).
    Stopped,
    /// Sleeping.
    Sleeping,
}

impl CanState {
    /// The number by which the kernel knows the state.
    pub open spec fn number(self) -> u32 {
        match self {
            CanState::ErrorActive => 0,
            CanState::ErrorWarning => 1,
            CanState::ErrorPassive => 2,
            CanState::BusOff => 3,
            CanState::Stopped => 4,
            CanState::Sleeping => 5,
        }
    }

    /// The state with the given number; `None` where no state has it.
    pub open spec fn numbered(v: u32) -> Option<CanState> {
        if exists|s: CanState| s.number() == v {
            Some(choose|s: CanState| s.number() == v)
        } else {
            None
        }
    }

    /// The name of the state.
    pub fn name(self) -> (s: &'static str)
        ensures
            s@ == match self {
                CanState::ErrorActive => "ErrorActive"@,
                CanState::ErrorWarning => "ErrorWarning"@,
                CanState::ErrorPassive => "ErrorPassive"@,
                CanState::BusOff => "BusOff"@,
                CanState::Stopped => "Stopped"@,
                CanState::Sleeping => "Sleeping"@,
            },
    {
        match self {
            CanState::ErrorActive => "ErrorActive",
            CanState::ErrorWarning => "ErrorWarning",
            CanState::ErrorPassive => "ErrorPassive",
            CanState::BusOff => "BusOff",
            CanState::Stopped => "Stopped",
            CanState::Sleeping => "Sleeping",
        }
    }

    /// The state with the given number; `None` where no state has it.
    pub fn from_raw(v: u32) -> (r: Option<Self>)
        ensures
            r == CanState::numbered(v),
            r matches Some(s) ==> s.number() == v,
            r is None ==> v > 5,
    {
        let r = match v {
            CAN_STATE_ERROR_ACTIVE => Some(CanState::ErrorActive),
            CAN_STATE_ERROR_WARNING => Some(CanState::ErrorWarning),
            CAN_STATE_ERROR_PASSIVE => Some(CanState::ErrorPassive),
            CAN_STATE_BUS_OFF => Some(CanState::BusOff),
            CAN_STATE_STOPPED => Some(CanState::Stopped),
            CAN_STATE_SLEEPING => Some(CanState::Sleeping),
            _ => None,
        };
        proof {
            if let Some(s) = r {
                assert(s.number() == v);
            }
        }
        r
    }
}

// ---------------------------------------------------------------------------
// Tasks

/// What is wanted of a link.
#[derive(Clone, Copy, Debug, PartialEq, Eq, Structural)]
pub enum LinkGoal {
    /// Its index.
    Index,
    /// That it be taken up or down.
    Change { up: bool },
    /// That it be taken down and, after a pause, up again.
    Cycle,
    /// The state of its controller.
    State,
}

/// How a task ended.
#[derive(Clone, Copy, Debug, PartialEq, Eq, Structural)]
pub enum LinkOutcome {
    /// The link has this index.
    Index(u32),
    /// The change is made.
    Done,
    /// The controller state; `None` where the link is no CAN device or its
    /// driver does not tell.
    State(Option<CanState>),
    /// Something failed.
    Failed(LinkError),
}

/// How far a task has come.
#[derive(Clone, Copy, Debug, PartialEq, Eq, Structural)]
pub enum LinkStep {
    /// The index is to be looked up.
    Resolve,
    /// The link is to be taken up or down.
    Change { ifindex: u32, up: bool },
    /// The link is down and is left alone for a while.
    Settle { ifindex: u32 },
    /// The description of the link is to be asked for.
    Query { ifindex: u32 },
    /// There is nothing left to do.
    Finished(LinkOutcome),
}

/// What is to be done next.
#[derive(Debug)]
pub enum LinkAction {
    /// Look up the index of the interface with the name of the task.
    Resolve,
    /// Send these bytes over route netlink and receive the reply.
    Exchange(Vec<u8>),
    /// Wait for so many milliseconds.
    Sleep(u64),
    /// Nothing: this is the outcome.
    Finish(LinkOutcome),
}

/// What is to be done next, with the bytes as a sequence.
pub enum LinkActionView {
    Resolve,
    Exchange(Seq<u8>),
    Sleep(nat),
    Finish(LinkOutcome),
}

impl View for LinkAction {
    type V = LinkActionView;

    open spec fn view(&self) -> LinkActionView {
        match *self {
            LinkAction::Resolve => LinkActionView::Resolve,
            LinkAction::Exchange(m) => LinkActionView::Exchange(m@),
            LinkAction::Sleep(ms) => LinkActionView::Sleep(ms as nat),
            LinkAction::Finish(o) => LinkActionView::Finish(o),
        }
    }
}

/// For how many milliseconds a link is left down before it is taken up again.
pub const SETTLE_MS: u64 = 150;

impl LinkStep {
    /// The first step: a name with a NUL in it cannot be looked up.
    pub open spec fn first(name: Seq<char>) -> LinkStep {
        if name.contains('\0') {
            LinkStep::Finished(LinkOutcome::Failed(LinkError::NulInName))
        } else {
            LinkStep::Resolve
        }
    }

    /// What is to be done in this step.
    pub open spec fn action(self, order: ByteOrder) -> LinkActionView {
        match self {
            LinkStep::Resolve => LinkActionView::Resolve,
            LinkStep::Change { ifindex, up } => LinkActionView::Exchange(
                netlink::set_link_request(order, ifindex, up),
            ),
            LinkStep::Settle { .. } => LinkActionView::Sleep(SETTLE_MS as nat),
            LinkStep::Query { ifindex } => LinkActionView::Exchange(
                netlink::get_link_request(order, ifindex),
            ),
            LinkStep::Finished(o) => LinkActionView::Finish(o),
        }
    }

    /// The step that follows once the index is known.
    pub open spec fn after_index(self, goal: LinkGoal, ifindex: u32) -> LinkStep {
        if self is Resolve {
            match goal {
                LinkGoal::Index => LinkStep::Finished(LinkOutcome::Index(ifindex)),
                LinkGoal::Change { up } => LinkStep::Change { ifindex, up },
                LinkGoal::Cycle => LinkStep::Change { ifindex, up: false },
                LinkGoal::State => LinkStep::Query { ifindex },
            }
        } else {
            self
        }
    }

    /// The step that follows a reply.
    pub open spec fn after_reply(self, goal: LinkGoal, order: ByteOrder, reply: Seq<u8>) -> LinkStep {
        match self {
            LinkStep::Change { ifindex, up } => match netlink::acknowledgement(order, reply) {
                Err(e) => LinkStep::Finished(LinkOutcome::Failed(e)),
                Ok(()) => if goal is Cycle && !up {
                    LinkStep::Settle { ifindex }
                } else {
                    LinkStep::Finished(LinkOutcome::Done)
                },
            },
            LinkStep::Query { .. } => match netlink::can_state_in(order, reply) {
                Err(e) => LinkStep::Finished(LinkOutcome::Failed(e)),
                Ok(None) => LinkStep::Finished(LinkOutcome::State(None)),
                Ok(Some(v)) => LinkStep::Finished(LinkOutcome::State(CanState::numbered(v))),
            },
            _ => self,
        }
    }

    /// The step that follows the pause.
    pub open spec fn after_pause(self) -> LinkStep {
        match self {
            LinkStep::Settle { ifindex } => LinkStep::Change { ifindex, up: true },
            _ => self,
        }
    }

    /// The step that follows a refusal of the system.
    pub open spec fn after_failure(self, errno: i32) -> LinkStep {
        match self {
            LinkStep::Finished(_) => self,
            _ => LinkStep::Finished(LinkOutcome::Failed(LinkError::Os { errno })),
        }
    }
}

/// Something that is being done to a link.
#[derive(Debug)]
pub struct LinkTask {
    /// The name of the interface.
    pub name: String,
    /// What is wanted.
    pub goal: LinkGoal,
    /// The byte order of the messages.
    pub order: ByteOrder,
    /// How far it has come.
    pub step: LinkStep,
}

fn has_nul(s: &str) -> (r: bool)
    ensures
        r == s@.contains('\0'),
{
    let cs = chars_of(s);
    for i in 0..cs.len()
        invariant
            cs@ == s@,
            forall|j: int| 0 <= j < i ==> cs@[j] != '\0',
    {
        if cs[i] == '\0' {
            assert(s@[i as int] == '\0');
            return true;
        }
    }
    false
}

impl LinkTask {
    /// A task that has not begun.
    pub fn new(name: &str, goal: LinkGoal, order: ByteOrder) -> (t: Self)
        ensures
            t.name@ == name@,
            t.goal == goal,
            t.order == order,
            t.step == LinkStep::first(name@),
    {
        let step = if has_nul(name) {
            LinkStep::Finished(LinkOutcome::Failed(LinkError::NulInName))
        } else {
            LinkStep::Resolve
        };
        LinkTask { name: String::from_str(name), goal, order, step }
    }

    /// Whether `next` is the same undertaking at the given step.
    pub open spec fn goes_on_as(self, next: LinkTask, step: LinkStep) -> bool {
        &&& next.name == self.name
        &&& next.goal == self.goal
        &&& next.order == self.order
        &&& next.step == step
    }

    /// What is to be done next.
    pub fn action(&self) -> (a: LinkAction)
        ensures
            a@ == self.step.action(self.order),
    {
        match self.step {
            LinkStep::Resolve => LinkAction::Resolve,
            LinkStep::Change { ifindex, up } => LinkAction::Exchange(
                encode_set_link(self.order, ifindex, up),
            ),
            LinkStep::Settle { .. } => LinkAction::Sleep(SETTLE_MS),
            LinkStep::Query { ifindex } => LinkAction::Exchange(
                encode_get_link(self.order, ifindex),
            ),
            LinkStep::Finished(o) => LinkAction::Finish(o),
        }
    }

    /// The index of the interface was found.
    pub fn resolved(self, ifindex: u32) -> (t: Self)
        ensures
            self.goes_on_as(t, self.step.after_index(self.goal, ifindex)),
    {
        let step = match self.step {
            LinkStep::Resolve => match self.goal {
                LinkGoal::Index => LinkStep::Finished(LinkOutcome::Index(ifindex)),
                LinkGoal::Change { up } => LinkStep::Change { ifindex, up },
                LinkGoal::Cycle => LinkStep::Change { ifindex, up: false },
                LinkGoal::State => LinkStep::Query { ifindex },
            },
            s => s,
        };
        LinkTask { name: self.name, goal: self.goal, order: self.order, step }
    }

    /// A reply was received.
    pub fn replied(self, reply: &[u8]) -> (t: Self)
        ensures
            self.goes_on_as(t, self.step.after_reply(self.goal, self.order, reply@)),
    {
        let step = match self.step {
            LinkStep::Change { ifindex, up } => match parse_ack(self.order, reply) {
                Err(e) => LinkStep::Finished(LinkOutcome::Failed(e)),
                Ok(()) => {
                    if matches!(self.goal, LinkGoal::Cycle) && !up {
                        LinkStep::Settle { ifindex }
                    } else {
                        LinkStep::Finished(LinkOutcome::Done)
                    }
                },
            },
            LinkStep::Query { .. } => match get_can_state_raw(self.order, reply) {
                Err(e) => LinkStep::Finished(LinkOutcome::Failed(e)),
                Ok(None) => LinkStep::Finished(LinkOutcome::State(None)),
                Ok(Some(v)) => LinkStep::Finished(LinkOutcome::State(CanState::from_raw(v))),
            },
            s => s,
        };
        LinkTask { name: self.name, goal: self.goal, order: self.order, step }
    }

    /// The pause is over.
    pub fn paused(self) -> (t: Self)
        ensures
            self.goes_on_as(t, self.step.after_pause()),
    {
        let step = match self.step {
            LinkStep::Settle { ifindex } => LinkStep::Change { ifindex, up: true },
            s => s,
        };
        LinkTask { name: self.name, goal: self.goal, order: self.order, step }
    }

    /// The system refused what was to be done.
    pub fn failed(self, errno: i32) -> (t: Self)
        ensures
            self.goes_on_as(t, self.step.after_failure(errno)),
    {
        let step = match self.step {
            LinkStep::Finished(o) => LinkStep::Finished(o),
            _ => LinkStep::Finished(LinkOutcome::Failed(LinkError::Os { errno })),
        };
        LinkTask { name: self.name, goal: self.goal, order: self.order, step }
    }
}

// ---------------------------------------------------------------------------
// Interfaces

/// A handle to a Linux network interface, named by string.
#[derive(Clone, Debug)]
pub struct Interface {
    /// Interface name as known to the kernel (`can0`, `vcan0`).
    pub name: String,
}

/// The key in front of a bitrate in what `ip -details -json` prints.
pub open spec fn bitrate_key() -> Seq<char> {
    seq!['"', 'b', 'i', 't', 'r', 'a', 't', 'e', '"', ':']
}

/// The bitrate in what `ip -details -json` prints: the number behind the first
/// key.
pub open spec fn bitrate_in(output: Seq<char>) -> Option<u32> {
    match text::first_place(output, bitrate_key(), 0) {
        None => None,
        Some(at) => {
            let tail = output.skip(at + 10int);
            match text::number_of(tail.take(text::digit_run(tail) as int), 10, 0xFFFF_FFFF) {
                Ok(v) => Some(v as u32),
                Err(_) => None,
            }
        },
    }
}

/// Whether the flags, a number in hexadecimal after a prefix or not, hold the
/// lowest bit.
pub open spec fn up_in(flags: Seq<char>) -> Result<bool, NumberError> {
    let number = text::without_plus(text::without_prefix(text::trimmed(flags), 'x'));
    match text::number_of(number, 16, 0xFFFF_FFFF) {
        Ok(v) => Ok(v % 2 == 1),
        Err(e) => Err(e),
    }
}

impl Interface {
    /// Construct from a name. Does **not** verify the interface exists.
    pub fn new(name: &str) -> (r: Self)
        ensures
            r.name@ == name@,
    {
        Interface { name: String::from_str(name) }
    }

    /// Looks up the kernel's index of the interface.
    pub fn index(&self) -> (t: LinkTask)
        ensures
            t.name@ == self.name@,
            t.goal == LinkGoal::Index,
            t.step == LinkStep::first(self.name@),
    {
        LinkTask::new(self.name.as_str(), LinkGoal::Index, native_order())
    }

    /// Where the kernel keeps the flags of the interface.
    pub fn flags_path(&self) -> (p: String)
        ensures
            p@ == "/sys/class/net/"@ + self.name@ + "/flags"@,
    {
        let mut p = String::from_str("/sys/class/net/");
        p.append(self.name.as_str());
        p.append("/flags");
        p
    }

    /// Whether the interface is up, by the text in its [flags
    /// file](Interface::flags_path). `None` if the file is missing (interface
    /// gone or not a netdev).
    pub fn is_up(&self, flags: Option<&str>) -> (r: Result<Option<bool>, NumberError>)
        ensures
            r == match flags {
                None => Ok::<Option<bool>, NumberError>(None),
                Some(s) => match up_in(s@) {
                    Ok(up) => Ok(Some(up)),
                    Err(e) => Err(e),
                },
            },
    {
        let s = match flags {
            None => return Ok(None),
            Some(s) => s,
        };
        let cs = chars_of(s);
        let digits = strip_plus(strip_prefix(trim(cs.as_slice()), 'x'));
        match parse_number(digits, 16, 0xFFFF_FFFF) {
            Ok(v) => Ok(Some(v % 2 == 1)),
            Err(e) => Err(e),
        }
    }

    /// Brings the interface up.
    pub fn set_up(&self) -> (t: LinkTask)
        ensures
            t.name@ == self.name@,
            t.goal == (LinkGoal::Change { up: true }),
            t.step == LinkStep::first(self.name@),
    {
        LinkTask::new(self.name.as_str(), LinkGoal::Change { up: true }, native_order())
    }

    /// Brings the interface down.
    pub fn set_down(&self) -> (t: LinkTask)
        ensures
            t.name@ == self.name@,
            t.goal == (LinkGoal::Change { up: false }),
            t.step == LinkStep::first(self.name@),
    {
        LinkTask::new(self.name.as_str(), LinkGoal::Change { up: false }, native_order())
    }

    /// Brings the interface down, lets it settle, and brings it back up. This
    /// recovers controllers from bus-off where the kernel cannot restart the
    /// device on its own.
    pub fn cycle(&self) -> (t: LinkTask)
        ensures
            t.name@ == self.name@,
            t.goal == LinkGoal::Cycle,
            t.step == LinkStep::first(self.name@),
    {
        LinkTask::new(self.name.as_str(), LinkGoal::Cycle, native_order())
    }

    /// Asks for the state of the CAN controller.
    pub fn state(&self) -> (t: LinkTask)
        ensures
            t.name@ == self.name@,
            t.goal == LinkGoal::State,
            t.step == LinkStep::first(self.name@),
    {
        LinkTask::new(self.name.as_str(), LinkGoal::State, native_order())
    }

    /// Bitrate as reported by `ip -details -json link show <iface>`, whose
    /// output is handed in. `None` if there is no output or the device exposes
    /// no bitrate (as `vcan`).
    pub fn bitrate(&self, ip_output: Option<&str>) -> (r: Option<u32>)
        ensures
            r == match ip_output {
                None => None,
                Some(s) => bitrate_in(s@),
            },
    {
        let s = match ip_output {
            None => return None,
            Some(s) => s,
        };
        let cs = chars_of(s);
        let key: [char; 10] = ['"', 'b', 'i', 't', 'r', 'a', 't', 'e', '"', ':'];
        assert(key@ =~= bitrate_key());
        let at = match find(cs.as_slice(), key.as_slice()) {
            None => return None,
            Some(at) => at,
        };
        assert(key@.len() == 10);
        assert(at + 10 <= cs.len());
        let tail = vstd::slice::slice_subrange(cs.as_slice(), at + 10, cs.len());
        assert(tail@ =~= s@.skip(at + 10));
        match parse_number(leading_digits(tail), 10, 0xFFFF_FFFF) {
            Ok(v) => Some(v as u32),
            Err(_) => None,
        }
    }
}

// ---------------------------------------------------------------------------
// Enumeration

/// An entry of `/sys/class/net`: its name and the text of its `type` file.
#[derive(Clone, Debug)]
pub struct NetEntry {
    /// The name of the interface.
    pub name: String,
    /// What its `type` file holds.
    pub kind: String,
}

/// Whether a `type` file says that the device is a CAN device (280,
/// `ARPHRD_CAN`).
pub open spec fn is_can_type(kind: Seq<char>) -> bool {
    text::trimmed(kind) == seq!['2', '8', '0']
}

/// The names of the CAN devices among the entries.
pub open spec fn can_names(entries: Seq<NetEntry>) -> Seq<Seq<char>>
    decreases entries.len(),
{
    if entries.len() == 0 {
        Seq::<Seq<char>>::empty()
    } else {
        let rest = can_names(entries.drop_last());
        if is_can_type(entries.last().kind@) {
            rest.push(entries.last().name@)
        } else {
            rest
        }
    }
}

/// The names of the interfaces.
pub open spec fn names_of(v: Seq<Interface>) -> Seq<Seq<char>> {
    v.map_values(|i: Interface| i.name@)
}

/// Whether the texts stand in order.
pub open spec fn in_order(s: Seq<Seq<char>>) -> bool {
    forall|i: int, j: int| 0 <= i <= j < s.len() ==> #[trigger] text::text_le(s[i], s[j])
}

fn insert_in_order(v: &mut Vec<Interface>, new: Interface)
    requires
        in_order(names_of(old(v)@)),
    ensures
        in_order(names_of(final(v)@)),
        names_of(final(v)@).to_multiset() == names_of(old(v)@).to_multiset().insert(new.name@),
{
    let key = chars_of(new.name.as_str());
    let mut at: usize = v.len();
    let ghost before = names_of(v@);
    while at > 0
        invariant
            at <= v@.len(),
            v@ == old(v)@,
            before == names_of(v@),
            in_order(before),
            key@ == new.name@,
            forall|j: int| at <= j < v@.len() ==> text::text_le(key@, #[trigger] before[j]),
        ensures
            at > 0 ==> text::text_le(before[at - 1], key@),
        decreases at,
    {
        let other = chars_of(v[at - 1].name.as_str());
        if is_text_le(other.as_slice(), key.as_slice()) {
            break;
        }
        proof {
            text::law_text_order_is_total(other@, key@);
            assert(before[at - 1] == other@);
        }
        at = at - 1;
    }
    proof {
        let after = before.insert(at as int, new.name@);
        assert forall|i: int, j: int| 0 <= i <= j < after.len() implies #[trigger] text::text_le(
            after[i],
            after[j],
        ) by {
            text::law_text_order_is_total(key@, key@);
            if j < at {
                assert(text::text_le(before[i], before[j]));
            } else if j == at && i < at {
                assert(text::text_le(before[i], before[at - 1]));
                assert(text::text_le(before[at - 1], key@));
                text::law_text_order_is_transitive(before[i], before[at - 1], key@);
            } else if i < at && j > at {
                assert(text::text_le(before[i], before[j - 1]));
            } else if i == at && j > at {
                assert(text::text_le(key@, before[j - 1]));
            } else if i > at {
                assert(text::text_le(before[i - 1], before[j - 1]));
            }
        }
        vstd::seq_lib::to_multiset_insert(before, at as int, new.name@);
    }
    v.insert(at, new);
    assert(names_of(v@) =~= before.insert(at as int, new.name@));
}

/// Enumerate all CAN-class interfaces, real controllers and `vcan` devices
/// alike, among the entries of `/sys/class/net`, in the order of their names.
pub fn list_can_interfaces(entries: &[NetEntry]) -> (r: Vec<Interface>)
    ensures
        in_order(names_of(r@)),
        names_of(r@).to_multiset() == can_names(entries@).to_multiset(),
{
    let mut out: Vec<Interface> = Vec::new();
    let can_type: [char; 3] = ['2', '8', '0'];
    assert(can_type@ =~= seq!['2', '8', '0']);
    assert(names_of(out@) =~= Seq::<Seq<char>>::empty());
    assert(entries@.take(0) =~= Seq::<NetEntry>::empty());
    for i in 0..entries.len()
        invariant
            can_type@ == seq!['2', '8', '0'],
            in_order(names_of(out@)),
            names_of(out@).to_multiset() == can_names(entries@.take(i as int)).to_multiset(),
    {
        let kind = chars_of(entries[i].kind.as_str());
        proof {
            let now = entries@.take(i + 1);
            assert(now.drop_last() =~= entries@.take(i as int));
            assert(now.last() == entries@[i as int]);
            vstd::seq_lib::to_multiset_build(
                can_names(now.drop_last()),
                entries@[i as int].name@,
            );
        }
        if same_chars(trim(kind.as_slice()), can_type.as_slice()) {
            insert_in_order(&mut out, Interface::new(entries[i].name.as_str()));
        }
    }
    assert(entries@.take(entries@.len() as int) =~= entries@);
    out
}

// ---------------------------------------------------------------------------
// Laws

/// A list in order is the only one in order with its entries: what
/// [`list_can_interfaces`] gives back depends on the devices alone, not on the
/// order in which they were met.
pub proof fn law_order_is_unique(a: Seq<Seq<char>>, b: Seq<Seq<char>>)
    requires
        in_order(a),
        in_order(b),
        a.to_multiset() == b.to_multiset(),
    ensures
        a == b,
    decreases a.len(),
{
    vstd::seq_lib::to_multiset_len(a);
    vstd::seq_lib::to_multiset_len(b);
    if a.len() == 0 {
        assert(a =~= b);
    } else {
        let last = (a.len() - 1) as int;
        vstd::seq_lib::to_multiset_contains(a, a[last]);
        vstd::seq_lib::to_multiset_contains(b, a[last]);
        vstd::seq_lib::to_multiset_contains(a, b[last]);
        vstd::seq_lib::to_multiset_contains(b, b[last]);
        assert(a.contains(a[last]));
        assert(b.contains(b[last]));
        let i = choose|i: int| 0 <= i < b.len() && b[i] == a[last];
        let j = choose|j: int| 0 <= j < a.len() && a[j] == b[last];
        assert(text::text_le(b[i], b[last]));
        assert(text::text_le(a[j], a[last]));
        text::law_text_order_is_total(a[last], b[last]);
        vstd::seq_lib::to_multiset_remove(a, last);
        vstd::seq_lib::to_multiset_remove(b, last);
        assert(a.remove(last) =~= a.drop_last());
        assert(b.remove(last) =~= b.drop_last());
        assert(in_order(a.drop_last())) by {
            assert forall|i: int, j: int|
                0 <= i <= j < a.drop_last().len() implies #[trigger] text::text_le(
                a.drop_last()[i],
                a.drop_last()[j],
            ) by {
                assert(text::text_le(a[i], a[j]));
            }
        }
        assert(in_order(b.drop_last())) by {
            assert forall|i: int, j: int|
                0 <= i <= j < b.drop_last().len() implies #[trigger] text::text_le(
                b.drop_last()[i],
                b.drop_last()[j],
            ) by {
                assert(text::text_le(b[i], b[j]));
            }
        }
        law_order_is_unique(a.drop_last(), b.drop_last());
        assert(a =~= a.drop_last().push(a[last]));
        assert(b =~= b.drop_last().push(b[last]));
    }
}

/// Every state is found by its number.
pub proof fn law_state_number_round_trip(s: CanState)
    ensures
        CanState::numbered(s.number()) == Some(s),
{
    assert(s.number() == s.number());
    let t = choose|t: CanState| t.number() == s.number();
    assert(t.number() == s.number());
}

/// A cycle whose requests are acknowledged takes the link down, pauses for 150
/// milliseconds, takes it up, and is done.
pub proof fn law_cycle_takes_down_and_up(
    order: ByteOrder,
    name: Seq<char>,
    ifindex: u32,
    first_reply: Seq<u8>,
    second_reply: Seq<u8>,
)
    requires
        !name.contains('\0'),
        netlink::acknowledgement(order, first_reply) is Ok,
        netlink::acknowledgement(order, second_reply) is Ok,
    ensures
        ({
            let goal = LinkGoal::Cycle;
            let s0 = LinkStep::first(name);
            let s1 = s0.after_index(goal, ifindex);
            let s2 = s1.after_reply(goal, order, first_reply);
            let s3 = s2.after_pause();
            let s4 = s3.after_reply(goal, order, second_reply);
            &&& s0.action(order) == LinkActionView::Resolve
            &&& s1.action(order) == LinkActionView::Exchange(
                netlink::set_link_request(order, ifindex, false),
            )
            &&& s2.action(order) == LinkActionView::Sleep(150)
            &&& s3.action(order) == LinkActionView::Exchange(
                netlink::set_link_request(order, ifindex, true),
            )
            &&& s4.action(order) == LinkActionView::Finish(LinkOutcome::Done)
        }),
{
}

/// Taking a link up or down sends one request, for just that, and ends as the
/// kernel answers it.
pub proof fn law_change_ends_as_answered(
    order: ByteOrder,
    name: Seq<char>,
    up: bool,
    ifindex: u32,
    reply: Seq<u8>,
)
    requires
        !name.contains('\0'),
    ensures
        ({
            let goal = LinkGoal::Change { up };
            let s1 = LinkStep::first(name).after_index(goal, ifindex);
            let s2 = s1.after_reply(goal, order, reply);
            &&& s1.action(order) == LinkActionView::Exchange(
                netlink::set_link_request(order, ifindex, up),
            )
            &&& s2.action(order) == LinkActionView::Finish(
                match netlink::acknowledgement(order, reply) {
                    Ok(()) => LinkOutcome::Done,
                    Err(e) => LinkOutcome::Failed(e),
                },
            )
        }),
{
}

/// The error number of whatever the system refuses comes out as it is.
pub proof fn law_refusal_is_handed_on(step: LinkStep, errno: i32)
    requires
        !(step is Finished),
    ensures
        step.after_failure(errno) == LinkStep::Finished(
            LinkOutcome::Failed(LinkError::Os { errno }),
        ),
{
}

/// An outcome is final: nothing that happens afterwards changes it.
pub proof fn law_outcome_is_final(
    o: LinkOutcome,
    goal: LinkGoal,
    order: ByteOrder,
    ifindex: u32,
    reply: Seq<u8>,
    errno: i32,
)
    ensures
        ({
            let s = LinkStep::Finished(o);
            &&& s.after_index(goal, ifindex) == s
            &&& s.after_reply(goal, order, reply) == s
            &&& s.after_pause() == s
            &&& s.after_failure(errno) == s
        }),
{
}

/// The numbers of the states are those of the kernel, and no other number is one.
pub proof fn law_states_are_numbered(v: u32)
    ensures
        CanState::numbered(v) == if v == 0 {
            Some(CanState::ErrorActive)
        } else if v == 1 {
            Some(CanState::ErrorWarning)
        } else if v == 2 {
            Some(CanState::ErrorPassive)
        } else if v == 3 {
            Some(CanState::BusOff)
        } else if v == 4 {
            Some(CanState::Stopped)
        } else if v == 5 {
            Some(CanState::Sleeping)
        } else {
            None
        },
{
    law_state_number_round_trip(CanState::ErrorActive);
    law_state_number_round_trip(CanState::ErrorWarning);
    law_state_number_round_trip(CanState::ErrorPassive);
    law_state_number_round_trip(CanState::BusOff);
    law_state_number_round_trip(CanState::Stopped);
    law_state_number_round_trip(CanState::Sleeping);
}

/// Asking for the state of a controller ends with that state: whatever state the
/// description of a CAN link holds, by its number and among whatever other
/// attributes, is the outcome.
pub proof fn law_state_of_the_controller_is_told(
    order: ByteOrder,
    name: Seq<char>,
    ifindex: u32,
    head: Seq<u8>,
    link: Seq<netlink::Attribute>,
    info: Seq<netlink::Attribute>,
    data: Seq<netlink::Attribute>,
    kind: Seq<u8>,
    number: u32,
)
    requires
        !name.contains('\0'),
        head.len() == 32,
        netlink::half_at(order, head, 4) != 2,
        netlink::all_fit(link),
        netlink::all_fit(info),
        netlink::all_fit(data),
        netlink::first_of(link, 18) == Some(netlink::written(order, info)),
        netlink::first_of(info, 1) == Some(kind),
        kind.len() >= 3 && kind[0] == 99 && kind[1] == 97 && kind[2] == 110,
        kind.len() == 3 || kind[3] == 0,
        netlink::first_of(info, 2) == Some(netlink::written(order, data)),
        netlink::first_of(data, 4) == Some(bytes::u32_bytes(order, number)),
    ensures
        ({
            let goal = LinkGoal::State;
            let asked = LinkStep::first(name).after_index(goal, ifindex);
            let told = asked.after_reply(goal, order, head + netlink::written(order, link));
            &&& asked.action(order) matches LinkActionView::Exchange(m) && netlink::is_request(
                order,
                m,
                18,
                ifindex,
                0,
                0,
            )
            &&& told.action(order) == LinkActionView::Finish(
                LinkOutcome::State(
                    if number == 0 {
                        Some(CanState::ErrorActive)
                    } else if number == 1 {
                        Some(CanState::ErrorWarning)
                    } else if number == 2 {
                        Some(CanState::ErrorPassive)
                    } else if number == 3 {
                        Some(CanState::BusOff)
                    } else if number == 4 {
                        Some(CanState::Stopped)
                    } else if number == 5 {
                        Some(CanState::Sleeping)
                    } else {
                        None
                    },
                ),
            )
        }),
{
    netlink::law_query_changes_nothing(order, ifindex);
    netlink::law_can_kind_is_spelled_out(kind);
    assert(head.subrange(4, 6)[0] == head[4] && head.subrange(4, 6)[1] == head[5]);
    netlink::law_state_is_read(order, head, link, info, data, kind, number);
    law_states_are_numbered(number);
}

/// The outcome of asking for the state is what the reply holds: a state by its
/// number, none, or the failure.
pub proof fn law_state_outcome_is_the_reply(order: ByteOrder, ifindex: u32, reply: Seq<u8>)
    ensures
        ({
            let told = (LinkStep::Query { ifindex }).after_reply(LinkGoal::State, order, reply);
            match netlink::can_state_in(order, reply) {
                Ok(None) => told == LinkStep::Finished(LinkOutcome::State(None)),
                Ok(Some(v)) => told matches LinkStep::Finished(LinkOutcome::State(s)) && (v > 5
                    ==> s is None) && (v <= 5 ==> (s matches Some(t) && t.number() == v)),
                Err(e) => told == LinkStep::Finished(LinkOutcome::Failed(e)),
            }
        }),
{
    if let Ok(Some(v)) = netlink::can_state_in(order, reply) {
        law_states_are_numbered(v);
    }
}

/// A task starts with looking up the interface, unless its name holds a NUL, which
/// fails it. Once the index is known, it does what is wanted: tells the index, asks
/// for the change of that link, or for its description.
pub proof fn law_tasks_do_what_is_wanted(
    order: ByteOrder,
    name: Seq<char>,
    ifindex: u32,
    up: bool,
)
    ensures
        name.contains('\0') ==> LinkStep::first(name).action(order) == LinkActionView::Finish(
            LinkOutcome::Failed(LinkError::NulInName),
        ),
        !name.contains('\0') ==> {
            let s = LinkStep::first(name);
            &&& s.action(order) == LinkActionView::Resolve
            &&& s.after_index(LinkGoal::Index, ifindex).action(order) == LinkActionView::Finish(
                LinkOutcome::Index(ifindex),
            )
            &&& s.after_index(LinkGoal::Change { up }, ifindex).action(
                order,
            ) matches LinkActionView::Exchange(m) && netlink::is_request(
                order,
                m,
                16,
                ifindex,
                if up {
                    1
                } else {
                    0
                },
                1,
            )
            &&& s.after_index(LinkGoal::Cycle, ifindex).action(
                order,
            ) matches LinkActionView::Exchange(m) && netlink::is_request(
                order,
                m,
                16,
                ifindex,
                0,
                1,
            )
            &&& s.after_index(LinkGoal::State, ifindex).action(
                order,
            ) matches LinkActionView::Exchange(m) && netlink::is_request(
                order,
                m,
                18,
                ifindex,
                0,
                0,
            )
        },
{
    netlink::law_change_request_changes_one_flag(order, ifindex, up);
    netlink::law_change_request_changes_one_flag(order, ifindex, false);
    netlink::law_query_changes_nothing(order, ifindex);
}

/// Whether a reply says that a change was made: an error message (type 2) whose
/// code is zero.
pub open spec fn is_done(order: ByteOrder, reply: Seq<u8>) -> bool {
    &&& reply.len() >= 20
    &&& netlink::half_at(order, reply, 4) == 2
    &&& netlink::number_at(order, reply, 16) == 0
}

/// A change is done if the kernel says so, and only then. After the first half of a
/// cycle the link is left alone for 150 milliseconds and then taken up.
pub proof fn law_changes_end_as_the_kernel_says(
    order: ByteOrder,
    goal: LinkGoal,
    ifindex: u32,
    up: bool,
    reply: Seq<u8>,
)
    ensures
        ({
            let s = (LinkStep::Change { ifindex, up }).after_reply(goal, order, reply);
            &&& is_done(order, reply) && !(goal is Cycle && !up) ==> s.action(order)
                == LinkActionView::Finish(LinkOutcome::Done)
            &&& is_done(order, reply) && goal is Cycle && !up ==> {
                &&& s.action(order) == LinkActionView::Sleep(150)
                &&& s.after_pause() == (LinkStep::Change { ifindex, up: true })
                &&& s.after_pause().action(order) matches LinkActionView::Exchange(m)
                    && netlink::is_request(order, m, 16, ifindex, 1, 1)
            }
            &&& !is_done(order, reply) ==> (s matches LinkStep::Finished(LinkOutcome::Failed(e))
                && (reply.len() >= 20 && netlink::half_at(order, reply, 4) == 2
                && netlink::signed_at(order, reply, 16) > i32::MIN ==> e == (LinkError::Os {
                errno: (-netlink::signed_at(order, reply, 16)) as i32,
            })))
        }),
{
    netlink::law_answer_is_a_code(order, reply);
    netlink::law_change_request_changes_one_flag(order, ifindex, true);
}

/// Only what was due to happen moves a task on.
pub proof fn law_links_only_take_what_is_due(
    step: LinkStep,
    goal: LinkGoal,
    order: ByteOrder,
    ifindex: u32,
    reply: Seq<u8>,
)
    ensures
        !(step.action(order) is Resolve) ==> step.after_index(goal, ifindex) == step,
        !(step.action(order) is Exchange) ==> step.after_reply(goal, order, reply) == step,
        !(step.action(order) is Sleep) ==> step.after_pause() == step,
{
}

/// The bitrate is the number behind the first key, up to the first character that is
/// no digit. There is none without a key, without a digit behind it, or where the
/// number does not fit 32 bits.
pub proof fn law_bitrate_is_behind_the_key(output: Seq<char>, at: int, n: int)
    requires
        0 <= at,
        at + 10 <= output.len(),
        output.subrange(at, at + 10) == seq!['"', 'b', 'i', 't', 'r', 'a', 't', 'e', '"', ':'],
        forall|j: int|
            0 <= j < at ==> #[trigger] output.subrange(j, j + 10) != seq![
                '"',
                'b',
                'i',
                't',
                'r',
                'a',
                't',
                'e',
                '"',
                ':',
            ],
        0 <= n,
        at + 10 + n <= output.len(),
        forall|j: int| at + 10 <= j < at + 10 + n ==> '0' <= #[trigger] output[j] <= '9',
        at + 10 + n < output.len() ==> !('0' <= output[at + 10 + n] <= '9'),
    ensures
        ({
            let v = text::place_value(output.subrange(at + 10, at + 10 + n), 10);
            bitrate_in(output) == if n > 0 && v <= 0xFFFF_FFFF {
                Some(v as u32)
            } else {
                None
            }
        }),
{
    let key = bitrate_key();
    assert(key.len() == 10);
    text::law_first_place_is_the_first(output, key, 0);
    assert(text::stands_at(output, key, at));
    let found = text::first_place(output, key, 0);
    assert(found == Some(at as nat)) by {
        if let Some(k) = found {
            if k < at {
                assert(text::stands_at(output, key, k as int));
                assert(output.subrange(k as int, k as int + 10) == key);
            }
        }
    }
    let tail = output.skip(at + 10);
    text::law_digit_run_is_the_longest(tail);
    let m = text::digit_run(tail) as int;
    assert(m == n) by {
        if m < n {
            assert(tail[m] == output[at + 10 + m]);
        }
        if m > n {
            assert(tail[n] == output[at + 10 + n]);
        }
    }
    let digits = tail.take(n);
    assert(digits =~= output.subrange(at + 10, at + 10 + n));
    assert(text::all_digits(digits, 10)) by {
        assert forall|i: int| 0 <= i < digits.len() implies text::digit_value(
            #[trigger] digits[i],
            10,
        ) is Some by {
            assert(digits[i] == output[at + 10 + i]);
        }
    }
    text::law_numbers_are_digits(digits, 10, 0xFFFF_FFFF);
}

/// Without the key there is no bitrate.
pub proof fn law_no_key_no_bitrate(output: Seq<char>)
    requires
        forall|j: int|
            0 <= j && j + 10 <= output.len() ==> #[trigger] output.subrange(j, j + 10) != seq![
                '"',
                'b',
                'i',
                't',
                'r',
                'a',
                't',
                'e',
                '"',
                ':',
            ],
    ensures
        bitrate_in(output) is None,
{
    let key = bitrate_key();
    text::law_first_place_is_the_first(output, key, 0);
    if let Some(k) = text::first_place(output, key, 0) {
        assert(text::stands_at(output, key, k as int));
        assert(output.subrange(k as int, k as int + 10) == key);
    }
}

/// An interface is up where the number in its flags is odd: hexadecimal digits,
/// with a prefix or without, white space around them.
pub proof fn law_up_is_the_lowest_flag(
    before: Seq<char>,
    digits: Seq<char>,
    after: Seq<char>,
    prefixed: bool,
)
    requires
        forall|i: int| 0 <= i < before.len() ==> text::is_white(#[trigger] before[i]),
        forall|i: int| 0 <= i < after.len() ==> text::is_white(#[trigger] after[i]),
        digits.len() > 0,
        text::all_digits(digits, 16),
    ensures
        ({
            let number = if prefixed {
                seq!['0', 'x'] + digits
            } else {
                digits
            };
            let v = text::place_value(digits, 16);
            &&& v <= 0xFFFF_FFFF ==> up_in(before + number + after) == Ok::<bool, NumberError>(
                v % 2 == 1,
            )
            &&& v > 0xFFFF_FFFF ==> up_in(before + number + after) is Err
        }),
{
    let number = if prefixed {
        seq!['0', 'x'] + digits
    } else {
        digits
    };
    assert(text::digit_value(digits[0], 16) is Some);
    assert(text::digit_value(digits[digits.len() - 1], 16) is Some);
    assert(number.last() == digits[digits.len() - 1]);
    text::law_trimming_takes_white_space(before, number, after);
    text::law_prefixes_are_taken_away(digits, digits, 'x');
    text::law_numbers_are_digits(digits, 16, 0xFFFF_FFFF);
}

/// What is not a number says neither.
pub proof fn law_other_flags_are_refused(flags: Seq<char>)
    requires
        text::trimmed(flags) == flags,
        text::without_prefix(flags, 'x') == flags,
        flags.len() == 0 || flags[0] != '+',
        !text::all_digits(flags, 16) || flags.len() == 0,
    ensures
        up_in(flags) is Err,
{
    text::law_numbers_are_digits(flags, 16, 0xFFFF_FFFF);
}

/// A device is a CAN device where its type file says 280, white space around it or
/// not.
pub proof fn law_can_devices_have_type_280(
    before: Seq<char>,
    middle: Seq<char>,
    after: Seq<char>,
)
    requires
        forall|i: int| 0 <= i < before.len() ==> text::is_white(#[trigger] before[i]),
        forall|i: int| 0 <= i < after.len() ==> text::is_white(#[trigger] after[i]),
        middle.len() > 0 ==> !text::is_white(middle[0]) && !text::is_white(middle.last()),
    ensures
        is_can_type(before + middle + after) == (middle == seq!['2', '8', '0']),
{
    text::law_trimming_takes_white_space(before, middle, after);
}

/// The list of devices grows by those that are CAN devices.
pub proof fn law_list_grows_by_can_devices(entries: Seq<NetEntry>, more: NetEntry)
    ensures
        can_names(Seq::<NetEntry>::empty()).len() == 0,
        can_names(entries.push(more)) == if is_can_type(more.kind@) {
            can_names(entries).push(more.name@)
        } else {
            can_names(entries)
        },
{
    assert(entries.push(more).drop_last() =~= entries);
}

/// A task keeps its name, its goal and its byte order while it moves on.
pub proof fn law_tasks_keep_what_they_are(task: LinkTask, next: LinkTask, step: LinkStep)
    requires
        task.goes_on_as(next, step),
    ensures
        next.name == task.name,
        next.goal == task.goal,
        next.order == task.order,
        next.step == step,
{
}

} // verus!
