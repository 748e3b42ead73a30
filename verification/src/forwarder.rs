//! One forwarder: its listening loop, the connection to the remote side and the data path.
use vstd::prelude::*;

use crate::settings::{ConnSettings, RuntimeKnobs};
use crate::stats::{StatsId, StatsRegistry};

verus! {

/// Seconds until a listener that could not be bound is tried again.
pub const BIND_RETRY_SECS: u64 = 5;

/// Seconds until a connection is accepted again after accepting one failed.
pub const ACCEPT_RETRY_SECS: u64 = 1;

/// Seconds that resolving the remote host may take.
pub const RESOLVE_TIMEOUT_SECS: u64 = 10;

/// Seconds that connecting to one address may take.
pub const CONNECT_TIMEOUT_SECS: u64 = 15;

/// Where the listening loop of a forwarder stands.
#[derive(Clone, Copy, Debug, PartialEq, Eq, Structural)]
pub enum ListenState {
    /// The local endpoint is to be bound.
    Binding,
    /// Binding failed; it is tried again after a while.
    BindBackoff,
    /// A connection is to be accepted.
    Accepting,
    /// Accepting failed; it is tried again after a while.
    AcceptBackoff,
    /// The forwarder has been stopped.
    Stopped,
}

/// What the task of a forwarder does next; any of it ends when the forwarder is stopped.
#[derive(Clone, Copy, Debug, PartialEq, Eq, Structural)]
pub enum ListenAction {
    /// Bind the local endpoint.
    Bind,
    /// Wait so many seconds.
    Wait(u64),
    /// Accept a connection.
    Accept,
    /// End.
    Stop,
}

/// What came of it.
#[derive(Clone, Copy, Debug, PartialEq, Eq, Structural)]
pub enum ListenEvent {
    /// The forwarder was told to stop.
    Cancelled,
    /// The local endpoint is bound.
    Bound,
    /// The local endpoint could not be bound.
    BindFailed,
    /// A connection was accepted.
    Accepted,
    /// No connection could be accepted.
    AcceptFailed,
    /// The time is up.
    Waited,
}

impl ListenState {
    /// What is to be done in this state.
    pub open spec fn todo(self) -> ListenAction {
        match self {
            ListenState::Binding => ListenAction::Bind,
            ListenState::BindBackoff => ListenAction::Wait(BIND_RETRY_SECS),
            ListenState::Accepting => ListenAction::Accept,
            ListenState::AcceptBackoff => ListenAction::Wait(ACCEPT_RETRY_SECS),
            ListenState::Stopped => ListenAction::Stop,
        }
    }

    /// The state after an event. An event that cannot come in this state changes nothing.
    pub open spec fn after(self, event: ListenEvent) -> ListenState {
        match (self, event) {
            (_, ListenEvent::Cancelled) => ListenState::Stopped,
            (ListenState::Binding, ListenEvent::Bound) => ListenState::Accepting,
            (ListenState::Binding, ListenEvent::BindFailed) => ListenState::BindBackoff,
            (ListenState::BindBackoff, ListenEvent::Waited) => ListenState::Binding,
            (ListenState::Accepting, ListenEvent::AcceptFailed) => ListenState::AcceptBackoff,
            (ListenState::AcceptBackoff, ListenEvent::Waited) => ListenState::Accepting,
            _ => self,
        }
    }

    /// The state after a run of events.
    pub open spec fn after_all(self, events: Seq<ListenEvent>) -> ListenState
        decreases events.len(),
    {
        if events.len() == 0 {
            self
        } else {
            self.after_all(events.drop_last()).after(events.last())
        }
    }
}

/// The listening loop of a forwarder: it binds the local endpoint, with retries, and then accepts
/// connections until it is stopped.
#[derive(Debug)]
pub struct ListenLoop {
    pub state: ListenState,
}

impl ListenLoop {
    /// A loop that has done nothing yet.
    pub fn new() -> (r: Self)
        ensures
            r.state == ListenState::Binding,
    {
        ListenLoop { state: ListenState::Binding }
    }

    /// What to do next.
    pub fn action(&self) -> (r: ListenAction)
        ensures
            r == self.state.todo(),
    {
        match self.state {
            ListenState::Binding => ListenAction::Bind,
            ListenState::BindBackoff => ListenAction::Wait(BIND_RETRY_SECS),
            ListenState::Accepting => ListenAction::Accept,
            ListenState::AcceptBackoff => ListenAction::Wait(ACCEPT_RETRY_SECS),
            ListenState::Stopped => ListenAction::Stop,
        }
    }

    /// Takes note of what came of the last action. For a connection that was accepted, gives the
    /// values that it uses from now to its end, whatever becomes of the knobs.
    pub fn on_event(&mut self, event: ListenEvent, knobs: &RuntimeKnobs) -> (r: Option<
        ConnSettings,
    >)
        ensures
            final(self).state == old(self).state.after(event),
            r == (if old(self).state is Accepting && event is Accepted {
                Some(knobs@)
            } else {
                None
            }),
    {
        let accepted: bool = match (self.state, event) {
            (ListenState::Accepting, ListenEvent::Accepted) => true,
            _ => false,
        };
        self.state = match (self.state, event) {
            (_, ListenEvent::Cancelled) => ListenState::Stopped,
            (ListenState::Binding, ListenEvent::Bound) => ListenState::Accepting,
            (ListenState::Binding, ListenEvent::BindFailed) => ListenState::BindBackoff,
            (ListenState::BindBackoff, ListenEvent::Waited) => ListenState::Binding,
            (ListenState::Accepting, ListenEvent::AcceptFailed) => ListenState::AcceptBackoff,
            (ListenState::AcceptBackoff, ListenEvent::Waited) => ListenState::Accepting,
            (state, _) => state,
        };
        if accepted {
            Some(knobs.snapshot())
        } else {
            None
        }
    }
}

/// A forwarder that is told to stop ends, whatever it was doing, and does nothing ever after.
pub proof fn law_cancel_stops(s: ListenState, before: Seq<ListenEvent>, later: Seq<ListenEvent>)
    ensures
        s.after_all(before.push(ListenEvent::Cancelled) + later).todo() == ListenAction::Stop,
    decreases later.len(),
{
    let all = before.push(ListenEvent::Cancelled) + later;
    if later.len() > 0 {
        assert(all.drop_last() =~= before.push(ListenEvent::Cancelled) + later.drop_last());
        assert(all.last() == later.last());
        law_cancel_stops(s, before, later.drop_last());
    } else {
        assert(all =~= before.push(ListenEvent::Cancelled));
        assert(all.drop_last() =~= before);
    }
}

/// A forwarder stops only when it is told to: no failure to bind or accept ends it.
pub proof fn law_failures_never_stop(s: ListenState, events: Seq<ListenEvent>)
    requires
        !(s is Stopped),
        forall|i: int| 0 <= i < events.len() ==> !(#[trigger] events[i] is Cancelled),
    ensures
        !(s.after_all(events) is Stopped),
    decreases events.len(),
{
    if events.len() > 0 {
        assert forall|i: int| 0 <= i < events.drop_last().len() implies !(
        #[trigger] events.drop_last()[i] is Cancelled) by {
            assert(!(events[i] is Cancelled));
        }
        law_failures_never_stop(s, events.drop_last());
        assert(!(events[events.len() - 1] is Cancelled));
    }
}

/// A failure is followed by a pause, and then the same is tried again.
pub proof fn law_failure_is_retried(s: ListenState, failure: ListenEvent)
    requires
        (s is Binding && failure is BindFailed) || (s is Accepting && failure is AcceptFailed),
    ensures
        s.after(failure).todo() == ListenAction::Wait(
            if s is Binding {
                BIND_RETRY_SECS
            } else {
                ACCEPT_RETRY_SECS
            },
        ),
        s.after(failure).after(ListenEvent::Waited) == s,
{
}

/// An open connection, which counts as active until it is closed. Any number of them may be open
/// at once at one forwarder, and they may close in any order.
#[must_use]
#[derive(Debug)]
pub struct ConnGuard {
    stats: StatsId,
}

impl ConnGuard {
    /// The counters that the connection is counted in.
    pub closed spec fn stats(self) -> StatsId {
        self.stats
    }

    /// Counts a connection that opens at the forwarder that `stats` stands for.
    pub fn new(registry: &mut StatsRegistry, stats: StatsId) -> (r: Self)
        ensures
            r.stats() == stats,
            final(registry)@ == crate::stats::counted(
                old(registry)@,
                stats,
                crate::stats::StatsEvent::Opened,
            ),
    {
        let ghost start = registry@;
        if let Some(s) = registry.stats_mut(stats) {
            s.inc_connections();
        }
        assert(registry@ =~= crate::stats::counted(
            start,
            stats,
            crate::stats::StatsEvent::Opened,
        ));
        ConnGuard { stats }
    }

    /// Counts that the connection closes. A guard is closed once, as this takes it.
    pub fn close(self, registry: &mut StatsRegistry)
        ensures
            final(registry)@ == crate::stats::counted(
                old(registry)@,
                self.stats(),
                crate::stats::StatsEvent::Closed,
            ),
    {
        let ghost start = registry@;
        if let Some(s) = registry.stats_mut(self.stats) {
            s.dec_connections();
        }
        assert(registry@ =~= crate::stats::counted(
            start,
            self.stats,
            crate::stats::StatsEvent::Closed,
        ));
    }
}

/// Something that happens at a forwarder whose connections are guarded.
pub enum GuardEvent {
    /// The guard with this number is made.
    Made(nat),
    /// The guard with this number is closed.
    Closed(nat),
    /// Traffic is counted, or rates are sampled.
    Counted(crate::stats::StatsEvent),
}

/// The guards that have been made and not yet closed.
pub open spec fn open_guards(events: Seq<GuardEvent>) -> Set<nat>
    decreases events.len(),
{
    if events.len() == 0 {
        Set::empty()
    } else {
        let before = open_guards(events.drop_last());
        match events.last() {
            GuardEvent::Made(g) => before.insert(g),
            GuardEvent::Closed(g) => before.remove(g),
            GuardEvent::Counted(_) => before,
        }
    }
}

/// Whether guards that are made are new, guards that are closed are open, and connections are
/// counted by guards alone.
pub open spec fn guarded(events: Seq<GuardEvent>) -> bool
    decreases events.len(),
{
    events.len() > 0 ==> {
        let before = open_guards(events.drop_last());
        &&& guarded(events.drop_last())
        &&& match events.last() {
            GuardEvent::Made(g) => !before.contains(g),
            GuardEvent::Closed(g) => before.contains(g),
            GuardEvent::Counted(e) => !(e is Opened) && !(e is Closed),
        }
    }
}

/// What the counters see of a run of events.
pub open spec fn noted(events: Seq<GuardEvent>) -> Seq<crate::stats::StatsEvent> {
    events.map_values(
        |e: GuardEvent|
            match e {
                GuardEvent::Made(_) => crate::stats::StatsEvent::Opened,
                GuardEvent::Closed(_) => crate::stats::StatsEvent::Closed,
                GuardEvent::Counted(e) => e,
            },
    )
}

/// What the counters would see of a run of events without any guards.
pub open spec fn unguarded(events: Seq<GuardEvent>) -> Seq<crate::stats::StatsEvent>
    decreases events.len(),
{
    if events.len() == 0 {
        Seq::empty()
    } else {
        match events.last() {
            GuardEvent::Counted(e) => unguarded(events.drop_last()).push(e),
            _ => unguarded(events.drop_last()),
        }
    }
}

/// However guards overlap and in whatever order they close, at every moment the count of active
/// connections is what it was at first plus the number of open guards; guards touch nothing else.
/// (More connections than fit in 64 bits are left out.)
pub proof fn law_active_are_the_open_guards(c: crate::stats::Counters, events: Seq<GuardEvent>)
    requires
        guarded(events),
        c.active_connections + open_guards(events).len() <= u64::MAX,
    ensures
        c.after_all(noted(events)) == (crate::stats::Counters {
            active_connections: (c.active_connections + open_guards(events).len()) as u64,
            ..c.after_all(unguarded(events))
        }),
{
    lemma_guards(c, events);
    let sum = c.active_connections + open_guards(events).len();
    assert(sum % 0x1_0000_0000_0000_0000 == sum);
}

proof fn lemma_guards(c: crate::stats::Counters, events: Seq<GuardEvent>)
    requires
        guarded(events),
    ensures
        open_guards(events).finite(),
        c.after_all(noted(events)) == (crate::stats::Counters {
            active_connections: ((c.active_connections + open_guards(events).len())
                % 0x1_0000_0000_0000_0000) as u64,
            ..c.after_all(unguarded(events))
        }),
    decreases events.len(),
{
    if events.len() > 0 {
        let front = events.drop_last();
        lemma_guards(c, front);
        assert(noted(events).drop_last() =~= noted(front));
        let seen = c.after_all(unguarded(front));
        match events.last() {
            GuardEvent::Counted(e) => {
                assert(unguarded(events).drop_last() =~= unguarded(front));
                assert(c.after_all(unguarded(events)) == seen.after(e));
            },
            _ => {},
        }
    } else {
        assert(noted(events) =~= Seq::empty());
    }
}

/// What came of resolving the remote host.
#[derive(Debug)]
pub enum Lookup {
    /// No answer in time.
    TimedOut,
    /// An error; the text says which.
    Failed(String),
    /// The addresses, with the port, in the order in which they are to be tried.
    Found(Vec<String>),
}

/// What came of connecting to an address.
#[derive(Debug)]
pub enum Attempt {
    /// The connection stands.
    Connected,
    /// An error; the text says which.
    Failed(String),
    /// No connection in time.
    TimedOut,
}

/// What an [`Attempt`] says.
#[verifier::ext_equal]
pub enum AttemptSpec {
    Connected,
    Failed(Seq<char>),
    TimedOut,
}

impl View for Attempt {
    type V = AttemptSpec;

    open spec fn view(&self) -> AttemptSpec {
        match *self {
            Attempt::Connected => AttemptSpec::Connected,
            Attempt::Failed(e) => AttemptSpec::Failed(e@),
            Attempt::TimedOut => AttemptSpec::TimedOut,
        }
    }
}

/// The error that an attempt at an address leaves.
pub open spec fn attempt_error(addr: Seq<char>, attempt: AttemptSpec) -> Option<Seq<char>> {
    match attempt {
        AttemptSpec::Connected => None,
        AttemptSpec::Failed(e) => Some("connect "@ + addr + ": "@ + e),
        AttemptSpec::TimedOut => Some("connect timeout to "@ + addr),
    }
}

/// What to do next to reach the remote side.
#[derive(Debug)]
pub enum DialStep {
    /// Connect to the address with this index.
    Connect(usize),
    /// The address with this index is connected.
    Connected(usize),
    /// No address could be reached; the text says why.
    GiveUp(String),
}

/// What a [`DialStep`] says.
#[verifier::ext_equal]
pub enum DialStepSpec {
    Connect(nat),
    Connected(nat),
    GiveUp(Seq<char>),
}

impl View for DialStep {
    type V = DialStepSpec;

    open spec fn view(&self) -> DialStepSpec {
        match *self {
            DialStep::Connect(i) => DialStepSpec::Connect(i as nat),
            DialStep::Connected(i) => DialStepSpec::Connected(i as nat),
            DialStep::GiveUp(e) => DialStepSpec::GiveUp(e@),
        }
    }
}

/// Connects to the remote side: tries each resolved address in turn until one accepts.
#[derive(Debug)]
pub struct Dialer {
    remote_host: String,
    addrs: Vec<String>,
    tried: usize,
    connected: bool,
    last_error: Option<String>,
}

/// Where a [`Dialer`] stands.
#[verifier::ext_equal]
pub struct Dial {
    pub remote_host: Seq<char>,
    pub addrs: Seq<Seq<char>>,
    /// How many addresses have been tried.
    pub tried: nat,
    /// Whether the last of them accepted.
    pub connected: bool,
    pub last_error: Option<Seq<char>>,
}

impl View for Dialer {
    type V = Dial;

    closed spec fn view(&self) -> Dial {
        Dial {
            remote_host: self.remote_host@,
            addrs: crate::text::texts(self.addrs@),
            tried: self.tried as nat,
            connected: self.connected,
            last_error: crate::settings::optional_text(self.last_error),
        }
    }
}

impl Dial {
    /// Nothing has been tried yet.
    pub open spec fn fresh(remote_host: Seq<char>, addrs: Seq<Seq<char>>) -> Dial {
        Dial { remote_host, addrs, tried: 0, connected: false, last_error: None }
    }

    /// What to do next.
    pub open spec fn step(self) -> DialStepSpec {
        if self.connected {
            DialStepSpec::Connected((self.tried - 1) as nat)
        } else if self.tried < self.addrs.len() {
            DialStepSpec::Connect(self.tried)
        } else {
            DialStepSpec::GiveUp(
                match self.last_error {
                    Some(e) => e,
                    None => "No DNS records for "@ + self.remote_host,
                },
            )
        }
    }

    /// After an attempt at the next address.
    pub open spec fn after(self, attempt: AttemptSpec) -> Dial {
        match attempt_error(self.addrs[self.tried as int], attempt) {
            Some(e) => Dial { tried: self.tried + 1, last_error: Some(e), ..self },
            None => Dial { tried: self.tried + 1, connected: true, ..self },
        }
    }

    /// After a run of attempts.
    pub open spec fn after_all(self, attempts: Seq<AttemptSpec>) -> Dial
        decreases attempts.len(),
    {
        if attempts.len() == 0 {
            self
        } else {
            self.after_all(attempts.drop_last()).after(attempts.last())
        }
    }

    /// Whether no more addresses have been tried than there are, and one was if one accepted.
    pub open spec fn valid(self) -> bool {
        self.tried <= self.addrs.len() && (self.connected ==> self.tried > 0)
    }
}

/// The text of the error for a host that was not resolved in time.
pub open spec fn lookup_timeout_text(remote_host: Seq<char>) -> Seq<char> {
    "DNS lookup timeout for "@ + remote_host
}

impl Dialer {
    /// Begins to connect to the addresses that the remote host was resolved to; an error says why
    /// it was not.
    pub fn start(remote_host: &str, lookup: Lookup) -> (r: Result<Self, String>)
        ensures
            match lookup {
                Lookup::TimedOut => r is Err && r->Err_0@ == lookup_timeout_text(remote_host@),
                Lookup::Failed(e) => r is Err && r->Err_0@ == e@,
                Lookup::Found(addrs) => r is Ok && r->Ok_0@.valid() && r->Ok_0@ == Dial::fresh(
                    remote_host@,
                    crate::text::texts(addrs@),
                ),
            },
    {
        match lookup {
            Lookup::TimedOut => {
                let mut e = String::from_str("DNS lookup timeout for ");
                e.append(remote_host);
                Err(e)
            },
            Lookup::Failed(e) => Err(e),
            Lookup::Found(addrs) => {
                let dialer = Dialer {
                    remote_host: remote_host.to_owned(),
                    addrs,
                    tried: 0,
                    connected: false,
                    last_error: None,
                };
                Ok(dialer)
            },
        }
    }

    /// What to do next.
    pub fn step(&self) -> (r: DialStep)
        requires
            self@.valid(),
        ensures
            r@ == self@.step(),
    {
        if self.connected {
            DialStep::Connected(self.tried - 1)
        } else if self.tried < self.addrs.len() {
            DialStep::Connect(self.tried)
        } else {
            match &self.last_error {
                Some(e) => DialStep::GiveUp(e.clone()),
                None => {
                    let mut e = String::from_str("No DNS records for ");
                    e.append(self.remote_host.as_str());
                    DialStep::GiveUp(e)
                },
            }
        }
    }

    /// Takes note of what came of connecting to the next address. Nothing changes where no
    /// address was to be tried.
    pub fn on_attempt(&mut self, attempt: Attempt)
        requires
            old(self)@.valid(),
        ensures
            final(self)@.valid(),
            final(self)@ == (if old(self)@.step() is Connect {
                old(self)@.after(attempt@)
            } else {
                old(self)@
            }),
    {
        if self.connected || self.tried >= self.addrs.len() {
            return;
        }
        let ghost start = self@;
        let addr = &self.addrs[self.tried];
        assert(addr@ == start.addrs[start.tried as int]);
        match attempt {
            Attempt::Connected => {
                self.connected = true;
            },
            Attempt::Failed(e) => {
                let mut text = String::from_str("connect ");
                text.append(addr.as_str());
                text.append(": ");
                text.append(e.as_str());
                self.last_error = Some(text);
            },
            Attempt::TimedOut => {
                let mut text = String::from_str("connect timeout to ");
                text.append(addr.as_str());
                self.last_error = Some(text);
            },
        }
        self.tried = self.tried + 1;
    }
}

/// Whether no attempt of the list succeeded.
pub open spec fn all_failed(attempts: Seq<AttemptSpec>) -> bool {
    forall|i: int| 0 <= i < attempts.len() ==> !(#[trigger] attempts[i] is Connected)
}

/// Each address is tried once, in the order in which they were resolved. When none accepts, the
/// error is that of the last one, or that there was none.
pub proof fn law_addresses_tried_in_order(
    remote_host: Seq<char>,
    addrs: Seq<Seq<char>>,
    attempts: Seq<AttemptSpec>,
)
    requires
        attempts.len() <= addrs.len(),
        all_failed(attempts),
    ensures
        ({
            let dial = Dial::fresh(remote_host, addrs).after_all(attempts);
            &&& dial.step() == (if attempts.len() < addrs.len() {
                DialStepSpec::Connect(attempts.len())
            } else if attempts.len() == 0 {
                DialStepSpec::GiveUp("No DNS records for "@ + remote_host)
            } else {
                DialStepSpec::GiveUp(
                    attempt_error(addrs.last(), attempts.last())->Some_0,
                )
            })
        }),
{
    lemma_failed_attempts(remote_host, addrs, attempts);
}

proof fn lemma_failed_attempts(
    remote_host: Seq<char>,
    addrs: Seq<Seq<char>>,
    attempts: Seq<AttemptSpec>,
)
    requires
        attempts.len() <= addrs.len(),
        all_failed(attempts),
    ensures
        Dial::fresh(remote_host, addrs).after_all(attempts) == (Dial {
            remote_host,
            addrs,
            tried: attempts.len(),
            connected: false,
            last_error: if attempts.len() == 0 {
                None
            } else {
                attempt_error(addrs[attempts.len() - 1], attempts.last())
            },
        }),
    decreases attempts.len(),
{
    if attempts.len() > 0 {
        let front = attempts.drop_last();
        assert(all_failed(front)) by {
            assert forall|i: int| 0 <= i < front.len() implies !(
            #[trigger] front[i] is Connected) by {
                assert(!(attempts[i] is Connected));
            }
        }
        lemma_failed_attempts(remote_host, addrs, front);
        assert(!(attempts[attempts.len() - 1] is Connected));
    }
}

/// The first address that accepts is used, however many before it failed.
pub proof fn law_first_to_accept_wins(
    remote_host: Seq<char>,
    addrs: Seq<Seq<char>>,
    failures: Seq<AttemptSpec>,
)
    requires
        failures.len() < addrs.len(),
        all_failed(failures),
    ensures
        Dial::fresh(remote_host, addrs).after_all(failures.push(AttemptSpec::Connected)).step()
            == DialStepSpec::Connected(failures.len()),
{
    lemma_failed_attempts(remote_host, addrs, failures);
    assert(failures.push(AttemptSpec::Connected).drop_last() =~= failures);
}

/// How the bytes of a connection are moved.
#[derive(Clone, Copy, Debug, PartialEq, Eq, Structural)]
pub enum DataPath {
    /// Through buffers of so many bytes, one for each direction.
    Copy(usize),
    /// By the kernel, through pipes of so many bytes, one for each direction.
    Splice(usize),
}

/// How the bytes of a connection are moved: by the kernel where that is asked for and the system
/// can do it, else through buffers.
pub fn data_path(conn: ConnSettings, on_linux: bool) -> (r: DataPath)
    ensures
        r == (if conn.use_splice && on_linux {
            DataPath::Splice(conn.buffer_bytes)
        } else {
            DataPath::Copy(conn.buffer_bytes)
        }),
{
    if conn.use_splice && on_linux {
        DataPath::Splice(conn.buffer_bytes)
    } else {
        DataPath::Copy(conn.buffer_bytes)
    }
}

/// Which way bytes go.
#[derive(Clone, Copy, Debug, PartialEq, Eq, Structural)]
pub enum Direction {
    ClientToRemote,
    RemoteToClient,
}

impl Direction {
    /// How `n` bytes in this direction are counted.
    pub open spec fn counts(self, n: u64) -> crate::stats::StatsEvent {
        match self {
            Direction::ClientToRemote => crate::stats::StatsEvent::Sent(n),
            Direction::RemoteToClient => crate::stats::StatsEvent::Received(n),
        }
    }
}

/// Where a pump stands.
#[derive(Clone, Copy, Debug, PartialEq, Eq, Structural)]
pub enum PumpState {
    /// Bytes are to be moved from the source into the pipe.
    Reading,
    /// So many bytes are to be moved from the pipe to the destination.
    Writing(usize),
    /// The source has ended.
    Ended,
}

/// What a pump does next.
#[derive(Clone, Copy, Debug, PartialEq, Eq, Structural)]
pub enum PumpStep {
    /// Move up to so many bytes from the source into the pipe.
    Read(usize),
    /// Move up to so many bytes from the pipe to the destination.
    Write(usize),
    /// Tell the destination that no more will come, and end.
    HalfClose,
}

/// What came of it. (A step that would block is tried again and is no event.)
pub enum PumpEvent {
    /// So many bytes came from the source; none at its end.
    Read(usize),
    /// So many bytes went to the destination; none where it takes no more.
    Wrote(usize),
}

impl PumpState {
    /// The state after an event. An event that cannot come in this state changes nothing.
    pub open spec fn after(self, event: PumpEvent) -> PumpState {
        match (self, event) {
            (PumpState::Reading, PumpEvent::Read(n)) => if n == 0 {
                PumpState::Ended
            } else {
                PumpState::Writing(n)
            },
            (PumpState::Writing(left), PumpEvent::Wrote(m)) => if m == 0 || m == left {
                PumpState::Reading
            } else {
                PumpState::Writing((left - m) as usize)
            },
            _ => self,
        }
    }

    /// Whether an event can come in this state: no more is written than there is to write.
    pub open spec fn admits(self, event: PumpEvent) -> bool {
        match (self, event) {
            (PumpState::Reading, PumpEvent::Read(_)) => true,
            (PumpState::Writing(left), PumpEvent::Wrote(m)) => m <= left,
            _ => false,
        }
    }

    /// The bytes that were read and are to be written.
    pub open spec fn left(self) -> nat {
        match self {
            PumpState::Writing(left) => left as nat,
            _ => 0,
        }
    }

    /// The state after a run of events.
    pub open spec fn after_all(self, events: Seq<PumpEvent>) -> PumpState
        decreases events.len(),
    {
        if events.len() == 0 {
            self
        } else {
            self.after_all(events.drop_last()).after(events.last())
        }
    }
}

/// Moves the bytes of one direction through a pipe: all that was read is written before more is
/// read.
#[derive(Debug)]
pub struct Pump {
    pub direction: Direction,
    pub stats: StatsId,
    pub chunk: usize,
    pub state: PumpState,
}

impl Pump {
    /// A pump that has moved nothing yet. Its bytes are counted for the forwarder that `stats`
    /// stands for.
    pub fn new(direction: Direction, stats: StatsId, pipe_size: usize) -> (r: Self)
        ensures
            r.direction == direction,
            r.stats == stats,
            r.chunk == (if pipe_size == 0 {
                1
            } else {
                pipe_size
            }),
            r.state == PumpState::Reading,
    {
        let chunk: usize = if pipe_size == 0 {
            1
        } else {
            pipe_size
        };
        Pump { direction, stats, chunk, state: PumpState::Reading }
    }

    /// What to do next.
    pub fn step(&self) -> (r: PumpStep)
        ensures
            r == (match self.state {
                PumpState::Reading => PumpStep::Read(self.chunk),
                PumpState::Writing(left) => PumpStep::Write(left),
                PumpState::Ended => PumpStep::HalfClose,
            }),
    {
        match self.state {
            PumpState::Reading => PumpStep::Read(self.chunk),
            PumpState::Writing(left) => PumpStep::Write(left),
            PumpState::Ended => PumpStep::HalfClose,
        }
    }

    /// Takes note of `n` bytes that came from the source, and counts them.
    pub fn on_read(&mut self, n: usize, registry: &mut StatsRegistry)
        requires
            old(self).state.admits(PumpEvent::Read(n)),
        ensures
            *final(self) == (Pump { state: old(self).state.after(PumpEvent::Read(n)), ..*old(self) }),
            final(registry)@ == crate::stats::counted(
                old(registry)@,
                old(self).stats,
                old(self).direction.counts(n as u64),
            ),
    {
        let ghost start = registry@;
        if n == 0 {
            self.state = PumpState::Ended;
        } else {
            if let Some(stats) = registry.stats_mut(self.stats) {
                match self.direction {
                    Direction::ClientToRemote => stats.add_sent(n as u64),
                    Direction::RemoteToClient => stats.add_received(n as u64),
                }
            }
            self.state = PumpState::Writing(n);
        }
        assert(registry@ =~= crate::stats::counted(
            start,
            self.stats,
            self.direction.counts(n as u64),
        ));
    }

    /// Takes note of `m` bytes that went to the destination.
    pub fn on_write(&mut self, m: usize)
        requires
            old(self).state.admits(PumpEvent::Wrote(m)),
        ensures
            *final(self) == (Pump {
                state: old(self).state.after(PumpEvent::Wrote(m)),
                ..*old(self)
            }),
    {
        if let PumpState::Writing(left) = self.state {
            self.state = if m == 0 || m == left {
                PumpState::Reading
            } else {
                PumpState::Writing(left - m)
            };
        }
    }
}

/// The bytes that came from the source in a run of events.
pub open spec fn total_read(events: Seq<PumpEvent>) -> nat
    decreases events.len(),
{
    if events.len() == 0 {
        0
    } else {
        total_read(events.drop_last()) + (match events.last() {
            PumpEvent::Read(n) => n as nat,
            _ => 0,
        })
    }
}

/// The bytes that went to the destination in a run of events.
pub open spec fn total_written(events: Seq<PumpEvent>) -> nat
    decreases events.len(),
{
    if events.len() == 0 {
        0
    } else {
        total_written(events.drop_last()) + (match events.last() {
            PumpEvent::Wrote(m) => m as nat,
            _ => 0,
        })
    }
}

/// Whether a pump can go through these events, and the destination took bytes each time.
pub open spec fn flows(start: PumpState, events: Seq<PumpEvent>) -> bool {
    forall|i: int|
        0 <= i < events.len() ==> #[trigger] start.after_all(events.take(i)).admits(events[i])
            && events[i] != PumpEvent::Wrote(0)
}

/// No byte is lost on the way: what was read is what was written and what is left to write. So
/// all of it has been written when more is read and when the destination is told of the end.
/// (Left out is a destination that refuses to take more while it is open.)
pub proof fn law_pump_loses_nothing(events: Seq<PumpEvent>)
    requires
        flows(PumpState::Reading, events),
    ensures
        total_read(events) == total_written(events) + PumpState::Reading.after_all(events).left(),
        PumpState::Reading.after_all(events) is Ended ==> total_read(events) == total_written(
            events,
        ),
    decreases events.len(),
{
    if events.len() > 0 {
        let front = events.drop_last();
        let last = events.len() - 1;
        assert(flows(PumpState::Reading, front)) by {
            assert forall|i: int| 0 <= i < front.len() implies #[trigger] PumpState::Reading.after_all(
                front.take(i),
            ).admits(front[i]) && front[i] != PumpEvent::Wrote(0) by {
                assert(front.take(i) =~= events.take(i));
                assert(PumpState::Reading.after_all(events.take(i)).admits(events[i]));
            }
        }
        law_pump_loses_nothing(front);
        assert(events.take(last) =~= front);
        assert(PumpState::Reading.after_all(events.take(last)).admits(events[last]));
    }
}

/// Both data paths count the same: `n` bytes from the client as sent, `n` bytes from the remote
/// side as received.
pub proof fn law_paths_count_alike(n: usize)
    ensures
        Direction::ClientToRemote.counts(n as u64) == crate::stats::StatsEvent::Sent(
            crate::stats::bytes_read(0, crate::stats::PollOutcome::Done(n)),
        ),
        Direction::RemoteToClient.counts(n as u64) == crate::stats::StatsEvent::Received(
            crate::stats::bytes_written(crate::stats::PollOutcome::Done(n)),
        ),
{
}

/// What a pump counts over a run of events: the bytes that came from the source.
pub open spec fn pump_counts(direction: Direction, events: Seq<PumpEvent>) -> Seq<
    crate::stats::StatsEvent,
>
    decreases events.len(),
{
    if events.len() == 0 {
        Seq::empty()
    } else {
        match events.last() {
            PumpEvent::Read(n) => pump_counts(direction, events.drop_last()).push(
                direction.counts(n as u64),
            ),
            PumpEvent::Wrote(_) => pump_counts(direction, events.drop_last()),
        }
    }
}

/// A pump counts just what it read: as sent what came from the client, as received what came from
/// the remote side, and no connection.
pub proof fn law_pump_counts_what_it_read(direction: Direction, events: Seq<PumpEvent>)
    ensures
        crate::stats::total_sent(pump_counts(direction, events)) == (if direction
            is ClientToRemote {
            total_read(events)
        } else {
            0
        }),
        crate::stats::total_received(pump_counts(direction, events)) == (if direction
            is RemoteToClient {
            total_read(events)
        } else {
            0
        }),
        crate::stats::net_connections(pump_counts(direction, events)) == 0,
    decreases events.len(),
{
    if events.len() > 0 {
        let front = events.drop_last();
        law_pump_counts_what_it_read(direction, front);
        if let PumpEvent::Read(n) = events.last() {
            assert(pump_counts(direction, events).drop_last() =~= pump_counts(direction, front));
        }
    }
}

/// How long things may take and when they are tried again, in seconds.
pub proof fn law_time_limits(s: ListenState)
    ensures
        s is BindBackoff ==> s.todo() == ListenAction::Wait(5),
        s is AcceptBackoff ==> s.todo() == ListenAction::Wait(1),
        BIND_RETRY_SECS == 5,
        ACCEPT_RETRY_SECS == 1,
        RESOLVE_TIMEOUT_SECS == 10,
        CONNECT_TIMEOUT_SECS == 15,
{
}

/// What is to be done in each state: bind until bound, accept from there on, wait after a failure,
/// and end once stopped.
pub proof fn law_what_is_to_be_done(s: ListenState)
    ensures
        s.todo() == ListenAction::Bind <==> s == ListenState::Binding,
        s.todo() == ListenAction::Accept <==> s == ListenState::Accepting,
        s.todo() == ListenAction::Stop <==> s == ListenState::Stopped,
        s.todo() is Wait <==> s == ListenState::BindBackoff || s == ListenState::AcceptBackoff,
{
}

/// How each event moves the listening loop on.
pub proof fn law_how_listening_goes_on(s: ListenState, event: ListenEvent)
    ensures
        event == ListenEvent::Cancelled ==> s.after(event) == ListenState::Stopped,
        s == ListenState::Stopped ==> s.after(event) == ListenState::Stopped,
        event == ListenEvent::Bound ==> s.after(event) == (if s == ListenState::Binding {
            ListenState::Accepting
        } else {
            s
        }),
        event == ListenEvent::BindFailed ==> s.after(event) == (if s == ListenState::Binding {
            ListenState::BindBackoff
        } else {
            s
        }),
        event == ListenEvent::Accepted ==> s.after(event) == s,
        event == ListenEvent::AcceptFailed ==> s.after(event) == (if s == ListenState::Accepting {
            ListenState::AcceptBackoff
        } else {
            s
        }),
        event == ListenEvent::Waited ==> s.after(event) == (if s == ListenState::BindBackoff {
            ListenState::Binding
        } else if s == ListenState::AcceptBackoff {
            ListenState::Accepting
        } else {
            s
        }),
{
}

/// Once bound, a forwarder that is not stopped never binds again: it accepts, however often
/// accepting fails, and after each pause accepts again.
pub proof fn law_bound_is_bound(s: ListenState, events: Seq<ListenEvent>)
    requires
        s is Accepting || s is AcceptBackoff,
        forall|i: int| 0 <= i < events.len() ==> !(#[trigger] events[i] is Cancelled),
    ensures
        s.after_all(events) is Accepting || s.after_all(events) is AcceptBackoff,
        s.after_all(events.push(ListenEvent::Waited)) is Accepting,
    decreases events.len(),
{
    assert(events.push(ListenEvent::Waited).drop_last() =~= events);
    if events.len() > 0 {
        let front = events.drop_last();
        assert forall|i: int| 0 <= i < front.len() implies !(#[trigger] front[i] is Cancelled) by {
            assert(!(events[i] is Cancelled));
        }
        law_bound_is_bound(s, front);
        assert(!(events[events.len() - 1] is Cancelled));
    }
}

/// Runs of listening events act one after the other.
pub proof fn law_listening_in_turn(
    s: ListenState,
    first: Seq<ListenEvent>,
    then: Seq<ListenEvent>,
    e: ListenEvent,
)
    ensures
        s.after_all(first + then) == s.after_all(first).after_all(then),
        s.after_all(seq![e]) == s.after(e),
        s.after_all(Seq::empty()) == s,
    decreases then.len(),
{
    reveal_with_fuel(ListenState::after_all, 2);
    if then.len() > 0 {
        law_listening_in_turn(s, first, then.drop_last(), e);
        assert((first + then).drop_last() =~= first + then.drop_last());
    } else {
        assert(first + then =~= first);
    }
}

/// The error of an attempt names the address it was made at, and what went wrong there.
pub proof fn law_attempt_errors(addr: Seq<char>, e: Seq<char>)
    ensures
        attempt_error(addr, AttemptSpec::Connected) is None,
        attempt_error(addr, AttemptSpec::Failed(e)) == Some("connect "@ + addr + ": "@ + e),
        attempt_error(addr, AttemptSpec::TimedOut) == Some("connect timeout to "@ + addr),
        lookup_timeout_text(addr) == "DNS lookup timeout for "@ + addr,
{
}

/// What to do next: go on with a connection that stands, else try the next address, else give up
/// with the last error, or because there was no address.
pub proof fn law_dial_steps(d: Dial)
    requires
        d.valid(),
    ensures
        d.connected ==> d.step() == DialStepSpec::Connected((d.tried - 1) as nat),
        !d.connected && d.tried < d.addrs.len() ==> d.step() == DialStepSpec::Connect(d.tried),
        !d.connected && d.tried >= d.addrs.len() ==> d.step() == DialStepSpec::GiveUp(
            match d.last_error {
                Some(e) => e,
                None => "No DNS records for "@ + d.remote_host,
            },
        ),
{
}

/// An attempt uses up one address: it connects, or leaves the error of that address.
pub proof fn law_an_attempt_at_the_next_address(d: Dial, attempt: AttemptSpec)
    requires
        d.tried < d.addrs.len(),
        !d.connected,
    ensures
        d.after(attempt).remote_host == d.remote_host,
        d.after(attempt).addrs == d.addrs,
        d.after(attempt).tried == d.tried + 1,
        d.after(attempt).connected <==> attempt is Connected,
        attempt is Connected ==> d.after(attempt).step() == DialStepSpec::Connected(d.tried),
        attempt matches AttemptSpec::Failed(e) ==> d.after(attempt).last_error == Some(
            "connect "@ + d.addrs[d.tried as int] + ": "@ + e,
        ),
        attempt is TimedOut ==> d.after(attempt).last_error == Some(
            "connect timeout to "@ + d.addrs[d.tried as int],
        ),
{
}

/// Dialling begins with the first address, nothing tried and no error.
pub proof fn law_dialling_begins(remote_host: Seq<char>, addrs: Seq<Seq<char>>, a: AttemptSpec)
    ensures
        Dial::fresh(remote_host, addrs).remote_host == remote_host,
        Dial::fresh(remote_host, addrs).addrs == addrs,
        Dial::fresh(remote_host, addrs).tried == 0,
        !Dial::fresh(remote_host, addrs).connected,
        Dial::fresh(remote_host, addrs).last_error is None,
        Dial::fresh(remote_host, addrs).after_all(Seq::empty()) == Dial::fresh(remote_host, addrs),
        Dial::fresh(remote_host, addrs).after_all(seq![a]) == Dial::fresh(
            remote_host,
            addrs,
        ).after(a),
{
    reveal_with_fuel(Dial::after_all, 2);
    assert(seq![a].drop_last() =~= Seq::<AttemptSpec>::empty());
}

/// Attempts and steps show what they are, with their texts and indices.
pub proof fn law_attempts_and_steps_show_themselves(e: String, i: usize)
    ensures
        Attempt::Connected@ == AttemptSpec::Connected,
        Attempt::TimedOut@ == AttemptSpec::TimedOut,
        (Attempt::Failed(e))@ == AttemptSpec::Failed(e@),
        (DialStep::Connect(i))@ == DialStepSpec::Connect(i as nat),
        (DialStep::Connected(i))@ == DialStepSpec::Connected(i as nat),
        (DialStep::GiveUp(e))@ == DialStepSpec::GiveUp(e@),
{
}

/// Bytes towards the remote side are counted as sent, those towards the client as received, all of
/// them.
pub proof fn law_directions_count(n: u64)
    ensures
        Direction::ClientToRemote.counts(n) == crate::stats::StatsEvent::Sent(n),
        Direction::RemoteToClient.counts(n) == crate::stats::StatsEvent::Received(n),
{
}

/// How a pump goes on: what it read is to be written, the end of the source ends it, and what was
/// written is no longer to be written; a destination that takes nothing is given up on for now.
pub proof fn law_how_a_pump_goes_on(n: usize, m: usize, left: usize)
    ensures
        n > 0 ==> PumpState::Reading.after(PumpEvent::Read(n)) == PumpState::Writing(n),
        PumpState::Reading.after(PumpEvent::Read(0)) == PumpState::Ended,
        0 < m < left ==> PumpState::Writing(left).after(PumpEvent::Wrote(m)) == PumpState::Writing(
            (left - m) as usize,
        ),
        PumpState::Writing(left).after(PumpEvent::Wrote(left)) == PumpState::Reading,
        PumpState::Writing(left).after(PumpEvent::Wrote(0)) == PumpState::Reading,
        PumpState::Reading.admits(PumpEvent::Read(n)),
        PumpState::Writing(left).admits(PumpEvent::Wrote(m)) <==> m <= left,
        PumpState::Writing(left).left() == left,
        PumpState::Reading.left() == 0,
        PumpState::Ended.left() == 0,
{
}

/// Runs of pump events act one after the other, and their bytes add up.
pub proof fn law_pumping_in_turn(
    s: PumpState,
    first: Seq<PumpEvent>,
    then: Seq<PumpEvent>,
    n: usize,
)
    ensures
        s.after_all(first + then) == s.after_all(first).after_all(then),
        s.after_all(Seq::empty()) == s,
        then.len() == 1 ==> s.after_all(then) == s.after(then[0]),
        total_read(first + then) == total_read(first) + total_read(then),
        total_written(first + then) == total_written(first) + total_written(then),
        total_read(seq![PumpEvent::Read(n)]) == n,
        total_read(seq![PumpEvent::Wrote(n)]) == 0,
        total_written(seq![PumpEvent::Wrote(n)]) == n,
        total_written(seq![PumpEvent::Read(n)]) == 0,
    decreases then.len(),
{
    reveal_with_fuel(PumpState::after_all, 2);
    reveal_with_fuel(total_read, 2);
    reveal_with_fuel(total_written, 2);
    if then.len() > 0 {
        law_pumping_in_turn(s, first, then.drop_last(), n);
        assert((first + then).drop_last() =~= first + then.drop_last());
    } else {
        assert(first + then =~= first);
    }
}

/// What the counters see of guarded connections: each guard as one opening and one closing, and
/// all other events as they are, in their order; a guard is open from the one to the other.
pub proof fn law_what_guards_count(events: Seq<GuardEvent>, e: crate::stats::StatsEvent, g: nat)
    ensures
        noted(events.push(GuardEvent::Made(g))) == noted(events).push(
            crate::stats::StatsEvent::Opened,
        ),
        noted(events.push(GuardEvent::Closed(g))) == noted(events).push(
            crate::stats::StatsEvent::Closed,
        ),
        noted(events.push(GuardEvent::Counted(e))) == noted(events).push(e),
        noted(Seq::empty()) == Seq::<crate::stats::StatsEvent>::empty(),
        open_guards(events.push(GuardEvent::Made(g))) == open_guards(events).insert(g),
        open_guards(events.push(GuardEvent::Closed(g))) == open_guards(events).remove(g),
        open_guards(events.push(GuardEvent::Counted(e))) == open_guards(events),
        open_guards(Seq::empty()) == Set::<nat>::empty(),
        guarded(Seq::empty()),
        guarded(events) && !open_guards(events).contains(g) ==> guarded(
            events.push(GuardEvent::Made(g)),
        ),
        guarded(events) && open_guards(events).contains(g) ==> guarded(
            events.push(GuardEvent::Closed(g)),
        ),
        guarded(events) && !(e is Opened) && !(e is Closed) ==> guarded(
            events.push(GuardEvent::Counted(e)),
        ),
{
    assert(noted(events.push(GuardEvent::Made(g))) =~= noted(events).push(
        crate::stats::StatsEvent::Opened,
    ));
    assert(noted(events.push(GuardEvent::Closed(g))) =~= noted(events).push(
        crate::stats::StatsEvent::Closed,
    ));
    assert(noted(events.push(GuardEvent::Counted(e))) =~= noted(events).push(e));
    assert(noted(Seq::empty()) =~= Seq::<crate::stats::StatsEvent>::empty());
    assert(events.push(GuardEvent::Made(g)).drop_last() =~= events);
    assert(events.push(GuardEvent::Closed(g)).drop_last() =~= events);
    assert(events.push(GuardEvent::Counted(e)).drop_last() =~= events);
}

} // verus!
