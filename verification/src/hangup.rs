//! Watching a client connection for the client closing it.
//!
//! A build request blocks the client for the whole build, and the daemon
//! protocol gives the client no way to say "stop". What it cannot avoid is
//! closing the connection. A watcher thread polls a duplicate of the client
//! socket for readability and then peeks one byte: a zero-length peek is what
//! a closed connection looks like. Peeking leaves any protocol bytes alone.
//!
//! The thread owns the socket; this module owns the decisions. The thread
//! performs each [`WatchAction`] and hands the outcome back as the
//! [`WatchEvent`] that answers it.

use vstd::prelude::*;

verus! {

/// How long one poll waits before the stop flag is read again.
pub const POLL_INTERVAL_MS: u16 = 250;

/// How many bytes are peeked at on a readable socket.
pub const PEEK_LEN: usize = 1;

/// The name of the watcher thread.
pub const WATCHER_THREAD_NAME: &'static str = "hydra-ad-hoc-hangup";

/// Why a poll failed.
#[derive(Debug, Clone, Copy, PartialEq, Eq, Structural)]
pub enum PollError {
    /// A signal arrived first (`EINTR`).
    Interrupted,
    /// Anything else, such as `EBADF` once the connection is closed.
    Other,
}

/// Why a peek failed.
#[derive(Debug, Clone, Copy, PartialEq, Eq, Structural)]
pub enum PeekError {
    /// There was nothing to read after all (`EAGAIN`).
    WouldBlock,
    /// Anything else.
    Other,
}

/// What came of an action of the watcher thread.
#[derive(Debug, Clone, Copy)]
pub enum WatchEvent {
    /// The stop flag, as it was read.
    StopFlag(bool),
    /// How many descriptors the poll reported.
    Polled(Result<i32, PollError>),
    /// How many bytes the peek saw.
    Peeked(Result<usize, PeekError>),
}

/// What the watcher thread does next.
#[derive(Debug, Clone, Copy, PartialEq, Eq, Structural)]
pub enum WatchAction {
    /// Read the stop flag.
    ReadStopFlag,
    /// Wait this long for the socket to become readable.
    Poll { timeout_ms: u16 },
    /// Peek this many bytes of the socket, consuming nothing.
    Peek { len: usize },
    /// Send `true` on the connection's `gone` channel, and end.
    SignalGone,
    /// End without a signal.
    Exit,
}

/// What the watcher thread is waiting for.
#[derive(Debug, Clone, Copy, PartialEq, Eq, Structural)]
pub enum WatchState {
    ReadingStopFlag,
    Polling,
    Peeking,
    Ended,
}

impl WatchState {
    /// Whether `event` answers the action that led to this state.
    pub open spec fn awaits(self, event: WatchEvent) -> bool {
        match event {
            WatchEvent::StopFlag(_) => self == WatchState::ReadingStopFlag,
            WatchEvent::Polled(_) => self == WatchState::Polling,
            WatchEvent::Peeked(_) => self == WatchState::Peeking,
        }
    }
}

/// What `event` makes the watcher do. Each outcome has one answer, in the only
/// state that awaits it.
pub open spec fn reaction(event: WatchEvent) -> WatchAction {
    match event {
        WatchEvent::StopFlag(stop) => if stop {
            WatchAction::Exit
        } else {
            WatchAction::Poll { timeout_ms: POLL_INTERVAL_MS }
        },
        WatchEvent::Polled(Ok(n)) => if n == 0 {
            WatchAction::ReadStopFlag
        } else {
            WatchAction::Peek { len: PEEK_LEN }
        },
        WatchEvent::Polled(Err(PollError::Interrupted)) => WatchAction::ReadStopFlag,
        WatchEvent::Polled(Err(PollError::Other)) => WatchAction::Exit,
        WatchEvent::Peeked(Ok(n)) => if n == 0 {
            WatchAction::SignalGone
        } else {
            WatchAction::Exit
        },
        WatchEvent::Peeked(Err(PeekError::WouldBlock)) => WatchAction::ReadStopFlag,
        WatchEvent::Peeked(Err(PeekError::Other)) => WatchAction::SignalGone,
    }
}

/// The state that an action leads to: the thread then waits for what the
/// action brings, or has ended.
pub open spec fn state_after(action: WatchAction) -> WatchState {
    match action {
        WatchAction::ReadStopFlag => WatchState::ReadingStopFlag,
        WatchAction::Poll { timeout_ms: _ } => WatchState::Polling,
        WatchAction::Peek { len: _ } => WatchState::Peeking,
        WatchAction::SignalGone => WatchState::Ended,
        WatchAction::Exit => WatchState::Ended,
    }
}

/// The loop of the watcher thread.
#[derive(Debug)]
pub struct HangupWatch {
    state: WatchState,
}

impl View for HangupWatch {
    type V = WatchState;

    closed spec fn view(&self) -> WatchState {
        self.state
    }
}

impl HangupWatch {
    /// A watch that is about to start; the thread's first action is the one
    /// returned.
    pub fn start() -> (res: (HangupWatch, WatchAction))
        ensures
            res.1 == WatchAction::ReadStopFlag,
            res.0@ == state_after(res.1),
    {
        (HangupWatch { state: WatchState::ReadingStopFlag }, WatchAction::ReadStopFlag)
    }

    /// Whether the watch has ended.
    pub fn ended(&self) -> (res: bool)
        ensures
            res == (self@ == WatchState::Ended),
    {
        self.state == WatchState::Ended
    }

    /// Takes the outcome of the last action and decides on the next one.
    pub fn watch_for_hangup(&mut self, event: WatchEvent) -> (action: WatchAction)
        requires
            old(self)@.awaits(event),
        ensures
            action == reaction(event),
            final(self)@ == state_after(action),
    {
        match event {
            WatchEvent::StopFlag(stop) => {
                if stop {
                    self.state = WatchState::Ended;
                    WatchAction::Exit
                } else {
                    self.state = WatchState::Polling;
                    WatchAction::Poll { timeout_ms: POLL_INTERVAL_MS }
                }
            },
            WatchEvent::Polled(polled) => {
                match polled {
                    Ok(0) => self.again(),
                    Ok(_) => {
                        self.state = WatchState::Peeking;
                        WatchAction::Peek { len: PEEK_LEN }
                    },
                    Err(PollError::Interrupted) => self.again(),
                    Err(PollError::Other) => {
                        self.state = WatchState::Ended;
                        WatchAction::Exit
                    },
                }
            },
            WatchEvent::Peeked(peeked) => {
                match peeked {
                    Ok(0) => {
                        self.state = WatchState::Ended;
                        WatchAction::SignalGone
                    },
                    // The client sent something mid-build, which the protocol
                    // does not do. Stop watching rather than spinning on a
                    // socket that stays readable.
                    Ok(_) => {
                        self.state = WatchState::Ended;
                        WatchAction::Exit
                    },
                    Err(PeekError::WouldBlock) => self.again(),
                    Err(PeekError::Other) => {
                        self.state = WatchState::Ended;
                        WatchAction::SignalGone
                    },
                }
            },
        }
    }

    fn again(&mut self) -> (action: WatchAction)
        ensures
            action == WatchAction::ReadStopFlag,
            final(self)@ == WatchState::ReadingStopFlag,
    {
        self.state = WatchState::ReadingStopFlag;
        WatchAction::ReadStopFlag
    }
}

/// What came of an attempt to start watching.
#[derive(Debug, Clone, Copy)]
pub enum SpawnEvent {
    /// Whether the client socket could be duplicated for the watcher.
    SocketDuplicated(bool),
    /// Whether the watcher thread could be started.
    ThreadStarted(bool),
}

/// What to do next to start watching.
#[derive(Debug)]
pub enum SpawnAction {
    /// Start the watcher thread on the duplicate.
    StartThread,
    /// Hand this watcher to the caller.
    Return(DisconnectWatcher),
}

/// The handle on a watcher thread: the thread ends once the handle is stopped.
#[derive(Debug)]
pub struct DisconnectWatcher {
    stop: bool,
}

impl View for DisconnectWatcher {
    type V = bool;

    /// Whether the watcher is stopped.
    closed spec fn view(&self) -> bool {
        self.stop
    }
}

impl DisconnectWatcher {
    /// Starts watching. Without a duplicate of the socket no thread is
    /// started; without a thread the watcher is stopped from the outset.
    pub fn spawn(event: SpawnEvent) -> (action: SpawnAction)
        ensures
            match event {
                SpawnEvent::SocketDuplicated(true) => action is StartThread,
                SpawnEvent::SocketDuplicated(false) => action matches SpawnAction::Return(w) && w@,
                SpawnEvent::ThreadStarted(started) => action matches SpawnAction::Return(w) && w@
                    == !started,
            },
    {
        match event {
            SpawnEvent::SocketDuplicated(true) => SpawnAction::StartThread,
            SpawnEvent::SocketDuplicated(false) => SpawnAction::Return(DisconnectWatcher::dead()),
            SpawnEvent::ThreadStarted(started) => {
                SpawnAction::Return(DisconnectWatcher { stop: !started })
            },
        }
    }

    /// A watcher that never fires, for connections whose socket could not be
    /// duplicated for watching.
    pub fn dead() -> (watcher: DisconnectWatcher)
        ensures
            watcher@,
    {
        DisconnectWatcher { stop: true }
    }

    /// Whether the watcher is stopped: the flag that its thread reads.
    pub fn stopped(&self) -> (res: bool)
        ensures
            res == self@,
    {
        self.stop
    }

    /// Stops the watcher, as dropping its handle does.
    pub fn stop(&mut self)
        ensures
            final(self)@,
    {
        self.stop = true;
    }
}

/// Whether `events` is an exchange that the watch can have from `state` on:
/// each event answers the action before it.
pub open spec fn exchange(state: WatchState, events: Seq<WatchEvent>) -> bool
    decreases events.len(),
{
    events.len() > 0 ==> state.awaits(events[0]) && exchange(
        state_after(reaction(events[0])),
        events.drop_first(),
    )
}

/// The action that each event is answered with.
pub open spec fn reactions(events: Seq<WatchEvent>) -> Seq<WatchAction> {
    events.map_values(|e: WatchEvent| reaction(e))
}

/// The state after `events`.
pub open spec fn state_at_end(state: WatchState, events: Seq<WatchEvent>) -> WatchState {
    if events.len() == 0 {
        state
    } else {
        state_after(reaction(events.last()))
    }
}

/// A round of the loop that brings no news of the client.
pub enum QuietRound {
    /// The poll timed out.
    NoTraffic,
    /// A signal interrupted the poll.
    Interrupted,
    /// The poll reported this many descriptors, but there was nothing to read.
    Spurious(i32),
}

impl QuietRound {
    pub open spec fn valid(self) -> bool {
        self matches QuietRound::Spurious(n) ==> n != 0
    }

    pub open spec fn events(self) -> Seq<WatchEvent> {
        match self {
            QuietRound::NoTraffic => seq![WatchEvent::StopFlag(false), WatchEvent::Polled(Ok(0))],
            QuietRound::Interrupted => seq![
                WatchEvent::StopFlag(false),
                WatchEvent::Polled(Err(PollError::Interrupted)),
            ],
            QuietRound::Spurious(n) => seq![
                WatchEvent::StopFlag(false),
                WatchEvent::Polled(Ok(n)),
                WatchEvent::Peeked(Err(PeekError::WouldBlock)),
            ],
        }
    }
}

/// The events of some quiet rounds, one after the other.
pub open spec fn quiet_events(rounds: Seq<QuietRound>) -> Seq<WatchEvent>
    decreases rounds.len(),
{
    if rounds.len() == 0 {
        Seq::empty()
    } else {
        rounds[0].events() + quiet_events(rounds.drop_first())
    }
}

/// The exchange in which the socket turns out readable and a peek brings `peeked`.
pub open spec fn readable_events(n: i32, peeked: Result<usize, PeekError>) -> Seq<WatchEvent> {
    seq![WatchEvent::StopFlag(false), WatchEvent::Polled(Ok(n)), WatchEvent::Peeked(peeked)]
}

proof fn lemma_exchange_append(state: WatchState, a: Seq<WatchEvent>, b: Seq<WatchEvent>)
    ensures
        exchange(state, a + b) <==> exchange(state, a) && exchange(state_at_end(state, a), b),
    decreases a.len(),
{
    if a.len() == 0 {
        assert(a + b =~= b);
    } else {
        let next = state_after(reaction(a[0]));
        lemma_exchange_append(next, a.drop_first(), b);
        assert((a + b).drop_first() =~= a.drop_first() + b);
        assert(state_at_end(next, a.drop_first()) == state_at_end(state, a));
    }
}

proof fn lemma_exchange_at(state: WatchState, events: Seq<WatchEvent>, i: int)
    requires
        exchange(state, events),
        0 <= i < events.len(),
    ensures
        state_at_end(state, events.take(i)).awaits(events[i]),
    decreases events.len(),
{
    let a = events.take(i);
    let b = events.skip(i);
    assert(events =~= a + b);
    lemma_exchange_append(state, a, b);
    assert(b[0] == events[i]);
}

/// The watcher says that the client is gone only on a zero-length peek or a
/// peek that failed for good, says it at most once, and then ends.
pub proof fn law_signal_means_hangup(events: Seq<WatchEvent>, i: int)
    requires
        exchange(WatchState::ReadingStopFlag, events),
        0 <= i < events.len(),
        reactions(events)[i] == WatchAction::SignalGone,
    ensures
        events[i] matches WatchEvent::Peeked(p) && (p == Ok::<usize, PeekError>(0) || p == Err::<
            usize,
            PeekError,
        >(PeekError::Other)),
        i == events.len() - 1,
{
    law_nothing_follows_the_end(events, i);
}

/// Once the watcher has ended, with a signal or without, it takes no further
/// event: a client that exits after sending data is not noticed any more.
pub proof fn law_nothing_follows_the_end(events: Seq<WatchEvent>, i: int)
    requires
        exchange(WatchState::ReadingStopFlag, events),
        0 <= i < events.len(),
        state_after(reactions(events)[i]) == WatchState::Ended,
    ensures
        i == events.len() - 1,
{
    if i + 1 < events.len() {
        lemma_exchange_at(WatchState::ReadingStopFlag, events, i + 1);
        assert(events.take(i + 1).last() == events[i]);
    }
}

/// The socket is polled only right after the stop flag was read as unset, and
/// peeked at only right after a poll found it readable.
pub proof fn law_stop_flag_guards_every_poll(events: Seq<WatchEvent>, i: int)
    requires
        exchange(WatchState::ReadingStopFlag, events),
        0 <= i < events.len(),
    ensures
        reactions(events)[i] is Poll ==> events[i] == WatchEvent::StopFlag(false),
        reactions(events)[i] is Peek ==> i > 0 && events[i - 1] == WatchEvent::StopFlag(false) && (
        events[i] matches WatchEvent::Polled(Ok(n)) && n != 0),
{
    if reactions(events)[i] is Peek {
        lemma_exchange_at(WatchState::ReadingStopFlag, events, i);
        assert(events.take(i).last() == events[i - 1]);
    }
}

/// A stopped watcher ends at its next look at the flag: whatever its thread
/// goes through from there on, it neither polls nor signals.
pub proof fn law_stopped_watcher_never_fires(watcher: DisconnectWatcher, events: Seq<WatchEvent>)
    requires
        watcher@,
        exchange(WatchState::ReadingStopFlag, events),
        events.len() > 0,
        events[0] == WatchEvent::StopFlag(watcher@),
    ensures
        reactions(events) == seq![WatchAction::Exit],
{
    law_nothing_follows_the_end(events, 0);
    assert(reactions(events) =~= seq![WatchAction::Exit]);
}

/// Timeouts, interrupted polls and spurious wakeups leave the watcher
/// watching, in any number and order, without a signal.
pub proof fn law_quiet_rounds_keep_watching(rounds: Seq<QuietRound>)
    requires
        forall|i: int| 0 <= i < rounds.len() ==> (#[trigger] rounds[i]).valid(),
    ensures
        exchange(WatchState::ReadingStopFlag, quiet_events(rounds)),
        state_at_end(WatchState::ReadingStopFlag, quiet_events(rounds))
            == WatchState::ReadingStopFlag,
        !reactions(quiet_events(rounds)).contains(WatchAction::SignalGone),
    decreases rounds.len(),
{
    reveal_with_fuel(exchange, 4);
    let start = WatchState::ReadingStopFlag;
    if rounds.len() > 0 {
        let first = rounds[0].events();
        let rest = quiet_events(rounds.drop_first());
        assert(rounds[0].valid());
        assert forall|i: int| 0 <= i < rounds.drop_first().len() implies (
        #[trigger] rounds.drop_first()[i]).valid() by {
            assert(rounds[i + 1].valid());
        }
        law_quiet_rounds_keep_watching(rounds.drop_first());
        assert(exchange(start, first) && state_at_end(start, first) == start);
        lemma_exchange_append(start, first, rest);
        let all = first + rest;
        assert(rest.len() > 0 ==> all.last() == rest.last());
        assert(rest.len() == 0 ==> all =~= first);
        assert forall|i: int| 0 <= i < all.len() implies reactions(all)[i]
            != WatchAction::SignalGone by {
            if i >= first.len() {
                let j = i - first.len();
                assert(all[i] == rest[j]);
                assert(reactions(all)[i] == reactions(rest)[j]);
                assert(reactions(rest).contains(reactions(rest)[j]));
            }
        }
    }
}

/// A client exit is detected: after any number of quiet rounds, a readable
/// socket with nothing to peek ends the watch with the signal.
pub proof fn law_client_exit_is_detected(rounds: Seq<QuietRound>, n: i32)
    requires
        forall|i: int| 0 <= i < rounds.len() ==> (#[trigger] rounds[i]).valid(),
        n != 0,
    ensures
        ({
            let events = quiet_events(rounds) + readable_events(n, Ok(0));
            &&& exchange(WatchState::ReadingStopFlag, events)
            &&& reactions(events).last() == WatchAction::SignalGone
        }),
{
    lemma_readable_after_quiet(rounds, n, Ok(0));
}

/// Traffic on the connection is no exit: after any number of quiet rounds,
/// data on the socket ends the watch, and no signal was given at any point.
pub proof fn law_data_is_no_exit(rounds: Seq<QuietRound>, n: i32, len: usize)
    requires
        forall|i: int| 0 <= i < rounds.len() ==> (#[trigger] rounds[i]).valid(),
        n != 0,
        len != 0,
    ensures
        ({
            let events = quiet_events(rounds) + readable_events(n, Ok(len));
            &&& exchange(WatchState::ReadingStopFlag, events)
            &&& reactions(events).last() == WatchAction::Exit
            &&& !reactions(events).contains(WatchAction::SignalGone)
        }),
{
    lemma_readable_after_quiet(rounds, n, Ok(len));
    let quiet = quiet_events(rounds);
    let events = quiet + readable_events(n, Ok(len));
    law_quiet_rounds_keep_watching(rounds);
    assert forall|i: int| 0 <= i < events.len() implies reactions(events)[i]
        != WatchAction::SignalGone by {
        if i < quiet.len() {
            assert(reactions(events)[i] == reactions(quiet)[i]);
            assert(reactions(quiet).contains(reactions(quiet)[i]));
        } else {
            assert(events[i] == readable_events(n, Ok(len))[i - quiet.len()]);
        }
    }
}

proof fn lemma_readable_after_quiet(
    rounds: Seq<QuietRound>,
    n: i32,
    peeked: Result<usize, PeekError>,
)
    requires
        forall|i: int| 0 <= i < rounds.len() ==> (#[trigger] rounds[i]).valid(),
        n != 0,
    ensures
        exchange(
            WatchState::ReadingStopFlag,
            quiet_events(rounds) + readable_events(n, peeked),
        ),
        (quiet_events(rounds) + readable_events(n, peeked)).last() == WatchEvent::Peeked(peeked),
{
    reveal_with_fuel(exchange, 4);
    law_quiet_rounds_keep_watching(rounds);
    let readable = readable_events(n, peeked);
    assert(exchange(WatchState::ReadingStopFlag, readable));
    lemma_exchange_append(WatchState::ReadingStopFlag, quiet_events(rounds), readable);
}

/// What makes the watcher do what: it says that the client is gone exactly when
/// a peek sees the end of the connection or fails for good; it gives up without
/// a word exactly when it is told to stop, when the poll fails for good or when
/// the client sent something; and what it sees of a quiet client makes it look
/// at the stop flag again before it waits a quarter of a second more.
pub proof fn law_watcher_acts_on_what_it_sees(
    watch: &mut HangupWatch,
    event: WatchEvent,
    action: WatchAction,
)
    requires
        call_ensures(HangupWatch::watch_for_hangup, (watch, event), action),
    ensures
        action is SignalGone <==> (event matches WatchEvent::Peeked(Ok(n)) && n == 0) || (
        event matches WatchEvent::Peeked(Err(PeekError::Other))),
        action is Exit <==> (event matches WatchEvent::StopFlag(stop) && stop) || (
        event matches WatchEvent::Polled(Err(PollError::Other))) || (
        event matches WatchEvent::Peeked(Ok(n)) && n > 0),
        action is Poll <==> (event matches WatchEvent::StopFlag(stop) && !stop),
        action matches WatchAction::Poll { timeout_ms } ==> timeout_ms == 250,
        action is Peek <==> (event matches WatchEvent::Polled(Ok(n)) && n != 0),
        action matches WatchAction::Peek { len } ==> len == 1,
        action is ReadStopFlag <==> (event matches WatchEvent::Polled(Ok(n)) && n == 0) || (
        event matches WatchEvent::Polled(Err(PollError::Interrupted))) || (
        event matches WatchEvent::Peeked(Err(PeekError::WouldBlock))),
{
}

/// The watcher first looks at the stop flag, and takes whatever it reads there.
pub proof fn law_watcher_starts_with_the_stop_flag(
    started: (HangupWatch, WatchAction),
    watch: &mut HangupWatch,
    ended: bool,
    stop: bool,
)
    requires
        call_ensures(HangupWatch::start, (), started),
        *old(watch) == started.0,
        call_ensures(HangupWatch::ended, (&started.0,), ended),
    ensures
        started.1 is ReadStopFlag,
        !ended,
        call_requires(HangupWatch::watch_for_hangup, (watch, WatchEvent::StopFlag(stop))),
{
}

/// The watcher takes whatever comes of the action that it asked for, and has
/// ended exactly when it signalled or gave up.
pub proof fn law_watcher_takes_what_its_action_brings(
    watch: &mut HangupWatch,
    event: WatchEvent,
    action: WatchAction,
    after: &HangupWatch,
    ended: bool,
    again: &mut HangupWatch,
    next: WatchEvent,
)
    requires
        call_ensures(HangupWatch::watch_for_hangup, (watch, event), action),
        *after == *final(watch),
        call_ensures(HangupWatch::ended, (after,), ended),
        *old(again) == *final(watch),
    ensures
        ended <==> action is SignalGone || action is Exit,
        (action is ReadStopFlag && next is StopFlag) || (action is Poll && next is Polled) || (
        action is Peek && next is Peeked) ==> call_requires(
            HangupWatch::watch_for_hangup,
            (again, next),
        ),
{
}

/// A watcher runs only where both the duplicate and the thread could be had;
/// otherwise it is stopped from the outset, as a dead one is.
pub proof fn law_watcher_runs_on_its_thread(
    duplicated: bool,
    first: SpawnAction,
    started: bool,
    second: SpawnAction,
    dead: &DisconnectWatcher,
    dead_stopped: bool,
    watcher: &DisconnectWatcher,
    stopped: bool,
)
    requires
        call_ensures(DisconnectWatcher::spawn, (SpawnEvent::SocketDuplicated(duplicated),), first),
        call_ensures(DisconnectWatcher::spawn, (SpawnEvent::ThreadStarted(started),), second),
        call_ensures(DisconnectWatcher::dead, (), *dead),
        call_ensures(DisconnectWatcher::stopped, (dead,), dead_stopped),
        (if duplicated { second } else { first }) == SpawnAction::Return(*watcher),
        call_ensures(DisconnectWatcher::stopped, (watcher,), stopped),
    ensures
        duplicated <==> first is StartThread,
        second is Return,
        stopped <==> !(duplicated && started),
        dead_stopped,
{
}

/// A watcher that was stopped stays silent: its thread reads the flag as set,
/// and exits.
pub proof fn law_stop_is_seen_by_the_thread(
    watcher: &mut DisconnectWatcher,
    after: &DisconnectWatcher,
    stopped: bool,
    watch: &mut HangupWatch,
    action: WatchAction,
)
    requires
        call_ensures(DisconnectWatcher::stop, (watcher,), ()),
        *after == *final(watcher),
        call_ensures(DisconnectWatcher::stopped, (after,), stopped),
        call_ensures(
            HangupWatch::watch_for_hangup,
            (watch, WatchEvent::StopFlag(stopped)),
            action,
        ),
    ensures
        stopped,
        action is Exit,
{
}

} // verus!
