use hydra_services::hangup::{
    DisconnectWatcher, HangupWatch, PeekError, PollError, SpawnAction, SpawnEvent, WatchAction,
    WatchEvent, PEEK_LEN, POLL_INTERVAL_MS, WATCHER_THREAD_NAME,
};
use hydra_services::inflight::{
    canceller, wait_client_gone, CancelAct, CancellerAction, GoneEvent, GoneWait, InflightBuilds,
};

/// The daemon's end of a connection.
struct Daemon {
    /// What the client sent and nobody has read.
    unread: Vec<u8>,
    /// Whether the client's end is closed.
    closed: bool,
    /// What the next polls and peeks fail with, before the socket is looked at.
    poll_errors: Vec<PollError>,
    peek_errors: Vec<PeekError>,
}

impl Daemon {
    fn new() -> Daemon {
        Daemon { unread: Vec::new(), closed: false, poll_errors: Vec::new(), peek_errors: Vec::new() }
    }

    fn poll(&mut self) -> Result<i32, PollError> {
        if let Some(e) = self.poll_errors.pop() {
            return Err(e);
        }
        let ready = self.closed || !self.unread.is_empty() || !self.peek_errors.is_empty();
        Ok(i32::from(ready))
    }

    fn peek(&mut self, len: usize) -> Result<usize, PeekError> {
        if let Some(e) = self.peek_errors.pop() {
            return Err(e);
        }
        Ok(self.unread.len().min(len))
    }
}

/// A watch of a connection for at most `rounds` polls: whether it signalled
/// that the client is gone, once it ended.
fn watch(daemon: &mut Daemon, watcher: &DisconnectWatcher, rounds: usize) -> Option<bool> {
    let (mut watch, mut action) = HangupWatch::start();
    let mut polls = 0;
    loop {
        let event = match action {
            WatchAction::ReadStopFlag => WatchEvent::StopFlag(watcher.stopped()),
            WatchAction::Poll { timeout_ms } => {
                assert_eq!(timeout_ms, 250);
                if polls == rounds {
                    assert!(!watch.ended());
                    return None;
                }
                polls += 1;
                WatchEvent::Polled(daemon.poll())
            }
            WatchAction::Peek { len } => {
                assert_eq!(len, 1);
                WatchEvent::Peeked(daemon.peek(len))
            }
            WatchAction::SignalGone => {
                assert!(watch.ended());
                return Some(true);
            }
            WatchAction::Exit => {
                assert!(watch.ended());
                return Some(false);
            }
        };
        action = watch.watch_for_hangup(event);
    }
}

fn running() -> DisconnectWatcher {
    match DisconnectWatcher::spawn(SpawnEvent::ThreadStarted(true)) {
        SpawnAction::Return(watcher) => watcher,
        SpawnAction::StartThread => panic!("the thread runs already"),
    }
}

#[test]
fn detects_client_exit() {
    let mut daemon = Daemon::new();
    daemon.closed = true;
    assert_eq!(watch(&mut daemon, &running(), 20), Some(true));
}

#[test]
fn quiet_while_client_is_alive() {
    let mut daemon = Daemon::new();
    // Traffic on the connection without a hangup must not fire.
    daemon.unread.extend_from_slice(b"hello");
    assert_eq!(watch(&mut daemon, &running(), 3), Some(false));
    // Peeking left the bytes alone.
    assert_eq!(daemon.unread, b"hello");

    // The watcher stopped on the data, and stays stopped: it is not waiting
    // for anything that the client exiting afterwards could tell it.
    let (mut watch, _) = HangupWatch::start();
    watch.watch_for_hangup(WatchEvent::StopFlag(false));
    watch.watch_for_hangup(WatchEvent::Polled(daemon.poll()));
    let action = watch.watch_for_hangup(WatchEvent::Peeked(daemon.peek(1)));
    assert_eq!(action, WatchAction::Exit);
    daemon.closed = true;
    assert!(watch.ended());
}

#[test]
fn watches_on_while_client_is_silent() {
    let mut daemon = Daemon::new();
    assert_eq!(watch(&mut daemon, &running(), 7), None);
}

#[test]
fn transient_failures_do_not_end_the_watch() {
    let mut daemon = Daemon::new();
    daemon.poll_errors.push(PollError::Interrupted);
    daemon.peek_errors.push(PeekError::WouldBlock);
    daemon.closed = true;
    assert_eq!(watch(&mut daemon, &running(), 20), Some(true));
    assert!(daemon.poll_errors.is_empty() && daemon.peek_errors.is_empty());
}

#[test]
fn failed_poll_ends_without_signal_and_failed_peek_with_one() {
    let mut daemon = Daemon::new();
    daemon.closed = true;
    daemon.poll_errors.push(PollError::Other);
    assert_eq!(watch(&mut daemon, &running(), 20), Some(false));

    let mut daemon = Daemon::new();
    daemon.peek_errors.push(PeekError::Other);
    assert_eq!(watch(&mut daemon, &running(), 20), Some(true));
}

#[test]
fn stopped_watchers_never_fire() {
    let mut daemon = Daemon::new();
    daemon.closed = true;
    assert_eq!(watch(&mut daemon, &DisconnectWatcher::dead(), 20), Some(false));

    let mut watcher = running();
    assert!(!watcher.stopped());
    watcher.stop();
    assert!(watcher.stopped());
    assert_eq!(watch(&mut daemon, &watcher, 20), Some(false));
}

#[test]
fn spawning_stops_at_the_first_failure() {
    assert!(matches!(
        DisconnectWatcher::spawn(SpawnEvent::SocketDuplicated(true)),
        SpawnAction::StartThread
    ));
    for event in [SpawnEvent::SocketDuplicated(false), SpawnEvent::ThreadStarted(false)] {
        match DisconnectWatcher::spawn(event) {
            SpawnAction::Return(watcher) => assert!(watcher.stopped()),
            SpawnAction::StartThread => panic!("nothing is left to start"),
        }
    }
}

#[test]
fn watch_constants() {
    assert_eq!(POLL_INTERVAL_MS, 250);
    assert_eq!(PEEK_LEN, 1);
    assert_eq!(WATCHER_THREAD_NAME, "hydra-ad-hoc-hangup");
}

#[test]
fn waits_for_the_channel() {
    assert_eq!(wait_client_gone(GoneEvent::Current(true)), GoneWait::Resolved(true));
    assert_eq!(wait_client_gone(GoneEvent::Current(false)), GoneWait::AwaitChange);
    assert_eq!(wait_client_gone(GoneEvent::Changed(true)), GoneWait::Resolved(true));
    assert_eq!(wait_client_gone(GoneEvent::Changed(false)), GoneWait::Resolved(false));
    assert_eq!(wait_client_gone(GoneEvent::SendersDropped), GoneWait::Resolved(true));
}

#[test]
fn canceller_fires_when_client_is_gone() {
    assert_eq!(canceller(GoneEvent::Current(false)), CancellerAction::AwaitChange);
    assert_eq!(canceller(GoneEvent::Current(true)), CancellerAction::CancelAll);
    assert_eq!(canceller(GoneEvent::Changed(true)), CancellerAction::CancelAll);
    assert_eq!(canceller(GoneEvent::Changed(false)), CancellerAction::End);
    assert_eq!(canceller(GoneEvent::SendersDropped), CancellerAction::CancelAll);
}

fn acts(inflight: &mut InflightBuilds) -> Vec<CancelAct> {
    let mut cancellation = inflight.cancel_all();
    let mut acts = Vec::new();
    while let Some(act) = cancellation.next_act() {
        acts.push(act);
    }
    assert_eq!(cancellation.next_act(), None);
    acts
}

#[test]
fn cancels_in_order_of_registration() {
    let mut inflight = InflightBuilds::new();
    for id in [30, 10, 20] {
        inflight.register(id);
    }
    assert_eq!(inflight.len(), 3);
    assert_eq!(
        acts(&mut inflight),
        vec![
            CancelAct::Cancel(30),
            CancelAct::Forget(30),
            CancelAct::Cancel(10),
            CancelAct::Forget(10),
            CancelAct::Cancel(20),
            CancelAct::Forget(20),
        ]
    );
    // The registry was emptied.
    assert_eq!(inflight.len(), 0);
    assert_eq!(acts(&mut inflight), vec![]);
}

#[test]
fn removal_takes_every_occurrence() {
    let mut inflight = InflightBuilds::new();
    for id in [1, 2, 1, 3, 1] {
        inflight.register(id);
    }
    inflight.remove(1);
    inflight.remove(7);
    assert_eq!(
        acts(&mut inflight),
        vec![
            CancelAct::Cancel(2),
            CancelAct::Forget(2),
            CancelAct::Cancel(3),
            CancelAct::Forget(3),
        ]
    );
}

#[test]
fn removal_undoes_registration() {
    let mut inflight = InflightBuilds::new();
    inflight.register(5);
    inflight.register(6);
    inflight.remove(6);
    assert_eq!(acts(&mut inflight), vec![CancelAct::Cancel(5), CancelAct::Forget(5)]);
}

#[test]
fn a_build_registered_again_is_tracked_again() {
    let mut inflight = InflightBuilds::new();
    inflight.register(5);
    inflight.remove(5);
    assert_eq!(inflight.len(), 0);
    inflight.register(5);
    assert_eq!(acts(&mut inflight), vec![CancelAct::Cancel(5), CancelAct::Forget(5)]);
}
