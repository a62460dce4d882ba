//! Cancelling the builds of a client that is gone.
//!
//! A connection registers each build before its row is committed and removes
//! it once the build's fate is known. When the client exits, or the connection
//! ends for another reason, whatever is left is cancelled, so that the queue
//! runner stops building for a client that is no longer there.

use crate::hangup::{
    exchange, law_client_exit_is_detected, quiet_events, reactions, readable_events, QuietRound,
    WatchAction, WatchState,
};
use vstd::prelude::*;

verus! {

/// The id of a row of the `Builds` table.
pub type BuildID = i32;

/// What a receiver of the connection's `gone` channel learns.
#[derive(Debug, Clone, Copy)]
pub enum GoneEvent {
    /// The value that the channel holds on arrival.
    Current(bool),
    /// The channel changed, to this value.
    Changed(bool),
    /// Every sender is dropped.
    SendersDropped,
}

/// What comes of a wait for the client to be gone.
#[derive(Debug, Clone, Copy, PartialEq, Eq, Structural)]
pub enum GoneWait {
    /// Wait for the channel to change.
    AwaitChange,
    /// The wait is over; `true` if the client is gone.
    Resolved(bool),
}

/// Waits until the client is gone: a hangup watcher fired, or every sender
/// dropped, meaning that the connection ended for another reason.
pub fn wait_client_gone(event: GoneEvent) -> (wait: GoneWait)
    ensures
        wait == gone_wait(event),
{
    match event {
        GoneEvent::Current(gone) => {
            if gone {
                GoneWait::Resolved(true)
            } else {
                GoneWait::AwaitChange
            }
        },
        GoneEvent::Changed(gone) => GoneWait::Resolved(gone),
        GoneEvent::SendersDropped => GoneWait::Resolved(true),
    }
}

/// A channel that holds `true`, that changes or that has no sender left
/// settles the wait. The client counts as gone unless a change says `false`.
pub open spec fn gone_wait(event: GoneEvent) -> GoneWait {
    match event {
        GoneEvent::Current(false) => GoneWait::AwaitChange,
        GoneEvent::Changed(false) => GoneWait::Resolved(false),
        _ => GoneWait::Resolved(true),
    }
}

/// What a connection's canceller task does next.
#[derive(Debug, Clone, Copy, PartialEq, Eq, Structural)]
pub enum CancellerAction {
    /// Wait for the channel to change.
    AwaitChange,
    /// Cancel every tracked build, and end.
    CancelAll,
    /// End, leaving the tracked builds alone.
    End,
}

/// The canceller task of a connection: it fires once the wait for the client
/// is over and the client is gone.
pub fn canceller(event: GoneEvent) -> (action: CancellerAction)
    ensures
        action == canceller_action(event),
{
    match wait_client_gone(event) {
        GoneWait::AwaitChange => CancellerAction::AwaitChange,
        GoneWait::Resolved(true) => CancellerAction::CancelAll,
        GoneWait::Resolved(false) => CancellerAction::End,
    }
}

/// See [`canceller`].
pub open spec fn canceller_action(event: GoneEvent) -> CancellerAction {
    match gone_wait(event) {
        GoneWait::AwaitChange => CancellerAction::AwaitChange,
        GoneWait::Resolved(gone) => if gone {
            CancellerAction::CancelAll
        } else {
            CancellerAction::End
        },
    }
}

/// One act of cancelling what a connection left behind.
#[derive(Debug, Clone, Copy, PartialEq, Eq, Structural)]
pub enum CancelAct {
    /// Mark the build as cancelled. A failure leaves the row as it is and
    /// changes nothing about the acts that follow.
    Cancel(BuildID),
    /// Wake whoever waits for the build, in case the cancellation did not.
    Forget(BuildID),
}

/// The acts that cancel `ids`: each build in turn is cancelled, then forgotten.
pub open spec fn cancel_acts(ids: Seq<BuildID>) -> Seq<CancelAct> {
    Seq::new(
        2 * ids.len(),
        |i: int|
            if i % 2 == 0 {
                CancelAct::Cancel(ids[i / 2])
            } else {
                CancelAct::Forget(ids[i / 2])
            },
    )
}

/// Holds of every build but `id`.
pub open spec fn other_than(id: BuildID) -> spec_fn(BuildID) -> bool {
    |x: BuildID| x != id
}

/// The ids without any occurrence of `id`, in their order.
pub open spec fn without(ids: Seq<BuildID>, id: BuildID) -> Seq<BuildID> {
    ids.filter(other_than(id))
}

/// The builds that one connection has filed and that may still be unfinished,
/// in the order in which they were registered.
#[derive(Debug)]
pub struct InflightBuilds {
    ids: Vec<BuildID>,
}

impl View for InflightBuilds {
    type V = Seq<BuildID>;

    closed spec fn view(&self) -> Seq<BuildID> {
        self.ids@
    }
}

impl InflightBuilds {
    /// A registry that tracks no build.
    pub fn new() -> (builds: InflightBuilds)
        ensures
            builds@ == Seq::<BuildID>::empty(),
    {
        InflightBuilds { ids: Vec::new() }
    }

    /// Tracks `build_id` until its fate is known. To be called before the
    /// build's row is committed, so that a connection that dies in between
    /// cannot leave the build untracked.
    pub fn register(&mut self, build_id: BuildID)
        ensures
            final(self)@ == old(self)@.push(build_id),
    {
        self.ids.push(build_id);
    }

    /// The build's fate is known; nothing is left to cancel.
    pub fn remove(&mut self, build_id: BuildID)
        ensures
            final(self)@ == without(old(self)@, build_id),
    {
        let mut kept: Vec<BuildID> = Vec::new();
        let ghost keep = other_than(build_id);
        let ghost ids = self.ids@;
        let mut i: usize = 0;
        assert(ids.take(0).filter(keep) =~= Seq::empty()) by {
            reveal(Seq::filter);
        }
        while i < self.ids.len()
            invariant
                i <= self.ids.len(),
                self.ids@ == ids,
                keep == other_than(build_id),
                kept@ == ids.take(i as int).filter(keep),
            decreases self.ids.len() - i,
        {
            let id: BuildID = self.ids[i];
            proof {
                reveal(Seq::filter);
                assert(ids.take(i + 1).drop_last() =~= ids.take(i as int));
                assert(ids.take(i + 1).last() == id);
            }
            if id != build_id {
                kept.push(id);
            }
            i += 1;
        }
        assert(ids.take(i as int) =~= ids);
        self.ids = kept;
    }

    /// Takes every tracked build off the registry, to be cancelled.
    pub fn cancel_all(&mut self) -> (cancellation: Cancellation)
        ensures
            final(self)@ == Seq::<BuildID>::empty(),
            cancellation@ == cancel_acts(old(self)@),
    {
        let mut ids: Vec<BuildID> = Vec::new();
        ids.append(&mut self.ids);
        let cancellation = Cancellation { ids, next: 0, forget: false };
        assert(cancellation@ =~= cancel_acts(old(self)@));
        cancellation
    }

    /// How many builds are tracked.
    pub fn len(&self) -> (len: usize)
        ensures
            len == self@.len(),
    {
        self.ids.len()
    }
}

/// A cancellation under way; its view is the acts that are still to be done.
#[derive(Debug)]
pub struct Cancellation {
    ids: Vec<BuildID>,
    next: usize,
    forget: bool,
}

impl View for Cancellation {
    type V = Seq<CancelAct>;

    closed spec fn view(&self) -> Seq<CancelAct> {
        cancel_acts(self.ids@).skip(2 * self.next + if self.forget { 1int } else { 0 })
    }
}

impl Cancellation {
    #[verifier::type_invariant]
    spec fn well_formed(self) -> bool {
        &&& self.next <= self.ids@.len()
        &&& self.forget ==> self.next < self.ids@.len()
    }

    /// The next act, if there is one. It does not depend on how the acts
    /// before it went.
    pub fn next_act(&mut self) -> (act: Option<CancelAct>)
        ensures
            match act {
                Some(act) => old(self)@.len() > 0 && act == old(self)@[0] && final(self)@
                    == old(self)@.drop_first(),
                None => old(self)@.len() == 0 && final(self)@ == old(self)@,
            },
    {
        proof {
            use_type_invariant(&*self);
        }
        let next: usize = self.next;
        if next >= self.ids.len() {
            return None;
        }
        let id: BuildID = self.ids[next];
        if self.forget {
            self.forget = false;
            self.next = next + 1;
            assert(self@ =~= old(self)@.drop_first());
            Some(CancelAct::Forget(id))
        } else {
            self.forget = true;
            assert(self@ =~= old(self)@.drop_first());
            Some(CancelAct::Cancel(id))
        }
    }
}

/// The canceller fires exactly when a hangup watcher said that the client is
/// gone, now or by a change, or when no sender of the channel is left.
pub proof fn law_canceller_fires_when_client_is_gone(event: GoneEvent)
    ensures
        canceller_action(event) == CancellerAction::CancelAll <==> (event == GoneEvent::Current(
            true,
        ) || event == GoneEvent::Changed(true) || event == GoneEvent::SendersDropped),
        canceller_action(event) == CancellerAction::AwaitChange <==> event == GoneEvent::Current(
            false,
        ),
{
}

/// What is cancelled, and what is forgotten, is what was tracked: no build is
/// missed and no other build is touched.
pub proof fn law_tracked_builds_are_cancelled(ids: Seq<BuildID>, id: BuildID)
    ensures
        cancel_acts(ids).contains(CancelAct::Cancel(id)) <==> ids.contains(id),
        cancel_acts(ids).contains(CancelAct::Forget(id)) <==> ids.contains(id),
{
    let acts = cancel_acts(ids);
    if ids.contains(id) {
        let k = choose|k: int| 0 <= k < ids.len() && ids[k] == id;
        assert(acts[2 * k] == CancelAct::Cancel(id));
        assert(acts[2 * k + 1] == CancelAct::Forget(id));
    }
    if acts.contains(CancelAct::Cancel(id)) {
        let i = choose|i: int| 0 <= i < acts.len() && acts[i] == CancelAct::Cancel(id);
        assert(ids[i / 2] == id);
    }
    if acts.contains(CancelAct::Forget(id)) {
        let i = choose|i: int| 0 <= i < acts.len() && acts[i] == CancelAct::Forget(id);
        assert(ids[i / 2] == id);
    }
}

/// Each cancellation is followed at once by waking the build's waiters, and
/// builds are taken in the order in which they were registered.
pub proof fn law_cancel_then_forget(ids: Seq<BuildID>, k: int)
    requires
        0 <= k < ids.len(),
    ensures
        cancel_acts(ids)[2 * k] == CancelAct::Cancel(ids[k]),
        cancel_acts(ids)[2 * k + 1] == CancelAct::Forget(ids[k]),
{
}

/// A registry that tracks nothing has nothing to cancel.
pub proof fn law_empty_registry_is_quiet()
    ensures
        cancel_acts(Seq::empty()) == Seq::<CancelAct>::empty(),
{
    assert(cancel_acts(Seq::empty()) =~= Seq::<CancelAct>::empty());
}

/// A removed build is not cancelled, however often it was registered, and
/// every other build still is.
pub proof fn law_removed_builds_are_not_cancelled(ids: Seq<BuildID>, id: BuildID, other: BuildID)
    ensures
        !cancel_acts(without(ids, id)).contains(CancelAct::Cancel(id)),
        other != id ==> (cancel_acts(without(ids, id)).contains(CancelAct::Cancel(other))
            <==> ids.contains(other)),
{
    let keep = other_than(id);
    law_tracked_builds_are_cancelled(without(ids, id), id);
    law_tracked_builds_are_cancelled(without(ids, id), other);
    lemma_filter_contains(ids, keep, id);
    lemma_filter_contains(ids, keep, other);
}

/// Removing a build undoes its registration.
pub proof fn law_remove_undoes_register(ids: Seq<BuildID>, id: BuildID)
    requires
        !ids.contains(id),
    ensures
        without(ids.push(id), id) == ids,
{
    let keep = other_than(id);
    reveal(Seq::filter);
    assert(ids.push(id).drop_last() =~= ids);
    lemma_filter_all(ids, keep);
}

/// Builds are removed independently of each other, and once is enough.
pub proof fn law_removals_commute(ids: Seq<BuildID>, a: BuildID, b: BuildID)
    ensures
        without(without(ids, a), b) == without(without(ids, b), a),
        without(without(ids, a), a) == without(ids, a),
    decreases ids.len(),
{
    reveal(Seq::filter);
    if ids.len() > 0 {
        let front = ids.drop_last();
        let last = ids.last();
        law_removals_commute(front, a, b);
        assert(without(front, a).push(last).drop_last() =~= without(front, a));
        assert(without(front, b).push(last).drop_last() =~= without(front, b));
    }
}

/// A change to a registry.
pub enum RegistryChange {
    Register(BuildID),
    Remove(BuildID),
}

/// What a registry tracks after `changes`, having tracked nothing before.
pub open spec fn tracked_after(changes: Seq<RegistryChange>) -> Seq<BuildID>
    decreases changes.len(),
{
    if changes.len() == 0 {
        Seq::empty()
    } else {
        let before = tracked_after(changes.drop_last());
        match changes.last() {
            RegistryChange::Register(id) => before.push(id),
            RegistryChange::Remove(id) => without(before, id),
        }
    }
}

/// Whether a build's fate is still open after `changes`: it was registered
/// and has not been removed since.
pub open spec fn open_after(changes: Seq<RegistryChange>, id: BuildID) -> bool {
    exists|i: int|
        0 <= i < changes.len() && #[trigger] changes[i] == RegistryChange::Register(id) && forall|
            j: int,
        |
            i < j < changes.len() ==> #[trigger] changes[j] != RegistryChange::Remove(id)
}

/// At any time a registry tracks exactly the builds whose fate is open, and so
/// these are what a client that exits at that time has cancelled.
pub proof fn law_registry_tracks_open_builds(changes: Seq<RegistryChange>, id: BuildID)
    ensures
        tracked_after(changes).contains(id) <==> open_after(changes, id),
        cancel_acts(tracked_after(changes)).contains(CancelAct::Cancel(id)) <==> open_after(
            changes,
            id,
        ),
    decreases changes.len(),
{
    law_tracked_builds_are_cancelled(tracked_after(changes), id);
    if changes.len() > 0 {
        let front = changes.drop_last();
        let n = changes.len() - 1;
        let before = tracked_after(front);
        law_registry_tracks_open_builds(front, id);
        assert(forall|j: int| 0 <= j < n ==> front[j] == changes[j]);
        assert(changes.last() == changes[n]);
        if open_after(front, id) && changes[n] != RegistryChange::Remove(id) {
            let i = choose|i: int|
                0 <= i < front.len() && #[trigger] front[i] == RegistryChange::Register(id)
                    && forall|j: int|
                    i < j < front.len() ==> #[trigger] front[j] != RegistryChange::Remove(id);
            assert(changes[i] == RegistryChange::Register(id));
            assert forall|j: int| i < j < changes.len() implies #[trigger] changes[j]
                != RegistryChange::Remove(id) by {
                if j < n {
                    assert(front[j] != RegistryChange::Remove(id));
                }
            }
        }
        if open_after(changes, id) {
            let i = choose|i: int|
                0 <= i < changes.len() && #[trigger] changes[i] == RegistryChange::Register(id)
                    && forall|j: int|
                    i < j < changes.len() ==> #[trigger] changes[j] != RegistryChange::Remove(id);
            if i < n {
                assert(changes[n] != RegistryChange::Remove(id));
                assert(front[i] == RegistryChange::Register(id));
                assert(open_after(front, id));
            }
        }
        match changes[n] {
            RegistryChange::Register(other) => {
                lemma_push_contains(before, other, id);
            },
            RegistryChange::Remove(other) => {
                lemma_filter_contains(before, other_than(other), id);
            },
        }
    }
}

/// A client that exits has its unfinished builds cancelled: after any number
/// of quiet rounds the hangup is detected and signalled, the signal makes the
/// canceller fire, before or after it began to wait, and what it cancels is
/// what is tracked.
pub proof fn law_client_exit_cancels_tracked_builds(
    rounds: Seq<QuietRound>,
    n: i32,
    ids: Seq<BuildID>,
    id: BuildID,
)
    requires
        forall|i: int| 0 <= i < rounds.len() ==> (#[trigger] rounds[i]).valid(),
        n != 0,
    ensures
        ({
            let events = quiet_events(rounds) + readable_events(n, Ok(0));
            &&& exchange(WatchState::ReadingStopFlag, events)
            &&& reactions(events).last() == WatchAction::SignalGone
        }),
        canceller_action(GoneEvent::Changed(true)) == CancellerAction::CancelAll,
        canceller_action(GoneEvent::Current(true)) == CancellerAction::CancelAll,
        cancel_acts(ids).contains(CancelAct::Cancel(id)) <==> ids.contains(id),
{
    law_client_exit_is_detected(rounds, n);
    law_tracked_builds_are_cancelled(ids, id);
}

/// The wait for the client is over once the channel holds `true`, changes, or
/// has lost its senders; the client is then gone unless the change said
/// otherwise.
pub proof fn law_wait_ends_when_client_is_gone(event: GoneEvent, wait: GoneWait)
    requires
        call_ensures(wait_client_gone, (event,), wait),
    ensures
        wait is AwaitChange <==> (event matches GoneEvent::Current(gone) && !gone),
        wait == GoneWait::Resolved(false) <==> (event matches GoneEvent::Changed(gone) && !gone),
        event matches GoneEvent::Current(gone) && gone ==> wait == GoneWait::Resolved(true),
        event matches GoneEvent::Changed(gone) && gone ==> wait == GoneWait::Resolved(true),
        event is SendersDropped ==> wait == GoneWait::Resolved(true),
{
}

/// The canceller waits as long as [`wait_client_gone`] does, and then cancels
/// everything if and only if the client is gone.
pub proof fn law_canceller_follows_the_wait(
    event: GoneEvent,
    wait: GoneWait,
    action: CancellerAction,
)
    requires
        call_ensures(wait_client_gone, (event,), wait),
        call_ensures(canceller, (event,), action),
    ensures
        action is AwaitChange <==> wait is AwaitChange,
        action is CancelAll <==> wait == GoneWait::Resolved(true),
        action is End <==> wait == GoneWait::Resolved(false),
{
}

/// A registry starts out empty, and a build that is registered comes behind
/// those that were registered before it.
pub proof fn law_register_adds_at_the_end(
    empty: &InflightBuilds,
    len: usize,
    builds: &mut InflightBuilds,
    id: BuildID,
)
    requires
        call_ensures(InflightBuilds::new, (), *empty),
        call_ensures(InflightBuilds::len, (empty,), len),
        call_ensures(InflightBuilds::register, (builds, id), ()),
    ensures
        len == 0,
        empty@.len() == 0,
        final(builds)@.len() == old(builds)@.len() + 1,
        final(builds)@.last() == id,
        forall|k: int| 0 <= k < old(builds)@.len() ==> final(builds)@[k] == old(builds)@[k],
{
}

/// Removing a build goes through the registry build by build: of two
/// registries that differ in one build at the end, that build makes no
/// difference if it is the removed one, and else stays at the end. Of nothing,
/// nothing is left.
pub proof fn law_remove_goes_build_by_build(
    shorter: &mut InflightBuilds,
    longer: &mut InflightBuilds,
    last: BuildID,
    id: BuildID,
)
    requires
        old(longer)@ == old(shorter)@.push(last),
        call_ensures(InflightBuilds::remove, (shorter, id), ()),
        call_ensures(InflightBuilds::remove, (longer, id), ()),
    ensures
        last == id ==> final(longer)@ == final(shorter)@,
        last != id ==> final(longer)@ == final(shorter)@.push(last),
        old(shorter)@.len() == 0 ==> final(shorter)@.len() == 0,
{
    reveal(Seq::filter);
    assert(longer@.drop_last() =~= shorter@);
}

/// After a removal the build is not tracked, however often it was registered,
/// and every other build is tracked if it was before.
pub proof fn law_removed_build_is_not_tracked(
    builds: &mut InflightBuilds,
    id: BuildID,
    other: BuildID,
)
    requires
        call_ensures(InflightBuilds::remove, (builds, id), ()),
    ensures
        !final(builds)@.contains(id),
        other != id ==> (final(builds)@.contains(other) <==> old(builds)@.contains(other)),
{
    lemma_filter_contains(builds@, other_than(id), id);
    lemma_filter_contains(builds@, other_than(id), other);
}

/// Cancelling everything takes every build off the registry, and cancels and
/// then forgets each once per registration, in the order of registration;
/// nothing else is done.
pub proof fn law_cancel_all_takes_every_build(
    before: &InflightBuilds,
    held: usize,
    builds: &mut InflightBuilds,
    cancellation: Cancellation,
    after: &InflightBuilds,
    left: usize,
)
    requires
        *before == *old(builds),
        call_ensures(InflightBuilds::len, (before,), held),
        call_ensures(InflightBuilds::cancel_all, (builds,), cancellation),
        *after == *final(builds),
        call_ensures(InflightBuilds::len, (after,), left),
    ensures
        left == 0,
        held == old(builds)@.len(),
        cancellation@.len() == 2 * held,
        forall|k: int|
            #![trigger old(builds)@[k]]
            0 <= k < old(builds)@.len() ==> cancellation@[2 * k] == CancelAct::Cancel(
                old(builds)@[k],
            ) && cancellation@[2 * k + 1] == CancelAct::Forget(old(builds)@[k]),
{
}

/// The acts of a cancellation are handed out from the first to the last, each
/// once.
pub proof fn law_acts_are_handed_out_in_order(
    cancellation: &mut Cancellation,
    act: Option<CancelAct>,
)
    requires
        call_ensures(Cancellation::next_act, (cancellation,), act),
    ensures
        old(cancellation)@.len() == 0 ==> act is None && final(cancellation)@.len() == 0,
        old(cancellation)@.len() > 0 ==> {
            &&& act == Some(old(cancellation)@[0])
            &&& final(cancellation)@.len() == old(cancellation)@.len() - 1
            &&& forall|k: int|
                0 <= k < final(cancellation)@.len() ==> #[trigger] final(cancellation)@[k] == old(
                    cancellation,
                )@[k + 1]
        },
{
}

proof fn lemma_filter_contains(ids: Seq<BuildID>, keep: spec_fn(BuildID) -> bool, id: BuildID)
    ensures
        ids.filter(keep).contains(id) <==> ids.contains(id) && keep(id),
    decreases ids.len(),
{
    reveal(Seq::filter);
    if ids.len() > 0 {
        let front = ids.drop_last();
        lemma_filter_contains(front, keep, id);
        assert(ids =~= front.push(ids.last()));
        lemma_push_contains(front, ids.last(), id);
        lemma_push_contains(front.filter(keep), ids.last(), id);
    }
}

proof fn lemma_push_contains(ids: Seq<BuildID>, last: BuildID, id: BuildID)
    ensures
        ids.push(last).contains(id) <==> ids.contains(id) || last == id,
{
    assert(ids.push(last)[ids.len() as int] == last);
    if ids.contains(id) {
        let k = choose|k: int| 0 <= k < ids.len() && ids[k] == id;
        assert(ids.push(last)[k] == id);
    }
}

proof fn lemma_filter_all(ids: Seq<BuildID>, keep: spec_fn(BuildID) -> bool)
    requires
        forall|i: int| 0 <= i < ids.len() ==> keep(#[trigger] ids[i]),
    ensures
        ids.filter(keep) == ids,
    decreases ids.len(),
{
    reveal(Seq::filter);
    if ids.len() > 0 {
        lemma_filter_all(ids.drop_last(), keep);
        assert(keep(ids[ids.len() - 1]));
        assert(ids =~= ids.drop_last().push(ids.last()));
    }
}

} // verus!
