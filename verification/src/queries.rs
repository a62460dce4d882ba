//! The daemon's own reads and writes of Hydra's `Builds` table.
//!
//! The database is reached from elsewhere. This module says which statement
//! comes next, with which values, and what becomes of each reply. `E` is the
//! error of the database connection throughout.

use crate::clock::{
    clock_reading, current_second, law_clock_reading_comes_from_the_clock, MAX_SECOND, MIN_SECOND,
};
use crate::inflight::BuildID;
use crate::outputs::{
    has_path, lemma_first_failing_row, lemma_no_failing_row, lemma_outputs_of_rows,
    outputs_collected, parses_as, read_outputs, row_error, row_names, rows_parsed, OutputMap,
    OutputRow, ParsedOutput,
};
use crate::table::{
    distinct_ids, law_cancelled_build_is_read_back, law_cancelled_ids_are_the_cancelled_rows,
    lemma_nothing_selected, select_finished_build, BuildRow, CancelRequest, CancelStatement, FinishedRow,
};
use crate::text::{
    decimal, decimal_text, law_decimal_text_injective, law_decimal_text_reads_back, read_number,
    writes,
};
use vstd::pervasive::unreached;
use vstd::prelude::*;

verus! {

/// Reads the row of a finished build. `$1` is the build's id.
pub const FINISHED_BUILD_SQL: &'static str =
    "SELECT buildStatus, startTime, stopTime FROM builds WHERE id = $1 AND finished = 1";

/// Reads the outputs of a build. `$1` is the build's id.
pub const BUILD_OUTPUTS_SQL: &'static str =
    "SELECT name, path FROM buildoutputs WHERE build = $1 AND path IS NOT NULL";

/// Reads which builds are finished. `$1` is the ids to look among.
pub const FINISHED_IDS_SQL: &'static str =
    "SELECT id FROM builds WHERE id = ANY($1) AND finished = 1";

/// Performs a [`CancelStatement`]: `$1` is its ids, `$2` its status and `$3`
/// its time.
pub const CANCEL_SQL: &'static str =
    "UPDATE Builds SET finished = 1, buildStatus = $2, startTime = $3, stopTime = $3 WHERE id = ANY($1) AND finished = 0 RETURNING id";

/// Tells whoever listens that a build is finished. `$1` is the payload.
pub const NOTIFY_SQL: &'static str = "SELECT pg_notify('build_finished', $1::text)";

// --- finished builds -------------------------------------------------------

/// A build that the queue runner has finished, as the daemon reports it back
/// to the client. `S` is the type of build statuses.
#[derive(Debug)]
pub struct FinishedBuild<S> {
    pub status: S,
    pub start_time: Option<i64>,
    pub stop_time: Option<i64>,
    /// Empty for a failed build.
    pub outputs: OutputMap,
}

/// A finished build whose outputs are still to be read.
#[derive(Debug)]
pub struct OutputLookup<S> {
    pub build_id: BuildID,
    pub status: S,
    pub start_time: Option<i64>,
    pub stop_time: Option<i64>,
}

/// What comes after the row of a build was asked for.
#[derive(Debug)]
pub enum RowOutcome<S, E> {
    /// Nothing more is to be read; this is the result.
    Return(Result<Option<FinishedBuild<S>>, E>),
    /// The outputs of the build are to be read.
    ReadOutputs(OutputLookup<S>),
}

/// Whether `outcome` is what becomes of a build's row whose status decodes to
/// `status`. A status that cannot be decoded counts as unfinished.
pub open spec fn row_decoded<S, E>(
    build_id: BuildID,
    row: FinishedRow,
    status: Option<S>,
    outcome: RowOutcome<S, E>,
) -> bool {
    match status {
        None => outcome == RowOutcome::<S, E>::Return(Ok(None)),
        Some(status) => outcome == RowOutcome::<S, E>::ReadOutputs(
            OutputLookup {
                build_id,
                status,
                start_time: row.start_time,
                stop_time: row.stop_time,
            },
        ),
    }
}

/// The first half of looking up a finished build: what becomes of the reply to
/// [`FINISHED_BUILD_SQL`] for `build_id`. There is no row while the build is
/// unfinished.
pub fn get_finished_build<S, E, D>(
    build_id: BuildID,
    reply: Result<Option<FinishedRow>, E>,
    decode: D,
) -> (outcome: RowOutcome<S, E>) where D: FnOnce(i32) -> Option<S>
    requires
        forall|code: i32| #[trigger] decode.requires((code,)),
    ensures
        match reply {
            Err(e) => outcome == RowOutcome::<S, E>::Return(Err(e)),
            Ok(None) => outcome == RowOutcome::<S, E>::Return(Ok(None)),
            Ok(Some(row)) => match row.build_status {
                None => row_decoded(build_id, row, None, outcome),
                Some(code) => exists|status: Option<S>| #[trigger]
                    decode.ensures((code,), status) && row_decoded(build_id, row, status, outcome),
            },
        },
{
    match reply {
        Err(e) => RowOutcome::Return(Err(e)),
        Ok(None) => RowOutcome::Return(Ok(None)),
        Ok(Some(row)) => {
            let status: Option<S> = match row.build_status {
                None => None,
                Some(code) => decode(code),
            };
            match status {
                None => RowOutcome::Return(Ok(None)),
                Some(status) => RowOutcome::ReadOutputs(
                    OutputLookup {
                        build_id,
                        status,
                        start_time: row.start_time,
                        stop_time: row.stop_time,
                    },
                ),
            }
        },
    }
}

impl<S> OutputLookup<S> {
    /// Whether `res` reports this build with `outputs`.
    pub open spec fn reported<E>(
        self,
        outputs: Result<OutputMap, E>,
        res: Result<Option<FinishedBuild<S>>, E>,
    ) -> bool {
        match outputs {
            Err(e) => res == Err::<Option<FinishedBuild<S>>, E>(e),
            Ok(outputs) => res == Ok::<Option<FinishedBuild<S>>, E>(
                Some(
                    FinishedBuild {
                        status: self.status,
                        start_time: self.start_time,
                        stop_time: self.stop_time,
                        outputs,
                    },
                ),
            ),
        }
    }

    /// The second half of looking up a finished build: what becomes of the
    /// reply to [`BUILD_OUTPUTS_SQL`] for this build.
    pub fn finish<E, N, P>(
        self,
        reply: Result<Vec<OutputRow>, E>,
        parse_name: N,
        parse_path: P,
    ) -> (res: Result<Option<FinishedBuild<S>>, E>) where
        N: Fn(String) -> Result<String, E>,
        P: Fn(String) -> Result<String, E>,

        requires
            forall|text: String| #[trigger] parse_name.requires((text,)),
            forall|text: String| #[trigger] parse_path.requires((text,)),
        ensures
            match reply {
                Err(e) => res == Err::<Option<FinishedBuild<S>>, E>(e),
                Ok(rows) => exists|
                    parsed: Seq<ParsedOutput<E>>,
                    outputs: Result<OutputMap, E>,
                | #[trigger]
                    rows_parsed(parse_name, parse_path, rows@.filter(has_path()), parsed)
                        && #[trigger] outputs_collected(parsed, outputs) && self.reported(
                        outputs,
                        res,
                    ),
            },
    {
        match reply {
            Err(e) => Err(e),
            Ok(rows) => {
                match read_outputs(rows, parse_name, parse_path) {
                    Err(e) => Err(e),
                    Ok(outputs) => Ok(
                        Some(
                            FinishedBuild {
                                status: self.status,
                                start_time: self.start_time,
                                stop_time: self.stop_time,
                                outputs,
                            },
                        ),
                    ),
                }
            },
        }
    }
}

/// What to do to learn which builds are finished.
#[derive(Debug)]
pub enum FinishedIds {
    /// No build was asked about: none is finished, and nothing is read.
    Known(Vec<BuildID>),
    /// The reply to [`FINISHED_IDS_SQL`] for these ids tells.
    Ask(Vec<BuildID>),
}

/// Which of `ids` are finished. For the sweep after a lost notification
/// listener: missed notifications are not replayed, so registered builds are
/// looked at again.
pub fn finished_build_ids(ids: Vec<BuildID>) -> (res: FinishedIds)
    ensures
        ids@.len() == 0 ==> (res matches FinishedIds::Known(known) && known@.len() == 0),
        ids@.len() > 0 ==> res == FinishedIds::Ask(ids),
{
    if ids.len() == 0 {
        FinishedIds::Known(Vec::new())
    } else {
        FinishedIds::Ask(ids)
    }
}

// --- cancelling builds -----------------------------------------------------

/// What came of a step of cancelling builds.
#[derive(Debug)]
pub enum CancelEvent<E> {
    /// The transaction was begun.
    Begun(Result<(), E>),
    /// The statement was performed, and returned the ids that it cancelled.
    Updated(Result<Vec<BuildID>, E>),
    /// The notification was sent.
    Notified(Result<(), E>),
    /// The transaction was committed.
    Committed(Result<(), E>),
}

/// The next step of cancelling builds.
#[derive(Debug)]
pub enum CancelAction<E> {
    /// Begin a transaction.
    Begin,
    /// Perform [`CANCEL_SQL`] with the values of this statement.
    Update(CancelStatement),
    /// Perform [`NOTIFY_SQL`] with this payload.
    Notify(String),
    /// Commit the transaction.
    Commit,
    /// Nothing is left to do; this is the result. A transaction that was begun
    /// and not committed is rolled back.
    Return(Result<Vec<BuildID>, E>),
}

/// The values of a [`CancelEvent`].
pub enum CancelReply<E> {
    Begun(Result<(), E>),
    Updated(Result<Seq<BuildID>, E>),
    Notified(Result<(), E>),
    Committed(Result<(), E>),
}

/// The values of a [`CancelAction`].
pub enum CancelStep<E> {
    Begin,
    Update(CancelRequest),
    Notify(Seq<char>),
    Commit,
    Return(Result<Seq<BuildID>, E>),
}

/// The ids of a result.
pub open spec fn result_ids<E>(res: Result<Vec<BuildID>, E>) -> Result<Seq<BuildID>, E> {
    match res {
        Ok(ids) => Ok(ids@),
        Err(e) => Err(e),
    }
}

impl<E> View for CancelEvent<E> {
    type V = CancelReply<E>;

    open spec fn view(&self) -> CancelReply<E> {
        match *self {
            CancelEvent::Begun(res) => CancelReply::Begun(res),
            CancelEvent::Updated(res) => CancelReply::Updated(result_ids(res)),
            CancelEvent::Notified(res) => CancelReply::Notified(res),
            CancelEvent::Committed(res) => CancelReply::Committed(res),
        }
    }
}

impl<E> View for CancelAction<E> {
    type V = CancelStep<E>;

    open spec fn view(&self) -> CancelStep<E> {
        match *self {
            CancelAction::Begin => CancelStep::Begin,
            CancelAction::Update(statement) => CancelStep::Update(statement@),
            CancelAction::Notify(payload) => CancelStep::Notify(payload@),
            CancelAction::Commit => CancelStep::Commit,
            CancelAction::Return(res) => CancelStep::Return(result_ids(res)),
        }
    }
}

impl<E> CancelReply<E> {
    /// The error of a step that failed.
    pub open spec fn failure(self) -> Option<E> {
        match self {
            CancelReply::Begun(Err(e)) => Some(e),
            CancelReply::Updated(Err(e)) => Some(e),
            CancelReply::Notified(Err(e)) => Some(e),
            CancelReply::Committed(Err(e)) => Some(e),
            _ => None,
        }
    }
}

/// Where a cancellation stands.
pub enum CancelStage {
    /// The transaction is being begun.
    Beginning(CancelRequest),
    /// The statement is being performed.
    Updating,
    /// The notification for `cancelled[at]` is being sent.
    Notifying { cancelled: Seq<BuildID>, at: nat },
    /// The transaction is being committed.
    Committing { cancelled: Seq<BuildID> },
    /// All is done.
    Ended,
}

impl CancelStage {
    /// Whether `reply` answers the step that led to this stage.
    pub open spec fn awaits<E>(self, reply: CancelReply<E>) -> bool {
        match reply {
            CancelReply::Begun(_) => self is Beginning,
            CancelReply::Updated(_) => self is Updating,
            CancelReply::Notified(_) => self is Notifying,
            CancelReply::Committed(_) => self is Committing,
        }
    }

    /// The stage of notifying for `cancelled` from `at` on, or of committing
    /// once there is no one left to notify for.
    pub open spec fn announcing(cancelled: Seq<BuildID>, at: nat) -> CancelStage {
        if at < cancelled.len() {
            CancelStage::Notifying { cancelled, at }
        } else {
            CancelStage::Committing { cancelled }
        }
    }

    /// The stage after `reply`.
    pub open spec fn after<E>(self, reply: CancelReply<E>) -> CancelStage {
        match reply {
            CancelReply::Begun(Ok(_)) => CancelStage::Updating,
            CancelReply::Updated(Ok(cancelled)) => CancelStage::announcing(cancelled, 0),
            CancelReply::Notified(Ok(_)) => CancelStage::announcing(
                self->Notifying_cancelled,
                self->at + 1,
            ),
            _ => CancelStage::Ended,
        }
    }

    /// The step that `reply` is answered with: the next one of begin, update,
    /// one notification for each cancelled build, commit; and the error of a
    /// step that failed is returned at once.
    pub open spec fn step<E>(self, reply: CancelReply<E>) -> CancelStep<E> {
        match reply.failure() {
            Some(e) => CancelStep::Return(Err(e)),
            None => match self.after(reply) {
                CancelStage::Beginning(_) => CancelStep::Begin,
                CancelStage::Updating => CancelStep::Update(self->Beginning_0),
                CancelStage::Notifying { cancelled, at } => CancelStep::Notify(
                    decimal_text(cancelled[at as int] as int),
                ),
                CancelStage::Committing { cancelled: _ } => CancelStep::Commit,
                CancelStage::Ended => CancelStep::Return(Ok(self->Committing_cancelled)),
            },
        }
    }
}

/// Where a cancellation stands, with the values that it still needs.
#[derive(Debug)]
enum CancelState {
    Beginning(CancelStatement),
    Updating,
    Notifying { cancelled: Vec<BuildID>, at: usize },
    Committing { cancelled: Vec<BuildID> },
    Ended,
}

/// A cancellation of builds: one transaction that marks the builds and
/// notifies for each that it marked.
#[derive(Debug)]
pub struct CancelBuilds {
    state: CancelState,
}

impl View for CancelBuilds {
    type V = CancelStage;

    closed spec fn view(&self) -> CancelStage {
        match self.state {
            CancelState::Beginning(statement) => CancelStage::Beginning(statement@),
            CancelState::Updating => CancelStage::Updating,
            CancelState::Notifying { cancelled, at } => CancelStage::Notifying {
                cancelled: cancelled@,
                at: at as nat,
            },
            CancelState::Committing { cancelled } => CancelStage::Committing {
                cancelled: cancelled@,
            },
            CancelState::Ended => CancelStage::Ended,
        }
    }
}

/// The stage and the step that a cancellation of `request` starts with: where
/// there is nothing to cancel, nothing is done.
pub open spec fn cancel_start<E>(request: CancelRequest) -> (CancelStage, CancelStep<E>) {
    if request.ids.len() == 0 {
        (CancelStage::Ended, CancelStep::Return(Ok(Seq::empty())))
    } else {
        (CancelStage::Beginning(request), CancelStep::Begin)
    }
}

/// Cancels those of `ids` that are still unfinished: marks them as finished
/// with the status `cancelled`, started and stopped now.
///
/// The notification is sent here for the same reason that the queue runner
/// sends it when it finishes a row itself: whoever waits for the build must
/// wake even when the queue runner will never touch the row again.
pub fn cancel_builds<E>(ids: Vec<BuildID>, cancelled: i32) -> (res: (CancelBuilds, CancelAction<E>))
    ensures
        exists|now: i64|
            MIN_SECOND <= now <= MAX_SECOND && (res.0@, res.1@) == #[trigger] cancel_start::<E>(
                CancelRequest { ids: ids@, build_status: cancelled, time: now },
            ),
        ids@.len() > 0 ==> (res.0@ matches CancelStage::Beginning(request) && clock_reading(
            request.time,
        )),
{
    let ghost asked = ids@;
    let res = cancel_builds_by(ids, cancelled, current_second);
    proof {
        let now: i64 = if asked.len() == 0 {
            0
        } else {
            res.0@->Beginning_0.time
        };
        law_clock_reading_comes_from_the_clock(now);
        let request = CancelRequest { ids: asked, build_status: cancelled, time: now };
        assert((res.0@, res.1@) == cancel_start::<E>(request));
    }
    res
}

/// Cancels builds as [`cancel_builds`] does, with `clock` to tell the second
/// that it is now. Where there is nothing to cancel, the clock is not read.
pub fn cancel_builds_by<E, C>(ids: Vec<BuildID>, cancelled: i32, clock: C) -> (res: (
    CancelBuilds,
    CancelAction<E>,
)) where C: FnOnce() -> i64
    requires
        clock.requires(()),
    ensures
        ids@.len() == 0 ==> res.0@ == CancelStage::Ended && res.1@ == CancelStep::<E>::Return(
            Ok(Seq::empty()),
        ),
        ids@.len() > 0 ==> exists|now: i64| #[trigger]
            clock.ensures((), now) && res.0@ == CancelStage::Beginning(
                CancelRequest { ids: ids@, build_status: cancelled, time: now },
            ) && res.1@ == CancelStep::<E>::Begin,
{
    if ids.len() == 0 {
        return CancelBuilds::start(ids, cancelled, 0);
    }
    let now: i64 = clock();
    CancelBuilds::start(ids, cancelled, now)
}

/// Cancels a build that its client has abandoned, once a connection to the
/// database was asked for: without one its error is the result.
pub fn cancel_abandoned_build<E>(
    connection: Result<(), E>,
    build_id: BuildID,
    cancelled: i32,
) -> (res: (CancelBuilds, CancelAction<E>))
    ensures
        match connection {
            Err(e) => res.0@ == CancelStage::Ended && res.1@ == CancelStep::<E>::Return(Err(e)),
            Ok(_) => res.1@ == CancelStep::<E>::Begin && (res.0@ matches CancelStage::Beginning(
                request,
            ) && request.ids == seq![build_id] && request.build_status == cancelled && MIN_SECOND
                <= request.time <= MAX_SECOND && clock_reading(request.time)),
        },
{
    let res = cancel_abandoned_build_by(connection, build_id, cancelled, current_second);
    proof {
        law_clock_reading_comes_from_the_clock(res.0@->Beginning_0.time);
    }
    res
}

/// Cancels an abandoned build as [`cancel_abandoned_build`] does, with `clock`
/// to tell the second that it is now.
pub fn cancel_abandoned_build_by<E, C>(
    connection: Result<(), E>,
    build_id: BuildID,
    cancelled: i32,
    clock: C,
) -> (res: (CancelBuilds, CancelAction<E>)) where C: FnOnce() -> i64
    requires
        clock.requires(()),
    ensures
        match connection {
            Err(e) => res.0@ == CancelStage::Ended && res.1@ == CancelStep::<E>::Return(Err(e)),
            Ok(_) => res.1@ == CancelStep::<E>::Begin && exists|now: i64| #[trigger]
                clock.ensures((), now) && res.0@ == CancelStage::Beginning(
                    CancelRequest { ids: seq![build_id], build_status: cancelled, time: now },
                ),
        },
{
    match connection {
        Err(e) => (CancelBuilds { state: CancelState::Ended }, CancelAction::Return(Err(e))),
        Ok(_) => {
            let mut ids: Vec<BuildID> = Vec::new();
            ids.push(build_id);
            assert(ids@ =~= seq![build_id]);
            cancel_builds_by(ids, cancelled, clock)
        },
    }
}

impl CancelBuilds {
    #[verifier::type_invariant]
    spec fn well_formed(self) -> bool {
        self.state matches CancelState::Notifying { cancelled, at } ==> at < cancelled.len()
    }

    /// Starts to cancel `ids` at the second `now`; see [`cancel_builds`].
    pub fn start<E>(ids: Vec<BuildID>, cancelled: i32, now: i64) -> (res: (
        CancelBuilds,
        CancelAction<E>,
    ))
        ensures
            (res.0@, res.1@) == cancel_start::<E>(
                CancelRequest { ids: ids@, build_status: cancelled, time: now },
            ),
    {
        if ids.len() == 0 {
            let none: Vec<BuildID> = Vec::new();
            assert(none@ =~= Seq::<BuildID>::empty());
            return (CancelBuilds { state: CancelState::Ended }, CancelAction::Return(Ok(none)));
        }
        let statement = CancelStatement { ids, build_status: cancelled, time: now };
        (CancelBuilds { state: CancelState::Beginning(statement) }, CancelAction::Begin)
    }

    /// Takes what came of the last step and decides on the next one.
    pub fn step<E>(self, event: CancelEvent<E>) -> (res: (CancelBuilds, CancelAction<E>))
        requires
            self@.awaits(event@),
        ensures
            res.0@ == self@.after(event@),
            res.1@ == self@.step(event@),
    {
        proof {
            use_type_invariant(&self);
        }
        match event {
            CancelEvent::Begun(Err(e)) => Self::fail(e),
            CancelEvent::Updated(Err(e)) => Self::fail(e),
            CancelEvent::Notified(Err(e)) => Self::fail(e),
            CancelEvent::Committed(Err(e)) => Self::fail(e),
            CancelEvent::Begun(Ok(_)) => match self.state {
                CancelState::Beginning(statement) => {
                    (CancelBuilds { state: CancelState::Updating }, CancelAction::Update(statement))
                },
                _ => unreached(),
            },
            CancelEvent::Updated(Ok(cancelled)) => Self::announce(cancelled, 0),
            CancelEvent::Notified(Ok(_)) => match self.state {
                CancelState::Notifying { cancelled, at } => Self::announce(cancelled, at + 1),
                _ => unreached(),
            },
            CancelEvent::Committed(Ok(_)) => match self.state {
                CancelState::Committing { cancelled } => {
                    let ended = CancelBuilds { state: CancelState::Ended };
                    (ended, CancelAction::Return(Ok(cancelled)))
                },
                _ => unreached(),
            },
        }
    }

    fn fail<E>(e: E) -> (res: (CancelBuilds, CancelAction<E>))
        ensures
            res.0@ == CancelStage::Ended,
            res.1@ == CancelStep::<E>::Return(Err(e)),
    {
        (CancelBuilds { state: CancelState::Ended }, CancelAction::Return(Err(e)))
    }

    fn announce<E>(cancelled: Vec<BuildID>, at: usize) -> (res: (CancelBuilds, CancelAction<E>))
        ensures
            res.0@ == CancelStage::announcing(cancelled@, at as nat),
            res.1@ == (if at < cancelled@.len() {
                CancelStep::<E>::Notify(decimal_text(cancelled@[at as int] as int))
            } else {
                CancelStep::<E>::Commit
            }),
    {
        if at < cancelled.len() {
            // The payload is the id, then the ids of dependent builds that
            // finished with it. A cancelled build takes none with it.
            let payload = decimal(cancelled[at]);
            (
                CancelBuilds { state: CancelState::Notifying { cancelled, at } },
                CancelAction::Notify(payload),
            )
        } else {
            (CancelBuilds { state: CancelState::Committing { cancelled } }, CancelAction::Commit)
        }
    }
}

// --- what a cancellation goes through --------------------------------------

/// The stage of a cancellation of `request` after `replies`.
pub open spec fn stage_after<E>(request: CancelRequest, replies: Seq<CancelReply<E>>) -> CancelStage
    decreases replies.len(),
{
    if replies.len() == 0 {
        CancelStage::Beginning(request)
    } else {
        stage_after(request, replies.drop_last()).after(replies.last())
    }
}

/// Whether a cancellation of `request` can meet with `replies`: each answers
/// the step before it.
pub open spec fn exchange<E>(request: CancelRequest, replies: Seq<CancelReply<E>>) -> bool
    decreases replies.len(),
{
    replies.len() > 0 ==> exchange(request, replies.drop_last()) && stage_after(
        request,
        replies.drop_last(),
    ).awaits(replies.last())
}

/// The step that the reply at `i` is answered with.
pub open spec fn step_at<E>(
    request: CancelRequest,
    replies: Seq<CancelReply<E>>,
    i: int,
) -> CancelStep<E> {
    stage_after(request, replies.take(i)).step(replies[i])
}

/// The replies to a cancellation that cancels `cancelled` without a failure.
pub open spec fn good_replies<E>(cancelled: Seq<BuildID>) -> Seq<CancelReply<E>> {
    Seq::new(
        cancelled.len() + 3,
        |i: int|
            if i == 0 {
                CancelReply::Begun(Ok(()))
            } else if i == 1 {
                CancelReply::Updated(Ok(cancelled))
            } else if i < cancelled.len() + 2 {
                CancelReply::Notified(Ok(()))
            } else {
                CancelReply::Committed(Ok(()))
            },
    )
}

/// The step that the reply at `i` is answered with, in a cancellation of
/// `request` that cancels `cancelled` without a failure: the statement, one
/// notification for each cancelled build in the order in which they were
/// returned, the commit, and the ids.
pub open spec fn good_step<E>(
    request: CancelRequest,
    cancelled: Seq<BuildID>,
    i: int,
) -> CancelStep<E> {
    if i == 0 {
        CancelStep::Update(request)
    } else if i <= cancelled.len() {
        CancelStep::Notify(decimal_text(cancelled[i - 1] as int))
    } else if i == cancelled.len() + 1 {
        CancelStep::Commit
    } else {
        CancelStep::Return(Ok(cancelled))
    }
}

/// The ids that the statement returned, once it has.
pub open spec fn returned_ids<E>(replies: Seq<CancelReply<E>>) -> Seq<BuildID> {
    replies[1]->Updated_0->Ok_0
}

/// The stage of a cancellation in which nothing has failed so far.
pub open spec fn good_stage(request: CancelRequest, cancelled: Seq<BuildID>, n: int) -> CancelStage {
    if n == 0 {
        CancelStage::Beginning(request)
    } else if n == 1 {
        CancelStage::Updating
    } else if n < cancelled.len() + 2 {
        CancelStage::Notifying { cancelled, at: (n - 2) as nat }
    } else if n == cancelled.len() + 2 {
        CancelStage::Committing { cancelled }
    } else {
        CancelStage::Ended
    }
}

proof fn lemma_good_stage<E>(request: CancelRequest, replies: Seq<CancelReply<E>>)
    requires
        exchange(request, replies),
        forall|i: int| 0 <= i < replies.len() ==> (#[trigger] replies[i]).failure() is None,
    ensures
        stage_after(request, replies) == good_stage(
            request,
            returned_ids(replies),
            replies.len() as int,
        ),
        replies.len() > 1 ==> replies[1] == CancelReply::<E>::Updated(Ok(returned_ids(replies))),
        replies.len() <= returned_ids(replies).len() + 3 || replies.len() <= 1,
    decreases replies.len(),
{
    let n = replies.len() as int;
    if n > 0 {
        let front = replies.drop_last();
        assert forall|i: int| 0 <= i < front.len() implies (#[trigger] front[i]).failure() is None by {
            assert(front[i] == replies[i]);
        }
        lemma_good_stage(request, front);
        assert(replies[n - 1].failure() is None);
        assert(replies.last() == replies[n - 1]);
        if n >= 3 {
            assert(front[1] == replies[1]);
        }
    }
}

proof fn lemma_exchange_prefix<E>(request: CancelRequest, replies: Seq<CancelReply<E>>, n: int)
    requires
        exchange(request, replies),
        0 <= n <= replies.len(),
    ensures
        exchange(request, replies.take(n)),
        n < replies.len() ==> stage_after(request, replies.take(n)).awaits(replies[n]),
    decreases replies.len(),
{
    if n < replies.len() {
        let front = replies.drop_last();
        assert(front.take(n) =~= replies.take(n));
        lemma_exchange_prefix(request, front, n);
        if n == replies.len() - 1 {
            assert(replies.take(n) =~= front);
        }
    } else {
        assert(replies.take(n) =~= replies);
    }
}

/// What is known of an exchange at a reply that no failure came before.
proof fn lemma_before_failure<E>(request: CancelRequest, replies: Seq<CancelReply<E>>, i: int)
    requires
        exchange(request, replies),
        0 <= i < replies.len(),
    ensures
        forall|j: int| 0 <= j < i ==> (#[trigger] replies[j]).failure() is None,
        stage_after(request, replies.take(i)) == good_stage(request, returned_ids(replies), i),
        i > 1 ==> replies[1] == CancelReply::<E>::Updated(Ok(returned_ids(replies))),
        i <= 1 || i <= returned_ids(replies).len() + 2,
    decreases i,
{
    lemma_exchange_prefix(request, replies, i);
    assert forall|j: int| 0 <= j < i implies (#[trigger] replies[j]).failure() is None by {
        lemma_before_failure(request, replies, j);
        if replies[j].failure() is Some {
            lemma_exchange_prefix(request, replies, j + 1);
            assert(replies.take(j + 1).drop_last() =~= replies.take(j));
            assert(replies.take(j + 1).last() == replies[j]);
            assert(stage_after(request, replies.take(j + 1)) == CancelStage::Ended);
        }
    }
    let front = replies.take(i);
    assert forall|j: int| 0 <= j < front.len() implies (#[trigger] front[j]).failure() is None by {
        assert(front[j] == replies[j]);
    }
    lemma_good_stage(request, front);
    if i > 1 {
        assert(front[1] == replies[1]);
    }
}

/// A cancellation in which nothing fails performs its statement, sends one
/// notification for each build that the statement cancelled, commits, and
/// returns those builds.
pub proof fn law_cancellation_without_failure<E>(
    request: CancelRequest,
    cancelled: Seq<BuildID>,
    i: int,
)
    requires
        0 <= i < cancelled.len() + 3,
    ensures
        exchange(request, good_replies::<E>(cancelled)),
        step_at(request, good_replies::<E>(cancelled), i) == good_step::<E>(request, cancelled, i),
{
    let replies = good_replies::<E>(cancelled);
    lemma_good_exchange::<E>(request, cancelled, replies.len() as int);
    assert(replies.take(replies.len() as int) =~= replies);
    lemma_before_failure(request, replies, i);
}

proof fn lemma_good_exchange<E>(request: CancelRequest, cancelled: Seq<BuildID>, n: int)
    requires
        0 <= n <= cancelled.len() + 3,
    ensures
        exchange(request, good_replies::<E>(cancelled).take(n)),
    decreases n,
{
    if n > 0 {
        let replies = good_replies::<E>(cancelled);
        lemma_good_exchange::<E>(request, cancelled, n - 1);
        let front = replies.take(n - 1);
        assert(replies.take(n).drop_last() =~= front);
        assert(replies.take(n).last() == replies[n - 1]);
        assert forall|j: int| 0 <= j < front.len() implies (#[trigger] front[j]).failure() is None by {
            assert(front[j] == replies[j]);
        }
        lemma_good_stage(request, front);
        if n > 2 {
            assert(front[1] == replies[1]);
        }
    }
}

/// The update and the notifications commit together: a commit comes only once
/// every build that the statement cancelled has been notified for.
pub proof fn law_commit_follows_every_notification<E>(
    request: CancelRequest,
    replies: Seq<CancelReply<E>>,
    i: int,
)
    requires
        exchange(request, replies),
        0 <= i < replies.len(),
        step_at(request, replies, i) is Commit,
    ensures
        ({
            let cancelled = returned_ids(replies);
            &&& replies[1] == CancelReply::<E>::Updated(Ok(cancelled))
            &&& i == cancelled.len() + 1
            &&& forall|k: int|
                0 <= k < cancelled.len() ==> #[trigger] step_at(request, replies, k + 1)
                    == CancelStep::<E>::Notify(decimal_text(cancelled[k] as int))
            &&& forall|k: int| 0 <= k < i ==> (#[trigger] replies[k]).failure() is None
        }),
{
    lemma_before_failure(request, replies, i);
    lemma_exchange_prefix(request, replies, i);
    let cancelled = returned_ids(replies);
    assert forall|k: int| 0 <= k < cancelled.len() implies #[trigger] step_at(
        request,
        replies,
        k + 1,
    ) == CancelStep::<E>::Notify(decimal_text(cancelled[k] as int)) by {
        lemma_before_failure(request, replies, k + 1);
        lemma_exchange_prefix(request, replies, k + 1);
    }
}

/// Nobody sees a cancelled row without the wakeup that goes with it: where the
/// statement found `rows` and its work is committed, each row that it changed
/// has been notified for.
pub proof fn law_cancelled_rows_are_notified_for<E>(
    request: CancelRequest,
    rows: Seq<BuildRow>,
    replies: Seq<CancelReply<E>>,
    i: int,
    row: int,
)
    requires
        exchange(request, replies),
        0 <= i < replies.len(),
        step_at(request, replies, i) is Commit,
        returned_ids(replies) == request.cancelled_ids(rows),
        0 <= row < rows.len(),
        request.updated(rows[row]) != rows[row],
    ensures
        exists|k: int|
            0 <= k < i && #[trigger] step_at(request, replies, k) == CancelStep::<E>::Notify(
                decimal_text(rows[row].id as int),
            ),
{
    law_commit_follows_every_notification(request, replies, i);
    law_cancelled_ids_are_the_cancelled_rows(request, rows, rows[row].id);
    let cancelled = returned_ids(replies);
    let k = choose|k: int| 0 <= k < cancelled.len() && cancelled[k] == rows[row].id;
    assert(step_at(request, replies, k + 1) == CancelStep::<E>::Notify(
        decimal_text(cancelled[k] as int),
    ));
}

/// A failure ends the cancellation and is its result; unless it was the commit
/// that failed, nothing was committed.
pub proof fn law_failure_is_returned<E>(
    request: CancelRequest,
    replies: Seq<CancelReply<E>>,
    i: int,
)
    requires
        exchange(request, replies),
        0 <= i < replies.len(),
        replies[i].failure() is Some,
    ensures
        step_at(request, replies, i) == CancelStep::<E>::Return(Err(replies[i].failure()->0)),
        i == replies.len() - 1,
        !(replies[i] is Committed) ==> forall|k: int|
            0 <= k <= i ==> !(#[trigger] step_at(request, replies, k) is Commit),
{
    if i + 1 < replies.len() {
        lemma_before_failure(request, replies, i + 1);
    }
    if !(replies[i] is Committed) {
        assert forall|k: int| 0 <= k <= i implies !(#[trigger] step_at(
            request,
            replies,
            k,
        ) is Commit) by {
            if step_at(request, replies, k) is Commit {
                law_commit_follows_every_notification(request, replies, k);
                lemma_before_failure(request, replies, i);
                lemma_exchange_prefix(request, replies, i);
            }
        }
    }
}

/// A cancellation succeeds only with a commit that succeeded, and returns what
/// the statement returned.
pub proof fn law_success_is_committed<E>(
    request: CancelRequest,
    replies: Seq<CancelReply<E>>,
    i: int,
)
    requires
        exchange(request, replies),
        0 <= i < replies.len(),
        step_at(request, replies, i) matches CancelStep::Return(Ok(_)),
    ensures
        step_at(request, replies, i) == CancelStep::<E>::Return(Ok(returned_ids(replies))),
        replies[i] matches CancelReply::Committed(Ok(_)),
        replies[1] == CancelReply::<E>::Updated(Ok(returned_ids(replies))),
        i == returned_ids(replies).len() + 2,
        i == replies.len() - 1,
{
    lemma_before_failure(request, replies, i);
    lemma_exchange_prefix(request, replies, i);
    if i + 1 < replies.len() {
        lemma_before_failure(request, replies, i + 1);
        lemma_exchange_prefix(request, replies, i + 1);
    }
}

/// A notification tells which build it is for: different builds have
/// different payloads.
pub proof fn law_payload_identifies_build(a: BuildID, b: BuildID)
    ensures
        decimal_text(a as int) == decimal_text(b as int) <==> a == b,
{
    if decimal_text(a as int) == decimal_text(b as int) {
        law_decimal_text_injective(a as int, b as int);
    }
}

// --- what is asked of the database and reported ----------------------------

/// A finished row whose status decodes is never reported as unfinished: the
/// outputs are read next, for that build, with that status and the two times
/// of the row, whatever the times are.
pub proof fn law_finished_build_is_reported<S, E, D>(
    build_id: BuildID,
    row: FinishedRow,
    decode: D,
    status: S,
    outcome: RowOutcome<S, E>,
) where D: FnOnce(i32) -> Option<S>
    requires
        row.build_status matches Some(code) && forall|other: Option<S>| #[trigger]
            decode.ensures((code,), other) ==> other == Some(status),
        call_ensures(get_finished_build::<S, E, D>, (build_id, Ok(Some(row)), decode), outcome),
    ensures
        outcome matches RowOutcome::ReadOutputs(lookup) && {
            &&& lookup.build_id == build_id
            &&& lookup.status == status
            &&& lookup.start_time == row.start_time
            &&& lookup.stop_time == row.stop_time
        },
{
}

/// A build counts as unfinished only where it has no finished row, or one whose
/// status is missing or does not decode.
pub proof fn law_unfinished_build_is_not_reported<S, E, D>(
    build_id: BuildID,
    found: Option<FinishedRow>,
    decode: D,
    outcome: RowOutcome<S, E>,
) where D: FnOnce(i32) -> Option<S>
    requires
        found matches Some(row) ==> (row.build_status matches Some(code) ==> forall|
            other: Option<S>,
        | #[trigger]
            decode.ensures((code,), other) ==> other is None),
        call_ensures(get_finished_build::<S, E, D>, (build_id, Ok(found), decode), outcome),
    ensures
        outcome matches RowOutcome::Return(Ok(None)),
{
}

/// An error of the database is the result of the lookup that met with it, in
/// either half.
pub proof fn law_lookup_error_is_returned<S, E, D, N, P>(
    build_id: BuildID,
    error: E,
    decode: D,
    outcome: RowOutcome<S, E>,
    lookup: OutputLookup<S>,
    parse_name: N,
    parse_path: P,
    res: Result<Option<FinishedBuild<S>>, E>,
) where
    D: FnOnce(i32) -> Option<S>,
    N: Fn(String) -> Result<String, E>,
    P: Fn(String) -> Result<String, E>,

    requires
        call_ensures(get_finished_build::<S, E, D>, (build_id, Err(error), decode), outcome),
        call_ensures(
            OutputLookup::<S>::finish::<E, N, P>,
            (lookup, Err(error), parse_name, parse_path),
            res,
        ),
    ensures
        outcome matches RowOutcome::Return(Err(e)) && e == error,
        res matches Err(e) && e == error,
{
}

/// A build that was unfinished and is cancelled, and is then looked up, is
/// reported with the status and the time of its cancellation.
pub proof fn law_cancelled_build_is_reported<S, E, D>(
    statement: &CancelStatement,
    rows: &mut Vec<BuildRow>,
    cancelled: Vec<BuildID>,
    i: int,
    after: &Vec<BuildRow>,
    found: Option<FinishedRow>,
    decode: D,
    status: S,
    outcome: RowOutcome<S, E>,
) where D: FnOnce(i32) -> Option<S>
    requires
        distinct_ids(old(rows)@),
        0 <= i < old(rows)@.len(),
        old(rows)@[i].finished == 0,
        statement.ids@.contains(old(rows)@[i].id),
        call_ensures(CancelStatement::apply, (statement, rows), cancelled),
        *after == *final(rows),
        call_ensures(select_finished_build, (old(rows)@[i].id, after), found),
        forall|other: Option<S>| #[trigger]
            decode.ensures((statement.build_status,), other) ==> other == Some(status),
        call_ensures(
            get_finished_build::<S, E, D>,
            (old(rows)@[i].id, Ok(found), decode),
            outcome,
        ),
    ensures
        outcome matches RowOutcome::ReadOutputs(lookup) && {
            &&& lookup.build_id == old(rows)@[i].id
            &&& lookup.status == status
            &&& lookup.start_time == Some(statement.time)
            &&& lookup.stop_time == Some(statement.time)
        },
{
    law_cancelled_build_is_read_back(statement@, rows@, i);
}

/// The outputs of a finished build are reported with its status and its times:
/// where no row fails, each name of a row with a path has the path of the last
/// such row, and no other name has one.
pub proof fn law_finished_build_has_its_outputs<S, E, N, P>(
    lookup: OutputLookup<S>,
    rows: Vec<OutputRow>,
    parse_name: N,
    parse_path: P,
    name_of: spec_fn(String) -> Result<String, E>,
    path_of: spec_fn(String) -> Result<String, E>,
    res: Result<Option<FinishedBuild<S>>, E>,
    outputs: &OutputMap,
    name: &str,
    got: Option<&String>,
) where N: Fn(String) -> Result<String, E>, P: Fn(String) -> Result<String, E>
    requires
        parses_as(parse_name, name_of),
        parses_as(parse_path, path_of),
        forall|j: int|
            0 <= j < rows@.len() ==> row_error(#[trigger] rows@[j], name_of, path_of) is None,
        call_ensures(
            OutputLookup::<S>::finish::<E, N, P>,
            (lookup, Ok(rows), parse_name, parse_path),
            res,
        ),
        res matches Ok(Some(build)) ==> *outputs == build.outputs,
        call_ensures(OutputMap::get, (outputs, name), got),
    ensures
        res matches Ok(Some(build)) && {
            &&& build.status == lookup.status
            &&& build.start_time == lookup.start_time
            &&& build.stop_time == lookup.stop_time
        },
        got is Some ==> exists|i: int|
            0 <= i < rows@.len() && row_names(#[trigger] rows@[i], name_of, name@),
        forall|i: int|
            #![trigger rows@[i]]
            0 <= i < rows@.len() && row_names(rows@[i], name_of, name@) && (forall|j: int|
                i < j < rows@.len() ==> !row_names(#[trigger] rows@[j], name_of, name@)) ==> (
            got matches Some(path) && path@ == path_of(rows@[i].path->0)->Ok_0@),
{
    let (parsed, read) = choose|parsed: Seq<ParsedOutput<E>>, read: Result<OutputMap, E>|
        #[trigger]
        rows_parsed(parse_name, parse_path, rows@.filter(has_path()), parsed) && #[trigger]
            outputs_collected(parsed, read) && lookup.reported(read, res);
    lemma_no_failing_row(parse_name, parse_path, name_of, path_of, rows@, parsed, read);
    lemma_outputs_of_rows(
        parse_name,
        parse_path,
        name_of,
        path_of,
        rows@,
        parsed,
        *outputs,
        name@,
    );
}

/// A finished build with an output that does not parse is not reported: the
/// error of the first row that fails is returned.
pub proof fn law_unparsed_output_is_returned<S, E, N, P>(
    lookup: OutputLookup<S>,
    rows: Vec<OutputRow>,
    parse_name: N,
    parse_path: P,
    name_of: spec_fn(String) -> Result<String, E>,
    path_of: spec_fn(String) -> Result<String, E>,
    i: int,
    res: Result<Option<FinishedBuild<S>>, E>,
) where N: Fn(String) -> Result<String, E>, P: Fn(String) -> Result<String, E>
    requires
        parses_as(parse_name, name_of),
        parses_as(parse_path, path_of),
        call_ensures(
            OutputLookup::<S>::finish::<E, N, P>,
            (lookup, Ok(rows), parse_name, parse_path),
            res,
        ),
        0 <= i < rows@.len(),
        row_error(rows@[i], name_of, path_of) is Some,
        forall|j: int| 0 <= j < i ==> row_error(#[trigger] rows@[j], name_of, path_of) is None,
    ensures
        res matches Err(e) && row_error(rows@[i], name_of, path_of) == Some(e),
{
    let (parsed, read) = choose|parsed: Seq<ParsedOutput<E>>, read: Result<OutputMap, E>|
        #[trigger]
        rows_parsed(parse_name, parse_path, rows@.filter(has_path()), parsed) && #[trigger]
            outputs_collected(parsed, read) && lookup.reported(read, res);
    lemma_first_failing_row(parse_name, parse_path, name_of, path_of, rows@, i, parsed, read);
}

/// Asked about no build, nothing is read and none is finished; asked about any,
/// the database is asked about just those.
pub proof fn law_finished_ids_are_asked_for(ids: Vec<BuildID>, res: FinishedIds)
    requires
        call_ensures(finished_build_ids, (ids,), res),
    ensures
        match res {
            FinishedIds::Known(known) => ids@.len() == 0 && known@.len() == 0,
            FinishedIds::Ask(asked) => ids@.len() > 0 && asked@ == ids@,
        },
{
}

/// Whether `run` is what a cancellation of `ids` at the second `now` goes
/// through with `events`: its start, and what each event led to.
pub open spec fn goes_through<E>(
    ids: Vec<BuildID>,
    cancelled: i32,
    now: i64,
    events: Seq<CancelEvent<E>>,
    run: Seq<(CancelBuilds, CancelAction<E>)>,
) -> bool {
    &&& run.len() == events.len() + 1
    &&& call_ensures(CancelBuilds::start::<E>, (ids, cancelled, now), run[0])
    &&& forall|i: int|
        0 <= i < events.len() ==> call_ensures(
            CancelBuilds::step::<E>,
            (run[i].0, #[trigger] events[i]),
            run[i + 1],
        )
}

/// Whether `event` is of the kind that comes at `n`, where the statement
/// returns `marked` ids.
pub open spec fn comes_at<E>(n: int, marked: nat, event: CancelEvent<E>) -> bool {
    if n == 0 {
        event is Begun
    } else if n == 1 {
        event is Updated
    } else if n < marked + 2 {
        event is Notified
    } else {
        n == marked + 2 && event is Committed
    }
}

/// Whether `event` is no failure.
pub open spec fn succeeds<E>(event: CancelEvent<E>) -> bool {
    match event {
        CancelEvent::Begun(res) => res is Ok,
        CancelEvent::Updated(res) => res is Ok,
        CancelEvent::Notified(res) => res is Ok,
        CancelEvent::Committed(res) => res is Ok,
    }
}

/// Whether `events` are the first events of a cancellation in which nothing
/// fails and whose statement returns `marked`.
pub open spec fn all_succeed<E>(events: Seq<CancelEvent<E>>, marked: Vec<BuildID>) -> bool {
    &&& forall|i: int|
        0 <= i < events.len() ==> comes_at(i, marked@.len(), #[trigger] events[i]) && succeeds(
            events[i],
        )
    &&& events.len() > 1 ==> events[1] == CancelEvent::<E>::Updated(Ok(marked))
}

proof fn lemma_run_stage<E>(
    ids: Vec<BuildID>,
    cancelled: i32,
    now: i64,
    marked: Vec<BuildID>,
    events: Seq<CancelEvent<E>>,
    run: Seq<(CancelBuilds, CancelAction<E>)>,
    n: int,
)
    requires
        ids@.len() > 0,
        goes_through(ids, cancelled, now, events, run),
        all_succeed(events, marked),
        0 <= n <= events.len(),
    ensures
        ({
            let request = CancelRequest { ids: ids@, build_status: cancelled, time: now };
            &&& run[n].0@ == good_stage(request, marked@, n)
            &&& n == 0 ==> run[n].1@ == CancelStep::<E>::Begin
            &&& n > 0 ==> run[n].1@ == good_step::<E>(request, marked@, n - 1)
        }),
        n <= 1 || n <= marked@.len() + 3,
    decreases n,
{
    if n > 0 {
        lemma_run_stage(ids, cancelled, now, marked, events, run, n - 1);
        let event = events[n - 1];
        assert(comes_at(n - 1, marked@.len(), event) && succeeds(event));
        assert(call_ensures(CancelBuilds::step::<E>, (run[n - 1].0, event), run[n]));
    }
}

/// A cancellation in which nothing fails begins a transaction, performs one
/// statement with the ids, the status and the time that it was started with,
/// sends for each id that the statement returned, in their order, a
/// notification that writes the id, commits, and returns those ids. At each
/// point it takes the event that comes there, a failure too.
pub proof fn law_cancellation_marks_notifies_and_commits<E>(
    ids: Vec<BuildID>,
    cancelled: i32,
    now: i64,
    marked: Vec<BuildID>,
    events: Seq<CancelEvent<E>>,
    run: Seq<(CancelBuilds, CancelAction<E>)>,
    n: int,
    next: CancelEvent<E>,
)
    requires
        ids@.len() > 0,
        goes_through(ids, cancelled, now, events, run),
        all_succeed(events, marked),
        0 <= n <= events.len(),
    ensures
        n == 0 ==> run[n].1 is Begin,
        n == 1 ==> (run[n].1 matches CancelAction::Update(statement) && statement.ids@ == ids@
            && statement.build_status == cancelled && statement.time == now),
        2 <= n < marked@.len() + 2 ==> (run[n].1 matches CancelAction::Notify(payload) && writes(
            payload@,
            marked@[n - 2] as int,
        ) && read_number(payload@) == marked@[n - 2]),
        n >= 2 && n == marked@.len() + 2 ==> run[n].1 is Commit,
        n >= 2 && n == marked@.len() + 3 ==> (run[n].1 matches CancelAction::Return(Ok(returned))
            && returned@ == marked@),
        comes_at(n, marked@.len(), next) ==> call_requires(
            CancelBuilds::step::<E>,
            (run[n].0, next),
        ),
{
    lemma_run_stage(ids, cancelled, now, marked, events, run, n);
    if 2 <= n < marked@.len() + 2 {
        law_decimal_text_reads_back(marked@[n - 2] as int);
    }
    if comes_at(n, marked@.len(), next) {
        assert(run[n].0@.awaits(next@));
    }
}

/// Where there is nothing to cancel, nothing is asked of the database, and
/// nothing was cancelled.
pub proof fn law_nothing_to_cancel_is_quiet<E, C>(
    ids: Vec<BuildID>,
    cancelled: i32,
    now: i64,
    clock: C,
    started: (CancelBuilds, CancelAction<E>),
    res: (CancelBuilds, CancelAction<E>),
) where C: FnOnce() -> i64
    requires
        ids@.len() == 0,
        call_ensures(CancelBuilds::start::<E>, (ids, cancelled, now), started),
        call_ensures(cancel_builds::<E>, (ids, cancelled), res) || call_ensures(
            cancel_builds_by::<E, C>,
            (ids, cancelled, clock),
            res,
        ),
    ensures
        started.1 matches CancelAction::Return(Ok(none)) && none@.len() == 0,
        res.1 matches CancelAction::Return(Ok(none)) && none@.len() == 0,
{
}

/// A step that fails is the last one, and its error is the result.
pub proof fn law_failed_step_is_returned<E>(
    cancellation: CancelBuilds,
    event: CancelEvent<E>,
    error: E,
    res: (CancelBuilds, CancelAction<E>),
)
    requires
        call_ensures(CancelBuilds::step::<E>, (cancellation, event), res),
        event == CancelEvent::<E>::Begun(Err(error)) || event == CancelEvent::<E>::Updated(
            Err(error),
        ) || event == CancelEvent::<E>::Notified(Err(error)) || event == CancelEvent::<
            E,
        >::Committed(Err(error)),
    ensures
        res.1 matches CancelAction::Return(Err(e)) && e == error,
        res.0@ is Ended,
{
}

/// The time of a cancellation is what the clock showed: the statement that is
/// performed holds a second that the clock returned, and the ids and the status
/// that were asked for.
pub proof fn law_cancellation_time_is_read_from_the_clock<E, C>(
    ids: Vec<BuildID>,
    cancelled: i32,
    clock: C,
    started: (CancelBuilds, CancelAction<E>),
    next: (CancelBuilds, CancelAction<E>),
) where C: FnOnce() -> i64
    requires
        ids@.len() > 0,
        call_ensures(cancel_builds_by::<E, C>, (ids, cancelled, clock), started),
        call_ensures(
            CancelBuilds::step::<E>,
            (started.0, CancelEvent::Begun(Ok(()))),
            next,
        ),
    ensures
        started.1 is Begin,
        next.1 matches CancelAction::Update(statement) && {
            &&& statement.ids@ == ids@
            &&& statement.build_status == cancelled
            &&& clock.ensures((), statement.time)
        },
{
}

/// An abandoned build is cancelled at a second that the clock returned, with
/// the status that was asked for, and alone.
pub proof fn law_abandonment_time_is_read_from_the_clock<E, C>(
    build_id: BuildID,
    cancelled: i32,
    clock: C,
    started: (CancelBuilds, CancelAction<E>),
    next: (CancelBuilds, CancelAction<E>),
) where C: FnOnce() -> i64
    requires
        call_ensures(
            cancel_abandoned_build_by::<E, C>,
            (Ok(()), build_id, cancelled, clock),
            started,
        ),
        call_ensures(
            CancelBuilds::step::<E>,
            (started.0, CancelEvent::Begun(Ok(()))),
            next,
        ),
    ensures
        started.1 is Begin,
        next.1 matches CancelAction::Update(statement) && {
            &&& statement.ids@ == seq![build_id]
            &&& statement.build_status == cancelled
            &&& clock.ensures((), statement.time)
        },
{
}

/// Without a clock of the caller's, the time of a cancellation is a reading of
/// the system clock.
pub proof fn law_cancellation_happens_now<E>(
    ids: Vec<BuildID>,
    build_id: BuildID,
    cancelled: i32,
    started: (CancelBuilds, CancelAction<E>),
    next: (CancelBuilds, CancelAction<E>),
)
    requires
        ids@.len() > 0,
        call_ensures(cancel_builds::<E>, (ids, cancelled), started) || (ids@ == seq![build_id]
            && call_ensures(
            cancel_abandoned_build::<E>,
            (Ok(()), build_id, cancelled),
            started,
        )),
        call_ensures(
            CancelBuilds::step::<E>,
            (started.0, CancelEvent::Begun(Ok(()))),
            next,
        ),
    ensures
        started.1 is Begin,
        next.1 matches CancelAction::Update(statement) && {
            &&& statement.ids@ == ids@
            &&& statement.build_status == cancelled
            &&& clock_reading(statement.time)
        },
{
}

/// Without a connection an abandoned build is not cancelled, and the error of
/// the connection is the result.
pub proof fn law_missing_connection_is_returned<E, C>(
    error: E,
    build_id: BuildID,
    cancelled: i32,
    clock: C,
    res: (CancelBuilds, CancelAction<E>),
) where C: FnOnce() -> i64
    requires
        call_ensures(cancel_abandoned_build::<E>, (Err(error), build_id, cancelled), res)
            || call_ensures(
            cancel_abandoned_build_by::<E, C>,
            (Err(error), build_id, cancelled, clock),
            res,
        ),
    ensures
        res.1 matches CancelAction::Return(Err(e)) && e == error,
        res.0@ is Ended,
{
}

/// A cancellation succeeds when its commit does, and by nothing else.
pub proof fn law_only_a_commit_is_a_success<E>(
    cancellation: CancelBuilds,
    event: CancelEvent<E>,
    res: (CancelBuilds, CancelAction<E>),
)
    requires
        call_ensures(CancelBuilds::step::<E>, (cancellation, event), res),
    ensures
        res.1 matches CancelAction::Return(Ok(_)) <==> event matches CancelEvent::Committed(Ok(_)),
        !(res.1 is Begin),
        res.1 is Update ==> event matches CancelEvent::Begun(Ok(_)),
        res.1 is Commit ==> (event matches CancelEvent::Updated(Ok(_))) || (
        event matches CancelEvent::Notified(Ok(_))),
{
}

/// A build that its client abandoned while it was unfinished is afterwards
/// reported as cancelled, started and stopped at the second that the clock
/// showed.
pub proof fn law_abandoned_build_is_reported_as_cancelled<S, E, C, D>(
    rows: &mut Vec<BuildRow>,
    i: int,
    cancelled: i32,
    clock: C,
    started: (CancelBuilds, CancelAction<E>),
    next: (CancelBuilds, CancelAction<E>),
    statement: &CancelStatement,
    marked: Vec<BuildID>,
    after: &Vec<BuildRow>,
    found: Option<FinishedRow>,
    decode: D,
    status: S,
    outcome: RowOutcome<S, E>,
) where C: FnOnce() -> i64, D: FnOnce(i32) -> Option<S>
    requires
        distinct_ids(old(rows)@),
        0 <= i < old(rows)@.len(),
        old(rows)@[i].finished == 0,
        call_ensures(
            cancel_abandoned_build_by::<E, C>,
            (Ok(()), old(rows)@[i].id, cancelled, clock),
            started,
        ),
        call_ensures(
            CancelBuilds::step::<E>,
            (started.0, CancelEvent::Begun(Ok(()))),
            next,
        ),
        next.1 matches CancelAction::Update(performed) ==> *statement == performed,
        call_ensures(CancelStatement::apply, (statement, rows), marked),
        *after == *final(rows),
        call_ensures(select_finished_build, (old(rows)@[i].id, after), found),
        forall|other: Option<S>| #[trigger]
            decode.ensures((cancelled,), other) ==> other == Some(status),
        call_ensures(
            get_finished_build::<S, E, D>,
            (old(rows)@[i].id, Ok(found), decode),
            outcome,
        ),
    ensures
        next.1 is Update,
        marked@ == seq![old(rows)@[i].id],
        outcome matches RowOutcome::ReadOutputs(lookup) && {
            &&& lookup.build_id == old(rows)@[i].id
            &&& lookup.status == status
            &&& lookup.start_time matches Some(time) && clock.ensures((), time)
            &&& lookup.stop_time == lookup.start_time
        },
{
    assert(statement.ids@[0] == rows@[i].id);
    law_cancelled_build_is_read_back(statement@, rows@, i);
    lemma_one_build_cancelled(statement@, rows@, i);
}

proof fn lemma_one_build_cancelled(request: CancelRequest, rows: Seq<BuildRow>, i: int)
    requires
        distinct_ids(rows),
        0 <= i < rows.len(),
        rows[i].finished == 0,
        request.ids == seq![rows[i].id],
    ensures
        request.cancelled_ids(rows) == seq![rows[i].id],
    decreases rows.len(),
{
    let front = rows.drop_last();
    assert(request.ids[0] == rows[i].id);
    assert(forall|id: BuildID| request.ids.contains(id) ==> id == rows[i].id);
    assert forall|a: int, b: int| 0 <= a < b < front.len() implies (#[trigger] front[a]).id != (
    #[trigger] front[b]).id by {
        assert(rows[a].id != rows[b].id);
    }
    if i < front.len() {
        assert(front[i] == rows[i]);
        assert(rows[i].id != rows[rows.len() - 1].id);
        lemma_one_build_cancelled(request, front, i);
    } else {
        assert forall|a: int| 0 <= a < front.len() implies !request.selects(#[trigger] front[a]) by {
            assert(rows[a].id != rows[i].id);
        }
        lemma_nothing_selected(request, front);
        assert(request.cancelled_ids(rows) =~= seq![rows[i].id]);
    }
}

} // verus!
