//! The rows of Hydra's `Builds` table, and what the daemon's statements say
//! about them.

use crate::inflight::BuildID;
use vstd::prelude::*;

verus! {

/// The `finished` column of a build that may still run.
pub const UNFINISHED: i32 = 0;

/// The `finished` column of a build whose fate is known.
pub const FINISHED: i32 = 1;

/// The columns of a `Builds` row that the daemon reads and writes.
#[derive(Debug, Clone, Copy, PartialEq, Eq, Structural)]
pub struct BuildRow {
    pub id: BuildID,
    pub finished: i32,
    pub build_status: Option<i32>,
    pub start_time: Option<i64>,
    pub stop_time: Option<i64>,
}

/// A request to mark builds as cancelled.
#[derive(Debug)]
pub struct CancelStatement {
    /// The builds to cancel.
    pub ids: Vec<BuildID>,
    /// The status code of a cancelled build.
    pub build_status: i32,
    /// When the builds count as started and stopped, in seconds since the
    /// Unix epoch.
    pub time: i64,
}

/// The values of a [`CancelStatement`].
pub struct CancelRequest {
    pub ids: Seq<BuildID>,
    pub build_status: i32,
    pub time: i64,
}

impl View for CancelStatement {
    type V = CancelRequest;

    open spec fn view(&self) -> CancelRequest {
        CancelRequest { ids: self.ids@, build_status: self.build_status, time: self.time }
    }
}

impl CancelRequest {
    /// Whether `row` is cancelled: it is asked for and still unfinished.
    pub open spec fn selects(self, row: BuildRow) -> bool {
        self.ids.contains(row.id) && row.finished == UNFINISHED
    }

    /// What becomes of `row`.
    pub open spec fn updated(self, row: BuildRow) -> BuildRow {
        if self.selects(row) {
            BuildRow {
                id: row.id,
                finished: FINISHED,
                build_status: Some(self.build_status),
                start_time: Some(self.time),
                stop_time: Some(self.time),
            }
        } else {
            row
        }
    }

    /// What becomes of a table.
    pub open spec fn updated_rows(self, rows: Seq<BuildRow>) -> Seq<BuildRow> {
        Seq::new(rows.len(), |i: int| self.updated(rows[i]))
    }

    /// The ids of the rows of a table that are cancelled, in its order.
    pub open spec fn cancelled_ids(self, rows: Seq<BuildRow>) -> Seq<BuildID>
        decreases rows.len(),
    {
        if rows.len() == 0 {
            Seq::empty()
        } else if self.selects(rows.last()) {
            self.cancelled_ids(rows.drop_last()).push(rows.last().id)
        } else {
            self.cancelled_ids(rows.drop_last())
        }
    }
}

/// Whether `row` is one of `ids` and finished.
pub open spec fn finished_among(ids: Seq<BuildID>, row: BuildRow) -> bool {
    ids.contains(row.id) && row.finished == FINISHED
}

/// The ids of the finished rows among `ids`, in the order of the table.
pub open spec fn finished_ids(ids: Seq<BuildID>, rows: Seq<BuildRow>) -> Seq<BuildID>
    decreases rows.len(),
{
    if rows.len() == 0 {
        Seq::empty()
    } else if finished_among(ids, rows.last()) {
        finished_ids(ids, rows.drop_last()).push(rows.last().id)
    } else {
        finished_ids(ids, rows.drop_last())
    }
}

/// The columns of the row of a finished build.
#[derive(Debug, Clone, Copy, PartialEq, Eq, Structural)]
pub struct FinishedRow {
    pub build_status: Option<i32>,
    pub start_time: Option<i64>,
    pub stop_time: Option<i64>,
}

/// The columns of the first row of `build_id` that is finished, if there is one.
pub open spec fn finished_row(build_id: BuildID, rows: Seq<BuildRow>) -> Option<FinishedRow>
    decreases rows.len(),
{
    if rows.len() == 0 {
        None
    } else if rows[0].id == build_id && rows[0].finished == FINISHED {
        Some(
            FinishedRow {
                build_status: rows[0].build_status,
                start_time: rows[0].start_time,
                stop_time: rows[0].stop_time,
            },
        )
    } else {
        finished_row(build_id, rows.drop_first())
    }
}

fn contains_id(ids: &Vec<BuildID>, id: BuildID) -> (res: bool)
    ensures
        res == ids@.contains(id),
{
    let mut i: usize = 0;
    while i < ids.len()
        invariant
            i <= ids.len(),
            forall|j: int| 0 <= j < i ==> ids@[j] != id,
        decreases ids.len() - i,
    {
        if ids[i] == id {
            return true;
        }
        i += 1;
    }
    false
}

impl CancelStatement {
    /// Applies the statement to the rows of a table held in memory. Returns
    /// the ids that it cancelled; rows that are already finished are left
    /// alone.
    pub fn apply(&self, rows: &mut Vec<BuildRow>) -> (cancelled: Vec<BuildID>)
        ensures
            final(rows)@ == self@.updated_rows(old(rows)@),
            cancelled@ == self@.cancelled_ids(old(rows)@),
    {
        let ghost before = rows@;
        let mut cancelled: Vec<BuildID> = Vec::new();
        let mut i: usize = 0;
        while i < rows.len()
            invariant
                i <= rows.len(),
                rows.len() == before.len(),
                forall|j: int| 0 <= j < i ==> rows@[j] == self@.updated(before[j]),
                forall|j: int| i <= j < rows.len() ==> rows@[j] == before[j],
                cancelled@ == self@.cancelled_ids(before.take(i as int)),
            decreases rows.len() - i,
        {
            let row: BuildRow = rows[i];
            proof {
                assert(before.take(i + 1).drop_last() =~= before.take(i as int));
                assert(before.take(i + 1).last() == row);
            }
            if row.finished == UNFINISHED && contains_id(&self.ids, row.id) {
                cancelled.push(row.id);
                rows.set(
                    i,
                    BuildRow {
                        id: row.id,
                        finished: FINISHED,
                        build_status: Some(self.build_status),
                        start_time: Some(self.time),
                        stop_time: Some(self.time),
                    },
                );
            }
            i += 1;
        }
        assert(before.take(i as int) =~= before);
        assert(rows@ =~= self@.updated_rows(before));
        cancelled
    }
}

/// Looks up, in a table held in memory, which of `ids` are finished.
pub fn select_finished(ids: &Vec<BuildID>, rows: &Vec<BuildRow>) -> (finished: Vec<BuildID>)
    ensures
        finished@ == finished_ids(ids@, rows@),
{
    let mut finished: Vec<BuildID> = Vec::new();
    let mut i: usize = 0;
    while i < rows.len()
        invariant
            i <= rows.len(),
            finished@ == finished_ids(ids@, rows@.take(i as int)),
        decreases rows.len() - i,
    {
        let row: BuildRow = rows[i];
        proof {
            assert(rows@.take(i + 1).drop_last() =~= rows@.take(i as int));
            assert(rows@.take(i + 1).last() == row);
        }
        if row.finished == FINISHED && contains_id(ids, row.id) {
            finished.push(row.id);
        }
        i += 1;
    }
    assert(rows@.take(i as int) =~= rows@);
    finished
}

/// Looks up, in a table held in memory, the row of `build_id` if it is finished.
pub fn select_finished_build(build_id: BuildID, rows: &Vec<BuildRow>) -> (row: Option<FinishedRow>)
    ensures
        row == finished_row(build_id, rows@),
{
    let mut i: usize = 0;
    assert(rows@.skip(0) =~= rows@);
    while i < rows.len()
        invariant
            i <= rows.len(),
            finished_row(build_id, rows@) == finished_row(build_id, rows@.skip(i as int)),
        decreases rows.len() - i,
    {
        let row: BuildRow = rows[i];
        assert(rows@.skip(i as int)[0] == row);
        assert(rows@.skip(i as int).drop_first() =~= rows@.skip(i + 1));
        if row.id == build_id && row.finished == FINISHED {
            return Some(
                FinishedRow {
                    build_status: row.build_status,
                    start_time: row.start_time,
                    stop_time: row.stop_time,
                },
            );
        }
        i += 1;
    }
    None
}

/// Cancelling leaves a row alone unless the row is asked for and unfinished;
/// in particular it never changes the fate of a finished build.
pub proof fn law_cancel_leaves_finished_builds_alone(request: CancelRequest, row: BuildRow)
    ensures
        row.finished != UNFINISHED ==> request.updated(row) == row,
        !request.ids.contains(row.id) ==> request.updated(row) == row,
{
}

/// An unfinished build that is asked for ends up finished, with the status of
/// a cancelled build, started and stopped at the same second.
pub proof fn law_cancel_marks_unfinished_build_cancelled(request: CancelRequest, row: BuildRow)
    requires
        request.ids.contains(row.id),
        row.finished == UNFINISHED,
    ensures
        ({
            let after = request.updated(row);
            &&& after.id == row.id
            &&& after.finished == FINISHED
            &&& after.build_status == Some(request.build_status)
            &&& after.start_time == Some(request.time)
            &&& after.start_time == after.stop_time
        }),
{
}

proof fn lemma_cancelled_ids_contains(request: CancelRequest, rows: Seq<BuildRow>, id: BuildID)
    ensures
        request.cancelled_ids(rows).contains(id) <==> exists|i: int|
            0 <= i < rows.len() && request.selects(#[trigger] rows[i]) && rows[i].id == id,
    decreases rows.len(),
{
    if rows.len() > 0 {
        let front = rows.drop_last();
        let ids = request.cancelled_ids(front);
        lemma_cancelled_ids_contains(request, front, id);
        assert(forall|i: int| 0 <= i < front.len() ==> front[i] == rows[i]);
        assert(rows.last() == rows[rows.len() - 1]);
        if ids.contains(id) {
            let i = choose|i: int|
                0 <= i < front.len() && request.selects(#[trigger] front[i]) && front[i].id == id;
            assert(request.selects(rows[i]));
            let k = choose|k: int| 0 <= k < ids.len() && ids[k] == id;
            assert(ids.push(rows.last().id)[k] == id);
        }
        if request.selects(rows.last()) {
            let all = ids.push(rows.last().id);
            assert(all.last() == rows.last().id);
            if all.contains(id) && id != rows.last().id {
                let k = choose|k: int| 0 <= k < all.len() && all[k] == id;
                assert(ids[k] == id);
            }
        }
        if exists|i: int|
            0 <= i < rows.len() && request.selects(#[trigger] rows[i]) && rows[i].id == id {
            let i = choose|i: int|
                0 <= i < rows.len() && request.selects(#[trigger] rows[i]) && rows[i].id == id;
            if i < front.len() {
                assert(request.selects(front[i]));
            }
        }
    }
}

/// The ids reported as cancelled are those of the rows that were cancelled.
pub proof fn law_cancelled_ids_are_the_cancelled_rows(
    request: CancelRequest,
    rows: Seq<BuildRow>,
    id: BuildID,
)
    ensures
        request.cancelled_ids(rows).contains(id) <==> exists|i: int|
            0 <= i < rows.len() && (#[trigger] rows[i]).id == id && request.ids.contains(id)
                && rows[i].finished == UNFINISHED,
{
    lemma_cancelled_ids_contains(request, rows, id);
    if request.cancelled_ids(rows).contains(id) {
        let i = choose|i: int|
            0 <= i < rows.len() && request.selects(#[trigger] rows[i]) && rows[i].id == id;
        assert(rows[i].id == id);
    }
    if exists|i: int|
        0 <= i < rows.len() && (#[trigger] rows[i]).id == id && request.ids.contains(id)
            && rows[i].finished == UNFINISHED {
        let i = choose|i: int|
            0 <= i < rows.len() && (#[trigger] rows[i]).id == id && request.ids.contains(id)
                && rows[i].finished == UNFINISHED;
        assert(request.selects(rows[i]));
    }
}

pub(crate) proof fn lemma_nothing_selected(request: CancelRequest, rows: Seq<BuildRow>)
    requires
        forall|i: int| 0 <= i < rows.len() ==> !request.selects(#[trigger] rows[i]),
    ensures
        request.cancelled_ids(rows) == Seq::<BuildID>::empty(),
    decreases rows.len(),
{
    if rows.len() > 0 {
        assert(rows.last() == rows[rows.len() - 1]);
        assert forall|i: int| 0 <= i < rows.drop_last().len() implies !request.selects(
            #[trigger] rows.drop_last()[i],
        ) by {
            assert(rows.drop_last()[i] == rows[i]);
        }
        lemma_nothing_selected(request, rows.drop_last());
    }
}

/// Cancelling again, at whatever later time and with whatever status, cancels
/// nothing and changes nothing: the first cancellation stands.
pub proof fn law_cancelling_twice_is_cancelling_once(
    first: CancelRequest,
    second: CancelRequest,
    rows: Seq<BuildRow>,
)
    requires
        forall|id: BuildID| second.ids.contains(id) ==> first.ids.contains(id),
    ensures
        second.updated_rows(first.updated_rows(rows)) == first.updated_rows(rows),
        second.cancelled_ids(first.updated_rows(rows)) == Seq::<BuildID>::empty(),
{
    let once = first.updated_rows(rows);
    assert forall|i: int| 0 <= i < once.len() implies !second.selects(#[trigger] once[i]) by {
        assert(once[i] == first.updated(rows[i]));
    }
    assert(second.updated_rows(once) =~= once);
    lemma_nothing_selected(second, once);
}

proof fn lemma_finished_ids_contains(ids: Seq<BuildID>, rows: Seq<BuildRow>, i: int)
    requires
        0 <= i < rows.len(),
        finished_among(ids, rows[i]),
    ensures
        finished_ids(ids, rows).contains(rows[i].id),
    decreases rows.len(),
{
    let front = rows.drop_last();
    if i == rows.len() - 1 {
        assert(finished_ids(ids, rows).last() == rows.last().id);
    } else {
        assert(front[i] == rows[i]);
        lemma_finished_ids_contains(ids, front, i);
        let f = finished_ids(ids, front);
        let k = choose|k: int| 0 <= k < f.len() && f[k] == rows[i].id;
        assert(finished_ids(ids, rows)[k] == rows[i].id);
    }
}

/// Once a cancellation has been applied, a look at which of its builds are
/// finished finds every one of them that the table holds, whether it was
/// cancelled now or had been finished before.
pub proof fn law_cancelled_builds_are_finished(
    request: CancelRequest,
    rows: Seq<BuildRow>,
    i: int,
)
    requires
        0 <= i < rows.len(),
        request.ids.contains(rows[i].id),
        rows[i].finished == UNFINISHED || rows[i].finished == FINISHED,
    ensures
        finished_ids(request.ids, request.updated_rows(rows)).contains(rows[i].id),
{
    lemma_finished_ids_contains(request.ids, request.updated_rows(rows), i);
}

/// Whether no two rows have the same id.
pub open spec fn distinct_ids(rows: Seq<BuildRow>) -> bool {
    forall|i: int, j: int|
        0 <= i < j < rows.len() ==> (#[trigger] rows[i]).id != (#[trigger] rows[j]).id
}

proof fn lemma_finished_row(rows: Seq<BuildRow>, i: int)
    requires
        distinct_ids(rows),
        0 <= i < rows.len(),
    ensures
        finished_row(rows[i].id, rows) == (if rows[i].finished == FINISHED {
            Some(
                FinishedRow {
                    build_status: rows[i].build_status,
                    start_time: rows[i].start_time,
                    stop_time: rows[i].stop_time,
                },
            )
        } else {
            None
        }),
    decreases rows.len(),
{
    let rest = rows.drop_first();
    assert forall|a: int, b: int| 0 <= a < b < rest.len() implies (#[trigger] rest[a]).id != (
    #[trigger] rest[b]).id by {
        assert(rows[a + 1].id != rows[b + 1].id);
    }
    if i > 0 {
        assert(rows[0].id != rows[i].id);
        assert(rest[i - 1] == rows[i]);
        lemma_finished_row(rest, i - 1);
    } else if rows[0].finished != FINISHED {
        assert forall|a: int| 0 <= a < rest.len() implies (#[trigger] rest[a]).id != rows[0].id by {
            assert(rows[0].id != rows[a + 1].id);
        }
        lemma_no_finished_row(rows[0].id, rest);
    }
}

proof fn lemma_no_finished_row(build_id: BuildID, rows: Seq<BuildRow>)
    requires
        forall|i: int| 0 <= i < rows.len() ==> (#[trigger] rows[i]).id != build_id,
    ensures
        finished_row(build_id, rows) is None,
    decreases rows.len(),
{
    if rows.len() > 0 {
        let rest = rows.drop_first();
        assert forall|i: int| 0 <= i < rest.len() implies (#[trigger] rest[i]).id != build_id by {
            assert(rest[i] == rows[i + 1]);
        }
        assert(rows[0].id != build_id);
        lemma_no_finished_row(build_id, rest);
    }
}

/// While a build is unfinished a look at its finished row finds none; once it
/// is cancelled, the look finds the status and the time of the cancellation.
pub proof fn law_cancelled_build_is_read_back(request: CancelRequest, rows: Seq<BuildRow>, i: int)
    requires
        distinct_ids(rows),
        0 <= i < rows.len(),
        request.selects(rows[i]),
    ensures
        finished_row(rows[i].id, rows) is None,
        finished_row(rows[i].id, request.updated_rows(rows)) == Some(
            FinishedRow {
                build_status: Some(request.build_status),
                start_time: Some(request.time),
                stop_time: Some(request.time),
            },
        ),
{
    let after = request.updated_rows(rows);
    assert forall|a: int, b: int| 0 <= a < b < after.len() implies (#[trigger] after[a]).id != (
    #[trigger] after[b]).id by {
        assert(rows[a].id != rows[b].id);
    }
    lemma_finished_row(rows, i);
    lemma_finished_row(after, i);
}

/// The request that cancels one build.
pub open spec fn cancel_one(id: BuildID, build_status: i32, time: i64) -> CancelRequest {
    CancelRequest { ids: seq![id], build_status, time }
}

/// The table after each of `ids` was cancelled in turn, the one at `k` at the
/// second `times[k]`.
pub open spec fn cancelled_in_turn(
    ids: Seq<BuildID>,
    build_status: i32,
    times: Seq<i64>,
    rows: Seq<BuildRow>,
) -> Seq<BuildRow>
    decreases ids.len(),
{
    if ids.len() == 0 {
        rows
    } else {
        cancel_one(ids.last(), build_status, times[ids.len() - 1]).updated_rows(
            cancelled_in_turn(ids.drop_last(), build_status, times, rows),
        )
    }
}

/// Cancelling builds one by one, in whatever order and however often, marks
/// each that was unfinished as cancelled, started and stopped together at the
/// second of one of its cancellations, and leaves every other row alone.
pub proof fn law_cancel_all_cancels_tracked_builds(
    ids: Seq<BuildID>,
    build_status: i32,
    times: Seq<i64>,
    rows: Seq<BuildRow>,
    i: int,
)
    requires
        ids.len() <= times.len(),
        0 <= i < rows.len(),
    ensures
        ({
            let after = cancelled_in_turn(ids, build_status, times, rows);
            &&& after.len() == rows.len()
            &&& if ids.contains(rows[i].id) && rows[i].finished == UNFINISHED {
                exists|k: int|
                    0 <= k < ids.len() && #[trigger] ids[k] == rows[i].id && after[i] == cancel_one(
                        rows[i].id,
                        build_status,
                        times[k],
                    ).updated(rows[i])
            } else {
                after[i] == rows[i]
            }
        }),
    decreases ids.len(),
{
    if ids.len() > 0 {
        let front = ids.drop_last();
        let n = ids.len() - 1;
        let request = cancel_one(ids[n], build_status, times[n]);
        let before = cancelled_in_turn(front, build_status, times, rows);
        law_cancel_all_cancels_tracked_builds(front, build_status, times, rows, i);
        assert(request.ids[0] == ids[n]);
        assert(forall|id: BuildID| request.ids.contains(id) ==> id == ids[n]);
        if front.contains(rows[i].id) {
            let k = choose|k: int| 0 <= k < front.len() && front[k] == rows[i].id;
            assert(ids[k] == rows[i].id);
        }
        if ids.contains(rows[i].id) && rows[i].finished == UNFINISHED {
            if front.contains(rows[i].id) {
                let k = choose|k: int|
                    0 <= k < front.len() && #[trigger] front[k] == rows[i].id && before[i]
                        == cancel_one(rows[i].id, build_status, times[k]).updated(rows[i]);
                let one = cancel_one(rows[i].id, build_status, times[k]);
                assert(one.ids[0] == rows[i].id);
                assert(before[i].finished == FINISHED);
                assert(ids[k] == rows[i].id);
            } else {
                let k = choose|k: int| 0 <= k < ids.len() && ids[k] == rows[i].id;
                if k < n {
                    assert(front[k] == rows[i].id);
                }
                assert(ids[n] == rows[i].id);
            }
        } else if rows[i].finished == UNFINISHED {
            assert(ids[n] != rows[i].id);
        }
    }
}

// --- what the statements do to a table -------------------------------------

/// Holds of the rows of `ids` whose `finished` column is `finished`.
pub open spec fn one_of(ids: Seq<BuildID>, finished: int) -> spec_fn(BuildRow) -> bool {
    |row: BuildRow| row.finished == finished && exists|k: int| 0 <= k < ids.len() && ids[k] == row.id
}

/// The id of a row.
pub open spec fn row_id() -> spec_fn(BuildRow) -> BuildID {
    |row: BuildRow| row.id
}

proof fn lemma_cancelled_ids_filter(request: CancelRequest, rows: Seq<BuildRow>)
    ensures
        request.cancelled_ids(rows) == rows.filter(one_of(request.ids, 0)).map_values(row_id()),
    decreases rows.len(),
{
    reveal(Seq::filter);
    if rows.len() > 0 {
        let front = rows.drop_last();
        lemma_cancelled_ids_filter(request, front);
    }
    assert(request.cancelled_ids(rows) =~= rows.filter(one_of(request.ids, 0)).map_values(
        row_id(),
    ));
}

proof fn lemma_finished_ids_filter(ids: Seq<BuildID>, rows: Seq<BuildRow>)
    ensures
        finished_ids(ids, rows) == rows.filter(one_of(ids, 1)).map_values(row_id()),
    decreases rows.len(),
{
    reveal(Seq::filter);
    if rows.len() > 0 {
        let front = rows.drop_last();
        lemma_finished_ids_filter(ids, front);
    }
    assert(finished_ids(ids, rows) =~= rows.filter(one_of(ids, 1)).map_values(row_id()));
}

proof fn lemma_finished_row_is_first(build_id: BuildID, rows: Seq<BuildRow>)
    ensures
        match finished_row(build_id, rows) {
            Some(found) => exists|i: int|
                0 <= i < rows.len() && found_at(build_id, rows, found, i),
            None => forall|i: int|
                0 <= i < rows.len() ==> !((#[trigger] rows[i]).id == build_id && rows[i].finished
                    == 1),
        },
    decreases rows.len(),
{
    if rows.len() > 0 {
        let rest = rows.drop_first();
        lemma_finished_row_is_first(build_id, rest);
        match finished_row(build_id, rows) {
            Some(found) => {
                if rows[0].id == build_id && rows[0].finished == 1 {
                    assert(found_at(build_id, rows, found, 0));
                } else {
                    let i = choose|i: int|
                        0 <= i < rest.len() && found_at(build_id, rest, found, i);
                    assert forall|j: int| 0 <= j < i + 1 implies !((#[trigger] rows[j]).id
                        == build_id && rows[j].finished == 1) by {
                        if j > 0 {
                            assert(rest[j - 1] == rows[j]);
                        }
                    }
                    assert(found_at(build_id, rows, found, i + 1));
                }
            },
            None => {
                assert forall|i: int| 0 <= i < rows.len() implies !((#[trigger] rows[i]).id
                    == build_id && rows[i].finished == 1) by {
                    if i > 0 {
                        assert(rest[i - 1] == rows[i]);
                    }
                }
            },
        }
    }
}

/// Whether `found` holds the columns of the row at `i`, which is finished, is
/// that of `build_id`, and comes before any other such row.
pub open spec fn found_at(
    build_id: BuildID,
    rows: Seq<BuildRow>,
    found: FinishedRow,
    i: int,
) -> bool {
    &&& rows[i].id == build_id
    &&& rows[i].finished == 1
    &&& found.build_status == rows[i].build_status
    &&& found.start_time == rows[i].start_time
    &&& found.stop_time == rows[i].stop_time
    &&& forall|j: int|
        0 <= j < i ==> !((#[trigger] rows[j]).id == build_id && rows[j].finished == 1)
}

/// Applying a statement finishes each row that it names and that is
/// unfinished, with its status and its time at both ends; no other row
/// changes, none comes and none goes. The ids that it returns are those of the
/// finished rows, one for each, in the order of the table.
pub proof fn law_apply_cancels_the_named_unfinished_rows(
    statement: &CancelStatement,
    rows: &mut Vec<BuildRow>,
    cancelled: Vec<BuildID>,
)
    requires
        call_ensures(CancelStatement::apply, (statement, rows), cancelled),
    ensures
        final(rows)@.len() == old(rows)@.len(),
        forall|i: int|
            #![trigger final(rows)@[i]]
            0 <= i < old(rows)@.len() && statement.ids@.contains(old(rows)@[i].id) && old(
                rows,
            )@[i].finished == 0 ==> {
                &&& final(rows)@[i].id == old(rows)@[i].id
                &&& final(rows)@[i].finished == 1
                &&& final(rows)@[i].build_status == Some(statement.build_status)
                &&& final(rows)@[i].start_time == Some(statement.time)
                &&& final(rows)@[i].stop_time == Some(statement.time)
            },
        forall|i: int|
            #![trigger final(rows)@[i]]
            0 <= i < old(rows)@.len() && !(statement.ids@.contains(old(rows)@[i].id) && old(
                rows,
            )@[i].finished == 0) ==> final(rows)@[i] == old(rows)@[i],
        cancelled@ == old(rows)@.filter(one_of(statement.ids@, 0)).map_values(row_id()),
{
    lemma_cancelled_ids_filter(statement@, rows@);
}

/// A look at which builds are finished returns the ids of the finished rows
/// among those asked for, one for each, in the order of the table.
pub proof fn law_select_finished_finds_the_finished_rows(
    ids: &Vec<BuildID>,
    rows: &Vec<BuildRow>,
    finished: Vec<BuildID>,
)
    requires
        call_ensures(select_finished, (ids, rows), finished),
    ensures
        finished@ == rows@.filter(one_of(ids@, 1)).map_values(row_id()),
{
    lemma_finished_ids_filter(ids@, rows@);
}

/// A look at a finished build finds the columns of its first finished row, and
/// nothing only where there is no such row.
pub proof fn law_select_finished_build_finds_the_row(
    build_id: BuildID,
    rows: &Vec<BuildRow>,
    found: Option<FinishedRow>,
)
    requires
        call_ensures(select_finished_build, (build_id, rows), found),
    ensures
        match found {
            Some(found) => exists|i: int|
                0 <= i < rows@.len() && found_at(build_id, rows@, found, i),
            None => forall|i: int|
                0 <= i < rows@.len() ==> !((#[trigger] rows@[i]).id == build_id && rows@[i].finished
                    == 1),
        },
{
    lemma_finished_row_is_first(build_id, rows@);
}

/// A build that was unfinished and is cancelled is found with the status and
/// the time of its cancellation.
pub proof fn law_cancelled_build_is_found(
    statement: &CancelStatement,
    rows: &mut Vec<BuildRow>,
    cancelled: Vec<BuildID>,
    i: int,
    after: &Vec<BuildRow>,
    found: Option<FinishedRow>,
)
    requires
        distinct_ids(old(rows)@),
        0 <= i < old(rows)@.len(),
        old(rows)@[i].finished == 0,
        statement.ids@.contains(old(rows)@[i].id),
        call_ensures(CancelStatement::apply, (statement, rows), cancelled),
        *after == *final(rows),
        call_ensures(select_finished_build, (old(rows)@[i].id, after), found),
    ensures
        cancelled@.contains(old(rows)@[i].id),
        found matches Some(row) && row.build_status == Some(statement.build_status)
            && row.start_time == Some(statement.time) && row.stop_time == Some(statement.time),
{
    law_cancelled_build_is_read_back(statement@, rows@, i);
    law_cancelled_ids_are_the_cancelled_rows(statement@, rows@, rows@[i].id);
}

} // verus!
