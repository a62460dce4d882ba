use hydra_services::clock::{MAX_SECOND, MIN_SECOND};
use hydra_services::inflight::{BuildID, CancelAct, InflightBuilds};
use hydra_services::outputs::OutputRow;
use hydra_services::queries::{
    cancel_abandoned_build, cancel_builds, finished_build_ids, get_finished_build, CancelAction,
    CancelBuilds, CancelEvent, FinishedBuild, FinishedIds, OutputLookup, RowOutcome, CANCEL_SQL,
    FINISHED_BUILD_SQL, FINISHED_IDS_SQL, NOTIFY_SQL,
};
use hydra_services::table::{
    select_finished, select_finished_build, BuildRow, CancelStatement, FinishedRow,
};

const SUCCESS: i32 = 0;
const CANCELLED: i32 = 4;

#[derive(Debug, PartialEq, Clone, Copy)]
enum Status {
    Success,
    Cancelled,
}

fn decode(code: i32) -> Option<Status> {
    match code {
        SUCCESS => Some(Status::Success),
        CANCELLED => Some(Status::Cancelled),
        _ => None,
    }
}

/// A database in memory.
#[derive(Debug, Default)]
struct Db {
    rows: Vec<BuildRow>,
    notified: Vec<String>,
    committed: usize,
    /// The step that fails, counted from the beginning of the transaction.
    fail_at: Option<usize>,
}

impl Db {
    fn submit(&mut self, id: BuildID) {
        self.rows.push(BuildRow {
            id,
            finished: 0,
            build_status: None,
            start_time: None,
            stop_time: None,
        });
    }

    fn row(&self, id: BuildID) -> BuildRow {
        *self.rows.iter().find(|row| row.id == id).unwrap()
    }

    /// Performs a cancellation; nothing counts unless it is committed.
    fn run(
        &mut self,
        start: (CancelBuilds, CancelAction<String>),
    ) -> Result<Vec<BuildID>, String> {
        let (mut cancel, mut action) = start;
        let mut rows = self.rows.clone();
        let mut notified = Vec::new();
        let mut steps = 0;
        loop {
            let failure = if self.fail_at == Some(steps) {
                Some(format!("step {steps} failed"))
            } else {
                None
            };
            steps += 1;
            let done = match failure.clone() {
                Some(e) => Err(e),
                None => Ok(()),
            };
            let event = match action {
                CancelAction::Begin => CancelEvent::Begun(done),
                CancelAction::Update(statement) => CancelEvent::Updated(match failure {
                    Some(e) => Err(e),
                    None => Ok(statement.apply(&mut rows)),
                }),
                CancelAction::Notify(payload) => {
                    notified.push(payload);
                    CancelEvent::Notified(done)
                }
                CancelAction::Commit => {
                    if done.is_ok() {
                        self.rows = rows.clone();
                        self.notified.append(&mut notified);
                        self.committed += 1;
                    }
                    CancelEvent::Committed(done)
                }
                CancelAction::Return(result) => return result,
            };
            (cancel, action) = cancel.step(event);
        }
    }

    /// Cancels what a registry tracks.
    fn cancel_all(&mut self, inflight: &mut InflightBuilds) -> Vec<BuildID> {
        let mut forgotten = Vec::new();
        let mut cancellation = inflight.cancel_all();
        while let Some(act) = cancellation.next_act() {
            match act {
                CancelAct::Cancel(id) => {
                    let _ = self.run(cancel_abandoned_build(Ok(()), id, CANCELLED));
                }
                CancelAct::Forget(id) => forgotten.push(id),
            }
        }
        forgotten
    }
}

#[test]
fn cancel_all_cancels_tracked_builds() {
    let mut db = Db::default();
    let mut inflight = InflightBuilds::new();
    db.submit(17);
    inflight.register(17);

    let forgotten = db.cancel_all(&mut inflight);

    let row = db.row(17);
    assert_eq!((row.finished, row.build_status), (1, Some(CANCELLED)));
    assert_eq!(forgotten, vec![17]);
    assert_eq!(db.notified, vec!["17"]);
}

#[test]
fn removed_builds_are_not_cancelled() {
    let mut db = Db::default();
    let mut inflight = InflightBuilds::new();
    db.submit(17);
    inflight.register(17);
    inflight.remove(17);

    db.cancel_all(&mut inflight);

    assert_eq!(db.row(17).finished, 0, "a finished build needs no cancellation");
}

#[test]
fn cancel_all_on_empty_registry_is_quiet() {
    let mut db = Db::default();
    let mut inflight = InflightBuilds::new();
    assert_eq!(db.cancel_all(&mut inflight), vec![]);
    assert_eq!(db.committed, 0);
}

#[test]
fn a_failed_cancellation_does_not_keep_the_others_back() {
    let mut db = Db::default();
    let mut inflight = InflightBuilds::new();
    for id in [1, 2] {
        db.submit(id);
        inflight.register(id);
    }
    db.fail_at = Some(0);
    assert_eq!(db.cancel_all(&mut inflight), vec![1, 2]);
    assert_eq!((db.row(1).finished, db.row(2).finished), (0, 0));
}

#[test]
fn cancel_marks_unfinished_build_cancelled() {
    let mut db = Db::default();
    db.submit(3);
    let cancelled = db.run(cancel_builds(vec![3], CANCELLED)).unwrap();
    assert_eq!(cancelled, vec![3]);
    let row = db.row(3);
    assert_eq!(row.finished, 1);
    assert_eq!(row.build_status, Some(CANCELLED));
    assert_eq!(row.start_time, row.stop_time, "start and stop together");
    // The clock was read: it is later than when this test was written.
    let time = row.start_time.unwrap();
    assert!(time > 1_700_000_000);
    assert!(MIN_SECOND <= time && time <= MAX_SECOND);
}

#[test]
fn cancel_leaves_finished_builds_alone() {
    let mut db = Db::default();
    db.submit(3);
    // The queue runner got there first and marked it a success.
    db.rows[0] = BuildRow {
        id: 3,
        finished: 1,
        build_status: Some(SUCCESS),
        start_time: Some(100),
        stop_time: Some(100),
    };
    let cancelled = db.run(cancel_builds(vec![3], CANCELLED)).unwrap();
    assert!(cancelled.is_empty(), "already-finished rows are untouched");
    assert_eq!(db.row(3).build_status, Some(SUCCESS));
    assert_eq!(db.notified, Vec::<String>::new());
    assert_eq!(db.committed, 1);
}

#[test]
fn cancels_several_builds_in_one_transaction() {
    let mut db = Db::default();
    for id in [5, -12, 2147483647, -2147483648, 0] {
        db.submit(id);
    }
    db.rows[0].finished = 1;
    let ids = vec![-2147483648, 5, -12, 2147483647, 99];
    let cancelled = db.run(CancelBuilds::start(ids, CANCELLED, 1234)).unwrap();
    assert_eq!(cancelled, vec![-12, 2147483647, -2147483648]);
    assert_eq!(db.notified, vec!["-12", "2147483647", "-2147483648"]);
    assert_eq!(db.committed, 1);
    assert_eq!(db.row(-12).start_time, Some(1234));
    assert_eq!(db.row(0).finished, 0);
}

#[test]
fn cancelling_nothing_does_nothing() {
    let mut db = Db::default();
    db.submit(1);
    assert_eq!(db.run(cancel_builds(vec![], CANCELLED)), Ok(vec![]));
    assert_eq!(db.run(CancelBuilds::start(vec![], CANCELLED, 7)), Ok(vec![]));
    assert_eq!(db.committed, 0);
    assert_eq!(db.row(1).finished, 0);
}

#[test]
fn a_failure_is_returned_and_nothing_is_committed() {
    // Begin, update, two notifications, commit.
    for step in 0..5 {
        let mut db = Db::default();
        db.submit(1);
        db.submit(2);
        db.fail_at = Some(step);
        let res = db.run(CancelBuilds::start(vec![1, 2], CANCELLED, 7));
        assert_eq!(res, Err(format!("step {step} failed")));
        assert_eq!(db.committed, 0);
        assert_eq!(db.notified, Vec::<String>::new());
        assert_eq!((db.row(1).finished, db.row(2).finished), (0, 0));
    }
}

#[test]
fn cancelling_twice_is_cancelling_once() {
    let mut db = Db::default();
    db.submit(1);
    assert_eq!(db.run(CancelBuilds::start(vec![1], CANCELLED, 7)), Ok(vec![1]));
    assert_eq!(db.run(CancelBuilds::start(vec![1], CANCELLED, 8)), Ok(vec![]));
    assert_eq!(db.row(1).stop_time, Some(7));
}

#[test]
fn abandoned_build_needs_a_connection() {
    let (_, action) = cancel_abandoned_build(Err("no connection".to_string()), 3, CANCELLED);
    match action {
        CancelAction::Return(res) => assert_eq!(res, Err("no connection".to_string())),
        other => panic!("{other:?}"),
    }
}

#[test]
fn cancelled_build_is_read_back() {
    let mut rows = vec![BuildRow {
        id: 9,
        finished: 0,
        build_status: None,
        start_time: None,
        stop_time: None,
    }];
    assert_eq!(select_finished_build(9, &rows), None);
    assert_eq!(select_finished(&vec![9], &rows), vec![]);
    let statement = CancelStatement { ids: vec![9], build_status: CANCELLED, time: 55 };
    assert_eq!(statement.apply(&mut rows), vec![9]);
    assert_eq!(
        select_finished_build(9, &rows),
        Some(FinishedRow {
            build_status: Some(CANCELLED),
            start_time: Some(55),
            stop_time: Some(55),
        })
    );
    assert_eq!(select_finished(&vec![8, 9], &rows), vec![9]);
    assert_eq!(select_finished(&vec![8], &rows), vec![]);
}

#[test]
fn finished_ids_are_asked_for_unless_there_are_none() {
    assert!(matches!(finished_build_ids(vec![]), FinishedIds::Known(ids) if ids.is_empty()));
    assert!(matches!(finished_build_ids(vec![2, 1]), FinishedIds::Ask(ids) if ids == vec![2, 1]));
}

fn lookup(row: FinishedRow) -> Option<OutputLookup<Status>> {
    match get_finished_build::<_, String, _>(6, Ok(Some(row)), decode) {
        RowOutcome::ReadOutputs(lookup) => Some(lookup),
        RowOutcome::Return(Ok(None)) => None,
        other => panic!("{other:?}"),
    }
}

fn finished(code: Option<i32>) -> FinishedRow {
    FinishedRow { build_status: code, start_time: Some(10), stop_time: Some(20) }
}

#[test]
fn unfinished_build_is_not_reported() {
    let outcome = get_finished_build::<Status, String, _>(6, Ok(None), decode);
    assert!(matches!(outcome, RowOutcome::Return(Ok(None))));
    // Neither is one without a status, nor one whose status nobody knows.
    assert!(lookup(finished(None)).is_none());
    assert!(lookup(finished(Some(77))).is_none());
}

#[test]
fn failed_lookups_are_returned() {
    let outcome = get_finished_build::<Status, _, _>(6, Err("row".to_string()), decode);
    assert!(matches!(outcome, RowOutcome::Return(Err(e)) if e == "row"));

    let lookup = lookup(finished(Some(SUCCESS))).unwrap();
    let res = lookup.finish(Err("outputs".to_string()), name, path);
    assert_eq!(res.unwrap_err(), "outputs");
}

fn name(text: String) -> Result<String, String> {
    if text.is_empty() {
        Err("empty name".to_string())
    } else {
        Ok(text)
    }
}

fn path(text: String) -> Result<String, String> {
    match text.strip_prefix("/nix/store/") {
        Some(base) => Ok(base.to_string()),
        None => Err(format!("{text} is not in the store")),
    }
}

fn output(name: &str, path: Option<&str>) -> OutputRow {
    OutputRow { name: name.to_string(), path: path.map(|p| p.to_string()) }
}

fn report(rows: Vec<OutputRow>) -> Result<FinishedBuild<Status>, String> {
    let lookup = lookup(finished(Some(SUCCESS))).unwrap();
    assert_eq!(lookup.build_id, 6);
    lookup.finish(Ok(rows), name, path).map(|build| build.unwrap())
}

#[test]
fn finished_build_is_reported_with_its_outputs() {
    let build = report(vec![
        output("out", Some("/nix/store/a-hello")),
        output("dev", Some("/nix/store/b-hello-dev")),
        output("doc", None),
    ])
    .unwrap();
    assert_eq!(build.status, Status::Success);
    assert_eq!((build.start_time, build.stop_time), (Some(10), Some(20)));
    assert_eq!(
        *build.outputs.entries(),
        vec![
            ("dev".to_string(), "b-hello-dev".to_string()),
            ("out".to_string(), "a-hello".to_string()),
        ]
    );
    assert_eq!(build.outputs.get("out"), Some(&"a-hello".to_string()));
    assert_eq!(build.outputs.get("doc"), None);
}

#[test]
fn failed_build_has_no_outputs() {
    assert!(report(vec![]).unwrap().outputs.entries().is_empty());
    let lookup = lookup(finished(Some(CANCELLED))).unwrap();
    assert_eq!(lookup.status, Status::Cancelled);
}

#[test]
fn first_output_that_does_not_parse_is_the_error() {
    let res = report(vec![
        output("out", Some("/nix/store/a-hello")),
        // A row without a path is not parsed at all.
        output("", None),
        output("dev", Some("/tmp/x")),
        output("", Some("/nix/store/c")),
    ]);
    assert_eq!(res.unwrap_err(), "/tmp/x is not in the store");
    // The name is parsed before the path.
    assert_eq!(report(vec![output("", Some("/tmp/x"))]).unwrap_err(), "empty name");
}

#[test]
fn later_output_of_the_same_name_counts() {
    let build = report(vec![
        output("out", Some("/nix/store/a")),
        output("lib", Some("/nix/store/b")),
        output("out", Some("/nix/store/c")),
    ])
    .unwrap();
    assert_eq!(
        *build.outputs.entries(),
        vec![("lib".to_string(), "b".to_string()), ("out".to_string(), "c".to_string())]
    );
}

#[test]
fn statements_name_their_guards() {
    assert!(CANCEL_SQL.contains("id = ANY($1) AND finished = 0"));
    assert!(CANCEL_SQL.contains("startTime = $3, stopTime = $3"));
    assert!(FINISHED_IDS_SQL.contains("id = ANY($1) AND finished = 1"));
    assert!(FINISHED_BUILD_SQL.contains("id = $1 AND finished = 1"));
    assert!(NOTIFY_SQL.contains("'build_finished'"));
}
