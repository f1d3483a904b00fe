//! Starting, stopping, resuming and restarting tasks.
use vstd::prelude::*;

use crate::paths;
use crate::paths::FsPath;
use crate::settings::AppSettings;
use crate::tasks::lifecycle;
use crate::tasks::places;
use crate::tasks::queue;
use crate::tasks::record;
use crate::tasks::record::{RecordView, TaskKind, TaskRecord, TaskState};
use crate::tasks::store::{StoreError, StoreErrorView, StoreView, TaskStore, WriteView};
use crate::text;

verus! {

// ---------------------------------------------------------------------------
// What can go wrong
// ---------------------------------------------------------------------------

/// What is asked for.
#[derive(Clone, Copy, PartialEq, Eq, Structural)]
pub enum ControlOp {
    Stop,
    Resume,
    Restart,
}

/// Why it is refused.
pub enum ControlError {
    /// The task cannot be loaded.
    Store(StoreError),
    /// The task is in a state in which this cannot be asked of it.
    WrongState(ControlOp),
    /// The playlist has no item of which this can be asked.
    NothingToDo(ControlOp),
    /// There is no program to download with.
    NoProgram,
    /// The place of the task leads out of the download root.
    OutsideRoot,
}

/// What a [`ControlError`] says.
#[verifier::ext_equal]
pub enum ControlErrorView {
    Store(StoreErrorView),
    WrongState(ControlOp),
    NothingToDo(ControlOp),
    NoProgram,
    OutsideRoot,
}

impl View for ControlError {
    type V = ControlErrorView;

    open spec fn view(&self) -> ControlErrorView {
        match self {
            ControlError::Store(error) => ControlErrorView::Store(error@),
            ControlError::WrongState(op) => ControlErrorView::WrongState(*op),
            ControlError::NothingToDo(op) => ControlErrorView::NothingToDo(*op),
            ControlError::NoProgram => ControlErrorView::NoProgram,
            ControlError::OutsideRoot => ControlErrorView::OutsideRoot,
        }
    }
}

impl ControlErrorView {
    /// The message, where `shown` is the file that the error is about, as the system writes it.
    pub open spec fn text(self, shown: Seq<char>) -> Seq<char> {
        match self {
            ControlErrorView::Store(error) => error.text(shown),
            ControlErrorView::WrongState(ControlOp::Stop) => "task is not currently downloading"@,
            ControlErrorView::WrongState(ControlOp::Resume) =>
                "task can only be resumed from paused or failed state"@,
            ControlErrorView::WrongState(ControlOp::Restart) =>
                "stop the task before restarting it"@,
            ControlErrorView::NothingToDo(ControlOp::Stop) =>
                "playlist has no running or queued child tasks to stop"@,
            ControlErrorView::NothingToDo(ControlOp::Resume) =>
                "playlist has no paused or failed child tasks to resume"@,
            ControlErrorView::NothingToDo(ControlOp::Restart) =>
                "playlist has no child tasks eligible for restart"@,
            ControlErrorView::NoProgram => "yt-dlp is not configured"@,
            ControlErrorView::OutsideRoot => "路径必须限制在下载根目录内"@,
        }
    }
}

impl ControlError {
    /// The message, where `shown` is the file that the error is about, as the system writes it.
    pub fn message(&self, shown: &str) -> (r: String)
        ensures
            r@ == self@.text(shown@),
    {
        match self {
            ControlError::Store(error) => error.message(shown),
            ControlError::WrongState(op) => match op {
                ControlOp::Stop => "task is not currently downloading".to_owned(),
                ControlOp::Resume =>
                    "task can only be resumed from paused or failed state".to_owned(),
                ControlOp::Restart => "stop the task before restarting it".to_owned(),
            },
            ControlError::NothingToDo(op) => match op {
                ControlOp::Stop =>
                    "playlist has no running or queued child tasks to stop".to_owned(),
                ControlOp::Resume =>
                    "playlist has no paused or failed child tasks to resume".to_owned(),
                ControlOp::Restart =>
                    "playlist has no child tasks eligible for restart".to_owned(),
            },
            ControlError::NoProgram => "yt-dlp is not configured".to_owned(),
            ControlError::OutsideRoot => "路径必须限制在下载根目录内".to_owned(),
        }
    }
}

// ---------------------------------------------------------------------------
// One task
// ---------------------------------------------------------------------------

/// What becomes of a task of which this is asked; `None` where it cannot be asked. An item of a
/// playlist that is stopped before its download has started is paused.
pub open spec fn controlled(
    task: RecordView,
    op: ControlOp,
    item: bool,
    now: Seq<char>,
) -> Option<RecordView> {
    match op {
        ControlOp::Stop => if task.state == TaskState::Downloading {
            Some(RecordView { state: TaskState::Stopping, updated_at: now, ..task })
        } else if item && task.state == TaskState::Queued {
            Some(RecordView { state: TaskState::Paused, updated_at: now, ..task })
        } else {
            None
        },
        ControlOp::Resume => if task.state == TaskState::Paused || task.state
            == TaskState::Failed {
            Some(RecordView { state: TaskState::Queued, updated_at: now, ..task })
        } else {
            None
        },
        ControlOp::Restart => if task.state == TaskState::Downloading || task.state
            == TaskState::Stopping {
            None
        } else {
            Some(
                RecordView {
                    state: TaskState::Queued,
                    last_error: None,
                    output_files: Seq::empty(),
                    updated_at: now,
                    ..task
                },
            )
        },
    }
}

/// What becomes of a task of which this is asked; `None` where it cannot be asked.
pub fn control_task(task: &TaskRecord, op: ControlOp, item: bool, now: &str) -> (r: Option<
    TaskRecord,
>)
    ensures
        record::record_opt(r) == controlled(task@, op, item, now@),
{
    let mut after = task.clone();
    match op {
        ControlOp::Stop => {
            if task.state == TaskState::Downloading {
                after.state = TaskState::Stopping;
            } else if item && task.state == TaskState::Queued {
                after.state = TaskState::Paused;
            } else {
                return None;
            }
        },
        ControlOp::Resume => {
            if task.state == TaskState::Paused || task.state == TaskState::Failed {
                after.state = TaskState::Queued;
            } else {
                return None;
            }
        },
        ControlOp::Restart => {
            if task.state == TaskState::Downloading || task.state == TaskState::Stopping {
                return None;
            }
            after.state = TaskState::Queued;
            after.last_error = None;
            after.output_files = Vec::new();
            assert(after@.output_files =~= Seq::<Seq<char>>::empty());
        },
    }
    after.stamp(now);
    Some(after)
}

/// The store after a task was brought to where it was asked to be: it is saved, and it enters
/// the queue or leaves it.
pub open spec fn settled(store: StoreView, after: RecordView, now: Seq<char>) -> StoreView {
    let saved = store.apply(WriteView::SaveTask(after));
    match after.state {
        TaskState::Queued => saved.appended(after.id, now),
        TaskState::Paused => saved.dequeued(seq![after.id], now),
        _ => saved,
    }
}

fn settle(store: &mut TaskStore, after: &TaskRecord, now: &str)
    ensures
        final(store)@ == settled(old(store)@, after@, now@),
{
    store.save_task(after);
    if after.state == TaskState::Queued {
        store.append_to_queue_at(after.id.as_str(), now);
    } else if after.state == TaskState::Paused {
        let mut ids: Vec<String> = Vec::new();
        ids.push(after.id.clone());
        assert(text::texts(ids@) =~= seq![after.id@]);
        store.remove_from_queue_at(&ids, now);
    }
}

/// What follows when a task was brought to where it was asked to be.
#[derive(Clone, Copy, PartialEq, Eq, Structural)]
pub struct ControlEffects {
    /// The playlists are brought in line with their items.
    pub refresh: bool,
    /// The running download is told to stop.
    pub signal: bool,
    /// Tasks that wait are started, as far as there is room.
    pub schedule: bool,
}

/// What follows when a task was brought into this state. An item that is taken out of the queue
/// is one of several: the playlists are refreshed after the last of them.
pub open spec fn effects_of(state: TaskState) -> ControlEffects {
    ControlEffects {
        refresh: state != TaskState::Paused,
        signal: state == TaskState::Stopping,
        schedule: state == TaskState::Queued,
    }
}

/// What follows when a task was brought to where it was asked to be.
pub fn control_effects(task: &TaskRecord) -> (r: ControlEffects)
    ensures
        r == effects_of(task@.state),
{
    ControlEffects {
        refresh: task.state != TaskState::Paused,
        signal: task.state == TaskState::Stopping,
        schedule: task.state == TaskState::Queued,
    }
}

// ---------------------------------------------------------------------------
// A task or all items of a playlist
// ---------------------------------------------------------------------------

/// What is still to be asked, and of which tasks.
pub struct ControlRun {
    pub op: ControlOp,
    /// The tasks are the items of a playlist.
    pub items: bool,
    pub ids: Vec<String>,
    /// How many of the tasks were looked at.
    pub next: usize,
    /// Some task was brought to where it was asked to be.
    pub affected: bool,
}

/// What a [`ControlRun`] says.
#[verifier::ext_equal]
pub struct RunView {
    pub op: ControlOp,
    pub items: bool,
    /// The tasks that were not looked at yet.
    pub left: Seq<Seq<char>>,
    pub affected: bool,
}

impl View for ControlRun {
    type V = RunView;

    open spec fn view(&self) -> RunView {
        RunView {
            op: self.op,
            items: self.items,
            left: text::texts(self.ids@).skip(self.next as int),
            affected: self.affected,
        }
    }
}

/// What came of a step.
pub enum ControlStep {
    /// The task that was loaded under this id is now this. A stopped download must be told so,
    /// and the files of a restarted one be cleaned up.
    Changed { id: String, task: TaskRecord },
    /// There is nothing more to do.
    Done,
    /// It cannot be done.
    Refused(ControlError),
}

/// What a [`ControlStep`] says.
#[verifier::ext_equal]
pub enum StepView {
    Changed { id: Seq<char>, task: RecordView },
    Done,
    Refused(ControlErrorView),
}

impl View for ControlStep {
    type V = StepView;

    open spec fn view(&self) -> StepView {
        match self {
            ControlStep::Changed { id, task } => StepView::Changed { id: id@, task: task@ },
            ControlStep::Done => StepView::Done,
            ControlStep::Refused(error) => StepView::Refused(error@),
        }
    }
}

/// A run: what is left of it, the store, and what came of the last step.
#[verifier::ext_equal]
pub struct RunOutcome {
    pub run: RunView,
    pub store: StoreView,
    pub step: StepView,
}

impl RunView {
    /// The run, at its beginning.
    pub open spec fn begun(task: RecordView, task_id: Seq<char>, op: ControlOp) -> RunView {
        if task.task_kind == TaskKind::PlaylistParent {
            RunView { op, items: true, left: task.child_task_ids, affected: false }
        } else {
            RunView { op, items: false, left: seq![task_id], affected: false }
        }
    }

    /// The run after the next task that something could be asked of. Items of a playlist of
    /// which it cannot be asked are passed over.
    pub open spec fn advanced(self, store: StoreView, now: Seq<char>) -> RunOutcome
        decreases self.left.len(),
    {
        if self.left.len() == 0 {
            RunOutcome {
                run: self,
                store,
                step: if self.affected {
                    StepView::Done
                } else {
                    StepView::Refused(ControlErrorView::NothingToDo(self.op))
                },
            }
        } else {
            let id = self.left[0];
            let rest = RunView { left: self.left.skip(1), ..self };
            match store.task(id) {
                Err(error) => RunOutcome {
                    run: rest,
                    store,
                    step: StepView::Refused(ControlErrorView::Store(error)),
                },
                Ok(task) => match controlled(task, self.op, self.items, now) {
                    Some(after) => RunOutcome {
                        run: RunView { affected: true, ..rest },
                        store: settled(store, after, now),
                        step: StepView::Changed { id, task: after },
                    },
                    None => if self.items {
                        rest.advanced(store, now)
                    } else {
                        RunOutcome {
                            run: rest,
                            store,
                            step: StepView::Refused(ControlErrorView::WrongState(self.op)),
                        }
                    },
                },
            }
        }
    }
}

impl ControlRun {
    /// All tasks that were looked at are among those of the run.
    pub open spec fn wf(self) -> bool {
        self.next <= self.ids@.len()
    }

    /// Begins to ask something of a task, or of all items of a playlist.
    pub fn begin(store: &TaskStore, task_id: &str, op: ControlOp) -> (r: Result<
        Self,
        ControlError,
    >)
        ensures
            match store@.task(task_id@) {
                Ok(task) => r is Ok && r->Ok_0.wf() && r->Ok_0@ == RunView::begun(
                    task,
                    task_id@,
                    op,
                ),
                Err(error) => r is Err && r->Err_0@ == ControlErrorView::Store(error),
            },
    {
        let task = match store.load_task(task_id) {
            Ok(task) => task,
            Err(error) => {
                return Err(ControlError::Store(error));
            },
        };
        let items = task.task_kind == TaskKind::PlaylistParent;
        let ids = if items {
            task.child_task_ids
        } else {
            let mut ids: Vec<String> = Vec::new();
            ids.push(task_id.to_owned());
            assert(text::texts(ids@) =~= seq![task_id@]);
            ids
        };
        let run = ControlRun { op, items, ids, next: 0, affected: false };
        assert(text::texts(run.ids@).skip(0) =~= text::texts(run.ids@));
        Ok(run)
    }

    /// Goes on to the next task that something can be asked of, at `now`.
    pub fn advance(&mut self, store: &mut TaskStore, now: &str) -> (r: ControlStep)
        requires
            old(self).wf(),
        ensures
            final(self).wf(),
            (RunOutcome { run: final(self)@, store: final(store)@, step: r@ }) == old(
                self,
            )@.advanced(old(store)@, now@),
    {
        let ghost whole = text::texts(self.ids@);
        let ghost goal = self@.advanced(store@, now@);
        while self.next < self.ids.len()
            invariant
                self.wf(),
                whole == text::texts(self.ids@),
                goal == old(self)@.advanced(old(store)@, now@),
                self@.advanced(store@, now@) == goal,
            decreases self.ids.len() - self.next,
        {
            let at = self.next;
            assert(self@.left[0] == self.ids@[at as int]@);
            assert(whole.skip(at as int).skip(1) =~= whole.skip(at + 1));
            self.next = at + 1;
            let task = match store.load_task(self.ids[at].as_str()) {
                Ok(task) => task,
                Err(error) => {
                    return ControlStep::Refused(ControlError::Store(error));
                },
            };
            match control_task(&task, self.op, self.items, now) {
                Some(after) => {
                    settle(store, &after, now);
                    self.affected = true;
                    return ControlStep::Changed { id: self.ids[at].clone(), task: after };
                },
                None => {
                    if !self.items {
                        return ControlStep::Refused(ControlError::WrongState(self.op));
                    }
                },
            }
        }
        assert(self@.left.len() == 0);
        if self.affected {
            ControlStep::Done
        } else {
            ControlStep::Refused(ControlError::NothingToDo(self.op))
        }
    }
}

// ---------------------------------------------------------------------------
// Starting
// ---------------------------------------------------------------------------

/// The next task to start, as long as fewer than `max` are running.
pub open spec fn next_start(
    store: StoreView,
    active: Seq<Seq<char>>,
    max: nat,
) -> Option<RecordView> {
    if active.len() >= max {
        None
    } else {
        store.first_startable(store.order(), active)
    }
}

/// The next task to start, as long as fewer than `max` are running. A queue that is missing is
/// made at `now`.
pub fn choose_next(store: &mut TaskStore, active_ids: &Vec<String>, max: usize, now: &str) -> (r:
    Option<TaskRecord>)
    ensures
        record::record_opt(r) == next_start(
            old(store)@,
            text::texts(active_ids@),
            max as nat,
        ),
        final(store)@ == (if active_ids@.len() >= max {
            old(store)@
        } else {
            old(store)@.queue_made(now@)
        }),
{
    assert(text::texts(active_ids@).len() == active_ids@.len());
    if active_ids.len() >= max {
        return None;
    }
    store.find_first_queued_task_excluding_at(active_ids, now)
}

/// Where and with what a task is downloaded, or why it cannot be.
pub fn prepare_download<'a>(
    task: &TaskRecord,
    settings: &AppSettings,
    yt_dlp: &'a Option<FsPath>,
    windows: bool,
) -> (r: Result<(&'a FsPath, FsPath), ControlError>)
    ensures
        match *yt_dlp {
            Some(program) => if paths::leaves_root(task@.target_subdir, windows) {
                r is Err && r->Err_0@ == ControlErrorView::OutsideRoot
            } else {
                r is Ok && r->Ok_0.0@ == program@ && r->Ok_0.1@ == places::output_place(
                    settings@.download_root,
                    task@.target_subdir,
                )
            },
            None => r is Err && r->Err_0@ == ControlErrorView::NoProgram,
        },
{
    match yt_dlp {
        Some(program) => match places::output_directory(
            settings,
            task.target_subdir.as_str(),
            windows,
        ) {
            Some(place) => Ok((program, place)),
            None => Err(ControlError::OutsideRoot),
        },
        None => Err(ControlError::NoProgram),
    }
}

/// A task whose download has begun.
pub open spec fn started(task: RecordView, now: Seq<char>) -> RecordView {
    RecordView { state: TaskState::Downloading, last_error: None, updated_at: now, ..task }
}

/// A task whose download could not begin.
pub open spec fn not_started(
    task: RecordView,
    message: Seq<char>,
    now: Seq<char>,
) -> RecordView {
    RecordView {
        state: TaskState::Failed,
        last_error: Some(message),
        updated_at: now,
        ..task
    }
}

/// Notes that the download of a task has begun.
pub fn start_task(store: &mut TaskStore, task: &mut TaskRecord, now: &str)
    ensures
        final(task)@ == started(old(task)@, now@),
        final(store)@ == old(store)@.apply(WriteView::SaveTask(final(task)@)),
{
    task.state = TaskState::Downloading;
    task.last_error = None;
    task.stamp(now);
    store.save_task(task);
}

/// Notes that the download of a task could not begin.
pub fn fail_to_start(store: &mut TaskStore, task: &mut TaskRecord, message: String, now: &str)
    ensures
        final(task)@ == not_started(old(task)@, message@, now@),
        final(store)@ == old(store)@.apply(WriteView::SaveTask(final(task)@)),
{
    task.state = TaskState::Failed;
    task.last_error = Some(message);
    task.stamp(now);
    store.save_task(task);
}

// ---------------------------------------------------------------------------
// Laws of control
// ---------------------------------------------------------------------------

/// What a task is, and how it was ordered: everything that is written once, when it is made.
pub open spec fn same_order(a: RecordView, b: RecordView) -> bool {
    a == (RecordView {
        state: a.state,
        updated_at: a.updated_at,
        output_files: a.output_files,
        last_error: a.last_error,
        ..b
    })
}

/// What a task is and how it was ordered never changes, whatever is asked of it; and it can be
/// asked exactly in the states that allow for it.
pub proof fn control_keeps_the_order(
    task: RecordView,
    op: ControlOp,
    item: bool,
    message: Seq<char>,
    now: Seq<char>,
)
    ensures
        controlled(task, op, item, now) matches Some(after) ==> same_order(after, task),
        same_order(started(task, now), task),
        same_order(not_started(task, message, now), task),
        controlled(task, ControlOp::Stop, false, now) is Some <==> task.state
            == TaskState::Downloading,
        controlled(task, ControlOp::Resume, item, now) is Some <==> task.state == TaskState::Paused
            || task.state == TaskState::Failed,
        controlled(task, ControlOp::Restart, item, now) is None <==> task.state
            == TaskState::Downloading || task.state == TaskState::Stopping,
{
}

/// Whatever is asked of a task cannot be asked of it a second time right away, but for a restart;
/// and what is resumed or restarted can be started. A download is told to stop exactly where one
/// was running, and tasks are started exactly where one entered the queue.
pub proof fn control_takes_effect(task: RecordView, op: ControlOp, item: bool, now: Seq<char>)
    requires
        controlled(task, op, item, now) is Some,
    ensures
        ({
            let after = controlled(task, op, item, now)->0;
            &&& op != ControlOp::Restart ==> controlled(after, op, item, now) is None
            &&& op == ControlOp::Restart ==> controlled(after, op, item, now) == Some(after)
            &&& op != ControlOp::Stop ==> after.state == TaskState::Queued
            &&& op == ControlOp::Stop ==> after.state == TaskState::Stopping || after.state
                == TaskState::Paused
            &&& effects_of(after.state).signal <==> op == ControlOp::Stop && task.state
                == TaskState::Downloading
            &&& effects_of(after.state).schedule <==> op != ControlOp::Stop
        }),
{
}

/// A task that is resumed or restarted is loaded again as such and stands in the queue; one that
/// is paused does not.
pub proof fn control_settles_the_queue(store: StoreView, after: RecordView, now: Seq<char>)
    ensures
        settled(store, after, now).task(after.id) == Ok::<RecordView, StoreErrorView>(after),
        after.state == TaskState::Queued ==> settled(store, after, now).order().contains(after.id),
        after.state == TaskState::Paused ==> !settled(store, after, now).order().contains(
            after.id,
        ),
        store.order().no_duplicates() ==> settled(store, after, now).order().no_duplicates(),
{
    let saved = store.apply(WriteView::SaveTask(after));
    let one = seq![after.id];
    assert(one[0] == after.id);
    queue::a_saved_task_is_loaded_again(store, after, after.id);
    queue::appending_keeps_places(saved, after.id, now);
    queue::removal_leaves_the_others(saved.order(), one, after.id);
    if store.order().no_duplicates() {
        queue::queue_stays_without_repetitions(saved, after.id, one, now);
    }
}

/// A run over the items of a playlist ends after as many steps as there are items, at most: each
/// step that does not end it leaves fewer items. It ends well exactly when something was done.
pub proof fn runs_end(run: RunView, store: StoreView, now: Seq<char>)
    ensures
        ({
            let next = run.advanced(store, now);
            &&& next.step is Changed ==> next.run.left.len() < run.left.len() && next.run.affected
            &&& next.step is Done ==> run.affected && next.run.left.len() == 0
            &&& next.step !is Changed ==> next.store == store
            &&& next.step matches StepView::Changed { id, task } ==> run.left.contains(id)
                && next.store == settled(store, task, now)
            &&& run.op == next.run.op && run.items == next.run.items
        }),
    decreases run.left.len(),
{
    if run.left.len() > 0 {
        let rest = RunView { left: run.left.skip(1), ..run };
        runs_end(rest, store, now);
        let next = rest.advanced(store, now);
        if next.step is Changed {
            let id = next.step->id;
            let k = choose|k: int| 0 <= k < rest.left.len() && rest.left[k] == id;
            assert(run.left[k + 1] == id);
        }
        assert(run.left[0] == run.left[0]);
    }
}

/// This can be asked of the task in its state.
pub open spec fn can_be_asked(task: RecordView, op: ControlOp, item: bool) -> bool {
    match op {
        ControlOp::Stop => task.state == TaskState::Downloading || (item && task.state
            == TaskState::Queued),
        ControlOp::Resume => task.state == TaskState::Paused || task.state == TaskState::Failed,
        ControlOp::Restart => task.state != TaskState::Downloading && task.state
            != TaskState::Stopping,
    }
}

impl RunView {
    /// The run at its end, each of its steps taken at the next of these times.
    pub open spec fn ended(self, store: StoreView, times: Seq<Seq<char>>) -> RunOutcome
        decreases self.left.len(),
    {
        proof {
            runs_end(self, store, times[0]);
        }
        let next = self.advanced(store, times[0]);
        if next.step is Changed {
            next.run.ended(next.store, times.skip(1))
        } else {
            next
        }
    }
}

/// How many of the tasks of these ids, from the first on, can be loaded.
pub open spec fn loadable(store: StoreView, ids: Seq<Seq<char>>) -> nat
    decreases ids.len(),
{
    if ids.len() == 0 || store.task(ids[0]) is Err {
        0
    } else {
        1 + loadable(store, ids.skip(1))
    }
}

/// Those tasks of these ids that can be loaded are loaded under their own ids.
pub open spec fn own_ids(store: StoreView, ids: Seq<Seq<char>>) -> bool {
    forall|j: int|
        0 <= j < ids.len() ==> (store.task(#[trigger] ids[j]) matches Ok(task) ==> task.id
            == ids[j])
}

/// One of the tasks of these ids is such that this can be asked of it.
pub open spec fn some_can_be_asked(store: StoreView, ids: Seq<Seq<char>>, op: ControlOp) -> bool {
    exists|j: int|
        0 <= j < ids.len() && can_be_asked(store.task(#[trigger] ids[j])->Ok_0, op, true)
}

/// What is to come of an item that was `task` once a run over the items has asked this of it, at
/// one of these times.
pub open spec fn asked_at_some_time(
    result: Result<RecordView, StoreErrorView>,
    task: RecordView,
    op: ControlOp,
    times: Seq<Seq<char>>,
) -> bool {
    exists|k: int|
        0 <= k < times.len() && result == Ok::<RecordView, StoreErrorView>(
            controlled(task, op, true, #[trigger] times[k])->0,
        )
}

proof fn lemma_settled(store: StoreView, after: RecordView, now: Seq<char>, id: Seq<char>)
    ensures
        settled(store, after, now).task(after.id) == Ok::<RecordView, StoreErrorView>(after),
        id != after.id ==> settled(store, after, now).task(id) == store.task(id),
        settled(store, after, now).order().contains(id) <==> (match after.state {
            TaskState::Queued => store.order().contains(id) || id == after.id,
            TaskState::Paused => store.order().contains(id) && id != after.id,
            _ => store.order().contains(id),
        }),
        after.state != TaskState::Paused ==> store.order().is_prefix_of(
            settled(store, after, now).order(),
        ),
{
    let saved = store.apply(WriteView::SaveTask(after));
    let one = seq![after.id];
    assert(one[0] == after.id);
    queue::a_saved_task_is_loaded_again(store, after, id);
    queue::appending_keeps_places(saved, after.id, now);
    queue::removal_leaves_the_others(saved.order(), one, id);
    if after.state == TaskState::Queued && !saved.order().contains(after.id) {
        let longer = saved.order().push(after.id);
        assert(longer.contains(id) <==> saved.order().contains(id) || id == after.id) by {
            if saved.order().contains(id) {
                let k = choose|k: int| 0 <= k < saved.order().len() && saved.order()[k] == id;
                assert(longer[k] == id);
            }
            assert(longer[saved.order().len() as int] == after.id);
        }
    }
}

proof fn lemma_loadable(store: StoreView, ids: Seq<Seq<char>>)
    ensures
        loadable(store, ids) <= ids.len(),
        forall|j: int| 0 <= j < loadable(store, ids) ==> store.task(#[trigger] ids[j]) is Ok,
        loadable(store, ids) < ids.len() ==> store.task(ids[loadable(store, ids) as int]) is Err,
    decreases ids.len(),
{
    if ids.len() > 0 && store.task(ids[0]) is Ok {
        let rest = ids.skip(1);
        lemma_loadable(store, rest);
        assert forall|j: int| 0 <= j < loadable(store, ids) implies store.task(
            #[trigger] ids[j],
        ) is Ok by {
            if j > 0 {
                assert(ids[j] == rest[j - 1]);
            }
        }
    }
}

proof fn lemma_same_loadable(a: StoreView, b: StoreView, ids: Seq<Seq<char>>)
    requires
        forall|j: int|
            0 <= j < ids.len() ==> (a.task(#[trigger] ids[j]) is Ok <==> b.task(ids[j]) is Ok),
    ensures
        loadable(a, ids) == loadable(b, ids),
    decreases ids.len(),
{
    if ids.len() > 0 {
        let rest = ids.skip(1);
        assert forall|j: int| 0 <= j < rest.len() implies (a.task(#[trigger] rest[j]) is Ok
            <==> b.task(rest[j]) is Ok) by {
            assert(rest[j] == ids[j + 1]);
        }
        lemma_same_loadable(a, b, rest);
        assert(a.task(ids[0]) is Ok <==> b.task(ids[0]) is Ok);
    }
}

proof fn lemma_front(ids: Seq<Seq<char>>, m: int, id: Seq<char>)
    requires
        ids.len() > 0,
        0 <= m < ids.len(),
    ensures
        ids.take(m + 1).contains(id) <==> id == ids[0] || ids.skip(1).take(m).contains(id),
{
    let all = ids.take(m + 1);
    let rest = ids.skip(1).take(m);
    assert(all[0] == ids[0]);
    if rest.contains(id) {
        let k = choose|k: int| 0 <= k < rest.len() && rest[k] == id;
        assert(all[k + 1] == id);
    }
    if all.contains(id) && id != ids[0] {
        let k = choose|k: int| 0 <= k < all.len() && all[k] == id;
        assert(rest[k - 1] == id);
    }
}

proof fn lemma_some_front(store: StoreView, ids: Seq<Seq<char>>, op: ControlOp)
    requires
        ids.len() > 0,
    ensures
        some_can_be_asked(store, ids, op) <==> can_be_asked(store.task(ids[0])->Ok_0, op, true)
            || some_can_be_asked(store, ids.skip(1), op),
{
    let rest = ids.skip(1);
    if some_can_be_asked(store, rest, op) {
        let j = choose|j: int|
            0 <= j < rest.len() && can_be_asked(store.task(#[trigger] rest[j])->Ok_0, op, true);
        assert(ids[j + 1] == rest[j]);
    }
    if some_can_be_asked(store, ids, op) {
        let j = choose|j: int|
            0 <= j < ids.len() && can_be_asked(store.task(#[trigger] ids[j])->Ok_0, op, true);
        if j > 0 {
            assert(rest[j - 1] == ids[j]);
        }
    }
}

/// A run over the items of a playlist asks each item in turn, up to the first that cannot be
/// loaded. Each of which it can be asked becomes what was asked for; it enters the queue where it
/// is to wait and leaves it where it is paused. All other tasks are as they were, in the queue and
/// out of it, and only a stop takes any out. The run ends well exactly when all items could be
/// loaded and it could be asked of one.
pub proof fn a_run_reaches_every_item(
    run: RunView,
    store: StoreView,
    times: Seq<Seq<char>>,
    id: Seq<char>,
)
    requires
        run.items,
        run.left.len() <= times.len(),
        own_ids(store, run.left),
    ensures
        ({
            let end = run.ended(store, times);
            let n = loadable(store, run.left) as int;
            let task = store.task(id)->Ok_0;
            let asked = run.left.take(n).contains(id) && can_be_asked(task, run.op, true);
            &&& asked ==> asked_at_some_time(end.store.task(id), task, run.op, times)
            &&& !asked ==> end.store.task(id) == store.task(id)
            &&& run.op == ControlOp::Stop ==> (end.store.order().contains(id)
                <==> store.order().contains(id) && !(asked && task.state == TaskState::Queued))
            &&& run.op != ControlOp::Stop ==> (end.store.order().contains(id)
                <==> store.order().contains(id) || asked) && store.order().is_prefix_of(
                end.store.order(),
            )
            &&& store.order().no_duplicates() ==> end.store.order().no_duplicates()
            &&& end.step == (if n < run.left.len() {
                StepView::Refused(ControlErrorView::Store(store.task(run.left[n])->Err_0))
            } else if run.affected || some_can_be_asked(store, run.left, run.op) {
                StepView::Done
            } else {
                StepView::Refused(ControlErrorView::NothingToDo(run.op))
            })
        }),
    decreases run.left.len(),
{
    let ids = run.left;
    let op = run.op;
    if ids.len() > 0 && store.task(ids[0]) is Ok {
        let first = ids[0];
        let now = times[0];
        let item = store.task(first)->Ok_0;
        let rest = RunView { left: ids.skip(1), ..run };
        let m = loadable(store, rest.left) as int;
        lemma_loadable(store, rest.left);
        lemma_front(ids, m, id);
        lemma_some_front(store, ids, op);
        assert(item.id == first);
        assert(own_ids(store, rest.left)) by {
            assert forall|j: int| 0 <= j < rest.left.len() implies (store.task(
                #[trigger] rest.left[j],
            ) matches Ok(task) ==> task.id == rest.left[j]) by {
                assert(rest.left[j] == ids[j + 1]);
            }
        }
        if m < rest.left.len() {
            assert(rest.left[m] == ids[m + 1]);
        }
        if !can_be_asked(item, op, true) {
            assert(controlled(item, op, true, now) is None);
            assert(run.advanced(store, now) == rest.advanced(store, now));
            assert(run.ended(store, times) == rest.ended(store, times));
            a_run_reaches_every_item(rest, store, times, id);
        } else {
            let after = controlled(item, op, true, now)->0;
            let later = times.skip(1);
            let next = RunView { affected: true, ..rest };
            let then_store = settled(store, after, now);
            assert forall|j: int| 0 <= j < rest.left.len() implies (store.task(
                #[trigger] rest.left[j],
            ) is Ok <==> then_store.task(rest.left[j]) is Ok) && (then_store.task(
                rest.left[j],
            ) matches Ok(task) ==> task.id == rest.left[j]) && (store.task(rest.left[j]) is Err
                ==> then_store.task(rest.left[j]) == store.task(rest.left[j])) by {
                lemma_settled(store, after, now, rest.left[j]);
            }
            lemma_same_loadable(store, then_store, rest.left);
            assert(run.ended(store, times) == next.ended(then_store, later));
            a_run_reaches_every_item(next, then_store, later, id);
            lemma_settled(store, after, now, id);
            control_settles_the_queue(store, after, now);
            let end = next.ended(then_store, later);
            let again = rest.left.take(m).contains(id) && can_be_asked(
                then_store.task(id)->Ok_0,
                op,
                true,
            );
            if again {
                let k = choose|k: int|
                    0 <= k < later.len() && end.store.task(id) == Ok::<RecordView, StoreErrorView>(
                        controlled(then_store.task(id)->Ok_0, op, true, #[trigger] later[k])->0,
                    );
                assert(times[k + 1] == later[k]);
                if id == first {
                    assert(op == ControlOp::Restart);
                    assert(controlled(after, op, true, later[k])->0 == controlled(
                        item,
                        op,
                        true,
                        times[k + 1],
                    )->0);
                }
            } else if id == first {
                assert(end.store.task(id) == Ok::<RecordView, StoreErrorView>(
                    controlled(item, op, true, times[0])->0,
                ));
            }
            if op != ControlOp::Stop {
                let a = store.order();
                let b = then_store.order();
                let c = end.store.order();
                assert(a =~= c.take(a.len() as int)) by {
                    assert(a =~= b.take(a.len() as int));
                    assert(b =~= c.take(b.len() as int));
                }
            }
        }
    } else {
        assert(ids.take(0) =~= Seq::<Seq<char>>::empty());
    }
}

proof fn lemma_all_loadable(store: StoreView, ids: Seq<Seq<char>>)
    requires
        forall|j: int| 0 <= j < ids.len() ==> store.task(#[trigger] ids[j]) is Ok,
    ensures
        loadable(store, ids) == ids.len(),
        ids.take(ids.len() as int) == ids,
{
    lemma_loadable(store, ids);
    assert(ids.take(ids.len() as int) =~= ids);
}

/// A playlist is stopped as a whole: once the run has ended, each item that was being downloaded
/// is told to stop, each that waited is paused and out of the queue, and all other tasks are as
/// they were, in the queue and out of it. The run ends well exactly when there was such an item.
pub proof fn a_playlist_is_stopped_as_a_whole(
    parent: RecordView,
    task_id: Seq<char>,
    store: StoreView,
    times: Seq<Seq<char>>,
    id: Seq<char>,
)
    requires
        parent.task_kind == TaskKind::PlaylistParent,
        parent.child_task_ids.len() <= times.len(),
        own_ids(store, parent.child_task_ids),
        forall|j: int|
            0 <= j < parent.child_task_ids.len() ==> store.task(
                #[trigger] parent.child_task_ids[j],
            ) is Ok,
    ensures
        ({
            let end = RunView::begun(parent, task_id, ControlOp::Stop).ended(store, times);
            let item = parent.child_task_ids.contains(id);
            let before = store.task(id)->Ok_0;
            let after = end.store.task(id)->Ok_0;
            let running = item && before.state == TaskState::Downloading;
            let waiting = item && before.state == TaskState::Queued;
            &&& running || waiting ==> end.store.task(id) is Ok && same_order(after, before)
                && after.output_files == before.output_files && after.last_error
                == before.last_error && times.contains(after.updated_at)
            &&& running ==> after.state == TaskState::Stopping
            &&& waiting ==> after.state == TaskState::Paused
            &&& !running && !waiting ==> end.store.task(id) == store.task(id)
            &&& end.store.order().contains(id) <==> store.order().contains(id) && !waiting
            &&& end.step == (if some_can_be_asked(
                store,
                parent.child_task_ids,
                ControlOp::Stop,
            ) {
                StepView::Done
            } else {
                StepView::Refused(ControlErrorView::NothingToDo(ControlOp::Stop))
            })
        }),
{
    let run = RunView::begun(parent, task_id, ControlOp::Stop);
    lemma_all_loadable(store, run.left);
    a_run_reaches_every_item(run, store, times, id);
}

/// A playlist is resumed or restarted as a whole: once the run has ended, each item of which it
/// can be asked waits and stands in the queue, where nothing has lost its place, and all other
/// tasks are as they were. A restart forgets the files and the message of the last download. The
/// run ends well exactly when there was such an item.
pub proof fn a_playlist_is_resumed_as_a_whole(
    parent: RecordView,
    task_id: Seq<char>,
    op: ControlOp,
    store: StoreView,
    times: Seq<Seq<char>>,
    id: Seq<char>,
)
    requires
        op != ControlOp::Stop,
        parent.task_kind == TaskKind::PlaylistParent,
        parent.child_task_ids.len() <= times.len(),
        own_ids(store, parent.child_task_ids),
        forall|j: int|
            0 <= j < parent.child_task_ids.len() ==> store.task(
                #[trigger] parent.child_task_ids[j],
            ) is Ok,
    ensures
        ({
            let end = RunView::begun(parent, task_id, op).ended(store, times);
            let before = store.task(id)->Ok_0;
            let after = end.store.task(id)->Ok_0;
            let asked = parent.child_task_ids.contains(id) && can_be_asked(before, op, true);
            &&& asked ==> end.store.task(id) is Ok && same_order(after, before) && after.state
                == TaskState::Queued && times.contains(after.updated_at)
            &&& asked && op == ControlOp::Resume ==> after.output_files == before.output_files
                && after.last_error == before.last_error
            &&& asked && op == ControlOp::Restart ==> after.output_files.len() == 0
                && after.last_error is None
            &&& !asked ==> end.store.task(id) == store.task(id)
            &&& end.store.order().contains(id) <==> store.order().contains(id) || asked
            &&& store.order().is_prefix_of(end.store.order())
            &&& end.step == (if some_can_be_asked(store, parent.child_task_ids, op) {
                StepView::Done
            } else {
                StepView::Refused(ControlErrorView::NothingToDo(op))
            })
        }),
{
    let run = RunView::begun(parent, task_id, op);
    lemma_all_loadable(store, run.left);
    a_run_reaches_every_item(run, store, times, id);
}

/// No more downloads run than are allowed: a task is started only while fewer are running, only
/// from the queue, and never one that runs already.
pub proof fn starts_are_limited(store: StoreView, active: Seq<Seq<char>>, max: nat)
    ensures
        active.len() >= max ==> next_start(store, active, max) is None,
        next_start(store, active, max) matches Some(task) ==> active.len() < max && exists|i: int|
            0 <= i < store.order().len() && store.startable(#[trigger] store.order()[i], active)
                && store.task(store.order()[i]) == Ok::<RecordView, StoreErrorView>(task),
{
    lifecycle::dispatch_is_first_come_first_served(store, store.order(), active);
    if active.len() < max && next_start(store, active, max) is Some {
        let ids = store.order();
        let task = next_start(store, active, max)->0;
        let i = choose|i: int|
            0 <= i < ids.len() && store.task(#[trigger] ids[i]) == Ok::<
                RecordView,
                StoreErrorView,
            >(task) && store.startable(ids[i], active) && task.task_kind
                != TaskKind::PlaylistParent && task.state == TaskState::Queued && forall|j: int|
                0 <= j < i ==> !store.startable(#[trigger] ids[j], active);
        assert(store.startable(store.order()[i], active));
    }
}

}
