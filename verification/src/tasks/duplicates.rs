//! Whether a video is there already.
use vstd::prelude::*;

use crate::library::names::FilenameSet;
use crate::tasks::record;
use crate::tasks::record::{RecordView, TaskRecord};
use crate::tasks::requests;
use crate::tasks::requests::{DuplicateCheck, DuplicateMatch, DuplicateView, MatchView};
use crate::tasks::store::{StoreError, StoreErrorView, StoreView, TaskStore};
use crate::text;

verus! {

/// The actions that are offered.
pub open spec fn offered_actions() -> Seq<Seq<char>> {
    seq!["skip"@, "add_anyway"@, "open_existing"@]
}

/// The answer with these matches.
pub open spec fn check_of(matches: Seq<MatchView>) -> DuplicateView {
    DuplicateView {
        status: if matches.len() == 0 {
            "not_found"@
        } else {
            "duplicate-found"@
        },
        matches,
        default_action: "skip"@,
        allowed_actions: offered_actions(),
    }
}

/// A task for this video.
pub open spec fn same_video(task: RecordView, extractor: Seq<char>, video_id: Seq<char>) -> bool {
    task.extractor == Some(extractor) && task.video_id == Some(video_id)
}

/// How a task is shown as a match.
pub open spec fn task_match(task: RecordView) -> MatchView {
    MatchView {
        source: "task"@,
        path: if task.output_files.len() > 0 {
            Some(task.output_files[0])
        } else {
            None
        },
        task_id: Some(task.id),
        state: Some(task.state),
    }
}

/// The tasks for this video.
pub open spec fn task_matches(
    tasks: Seq<RecordView>,
    extractor: Seq<char>,
    video_id: Seq<char>,
) -> Seq<MatchView>
    decreases tasks.len(),
{
    if tasks.len() == 0 {
        Seq::empty()
    } else {
        let rest = task_matches(tasks.drop_last(), extractor, video_id);
        if same_video(tasks.last(), extractor, video_id) {
            rest.push(task_match(tasks.last()))
        } else {
            rest
        }
    }
}

/// How a file of the library is shown as a match.
pub open spec fn file_match(name: Seq<char>) -> MatchView {
    MatchView { source: "library"@, path: Some(name), task_id: None, state: None }
}

/// How the id of a video stands in the name of its file.
pub open spec fn id_mark(video_id: Seq<char>) -> Seq<char> {
    seq!['['] + video_id + seq![']']
}

/// The files of the library with this video.
pub open spec fn file_matches(names: Seq<Seq<char>>, video_id: Seq<char>) -> Seq<MatchView>
    decreases names.len(),
{
    if names.len() == 0 {
        Seq::empty()
    } else {
        let rest = file_matches(names.drop_last(), video_id);
        if text::occurs(names.last(), id_mark(video_id)) {
            rest.push(file_match(names.last()))
        } else {
            rest
        }
    }
}

/// All that has this video; nothing where its extractor or its id is not known.
pub open spec fn all_matches(
    tasks: Seq<RecordView>,
    extractor: Option<Seq<char>>,
    video_id: Option<Seq<char>>,
    names: Seq<Seq<char>>,
) -> Seq<MatchView> {
    match (extractor, video_id) {
        (Some(e), Some(v)) => task_matches(tasks, e, v) + file_matches(names, v),
        _ => Seq::empty(),
    }
}

fn first_file(task: &TaskRecord) -> (r: Option<String>)
    ensures
        text::text_opt(r) == task_match(task@).path,
{
    if task.output_files.len() > 0 {
        Some(task.output_files[0].clone())
    } else {
        None
    }
}

fn has_video(task: &TaskRecord, extractor: &str, video_id: &str) -> (r: bool)
    ensures
        r == same_video(task@, extractor@, video_id@),
{
    text::same_opt(text::borrow_opt(&task.extractor), Some(extractor)) && text::same_opt(
        text::borrow_opt(&task.video_id),
        Some(video_id),
    )
}

/// All that has this video.
pub fn find_matches(
    tasks: &Vec<TaskRecord>,
    extractor: &str,
    video_id: &str,
    names: &Vec<String>,
) -> (r: Vec<DuplicateMatch>)
    ensures
        requests::matches_view(r@) == all_matches(
            record::records_view(tasks@),
            Some(extractor@),
            Some(video_id@),
            text::texts(names@),
        ),
{
    let ghost all = record::records_view(tasks@);
    let mut matches: Vec<DuplicateMatch> = Vec::new();
    let mut i: usize = 0;
    assert(all.take(0) =~= Seq::<RecordView>::empty());
    assert(requests::matches_view(matches@) =~= task_matches(all.take(0), extractor@, video_id@));
    while i < tasks.len()
        invariant
            i <= tasks.len(),
            all == record::records_view(tasks@),
            requests::matches_view(matches@) == task_matches(
                all.take(i as int),
                extractor@,
                video_id@,
            ),
        decreases tasks.len() - i,
    {
        let ghost before = matches@;
        assert(all.take(i + 1).drop_last() =~= all.take(i as int));
        assert(all.take(i + 1).last() == tasks@[i as int]@);
        if has_video(&tasks[i], extractor, video_id) {
            let found = DuplicateMatch {
                source: "task".to_owned(),
                path: first_file(&tasks[i]),
                task_id: Some(tasks[i].id.clone()),
                state: Some(tasks[i].state),
            };
            matches.push(found);
            assert(requests::matches_view(matches@) =~= requests::matches_view(before).push(
                task_match(tasks@[i as int]@),
            ));
        }
        i = i + 1;
    }
    assert(all.take(i as int) =~= all);
    let ghost by_task = requests::matches_view(matches@);
    let mut mark = "[".to_owned();
    mark.append(video_id);
    mark.append("]");
    proof {
        reveal_strlit("[");
        reveal_strlit("]");
        assert(mark@ =~= id_mark(video_id@));
    }
    let ghost listed = text::texts(names@);
    let mut k: usize = 0;
    assert(listed.take(0) =~= Seq::<Seq<char>>::empty());
    assert(by_task =~= by_task + file_matches(listed.take(0), video_id@));
    while k < names.len()
        invariant
            k <= names.len(),
            listed == text::texts(names@),
            mark@ == id_mark(video_id@),
            requests::matches_view(matches@) == by_task + file_matches(
                listed.take(k as int),
                video_id@,
            ),
        decreases names.len() - k,
    {
        let ghost before = matches@;
        assert(listed.take(k + 1).drop_last() =~= listed.take(k as int));
        assert(listed.take(k + 1).last() == names@[k as int]@);
        if text::contains(names[k].as_str(), mark.as_str()) {
            let found = DuplicateMatch {
                source: "library".to_owned(),
                path: Some(names[k].clone()),
                task_id: None,
                state: None,
            };
            matches.push(found);
            assert(requests::matches_view(matches@) =~= requests::matches_view(before).push(
                file_match(names@[k as int]@),
            ));
            assert(requests::matches_view(matches@) =~= by_task + file_matches(
                listed.take(k + 1),
                video_id@,
            ));
        }
        k = k + 1;
    }
    assert(listed.take(k as int) =~= listed);
    matches
}

/// The answer with these matches.
pub fn duplicate_check(matches: Vec<DuplicateMatch>) -> (r: DuplicateCheck)
    ensures
        r@ == check_of(requests::matches_view(matches@)),
{
    let mut allowed_actions: Vec<String> = Vec::new();
    allowed_actions.push("skip".to_owned());
    allowed_actions.push("add_anyway".to_owned());
    allowed_actions.push("open_existing".to_owned());
    assert(text::texts(allowed_actions@) =~= offered_actions());
    let status = if matches.len() == 0 {
        "not_found".to_owned()
    } else {
        "duplicate-found".to_owned()
    };
    DuplicateCheck { status, matches, default_action: "skip".to_owned(), allowed_actions }
}

/// The answer where nothing was found.
pub fn no_duplicate() -> (r: DuplicateCheck)
    ensures
        r@ == check_of(Seq::empty()),
{
    let matches: Vec<DuplicateMatch> = Vec::new();
    assert(requests::matches_view(matches@) =~= Seq::<MatchView>::empty());
    duplicate_check(matches)
}

impl StoreView {
    /// The store after a search for a video: the tasks are gone through only where both its
    /// extractor and its id are known.
    pub open spec fn searched(
        self,
        extractor: Option<Seq<char>>,
        video_id: Option<Seq<char>>,
    ) -> StoreView {
        if extractor is Some && video_id is Some {
            self.swept()
        } else {
            self
        }
    }

    /// What tells a user where a video is already; `None` where it is not there.
    pub open spec fn duplicate_hint(
        self,
        extractor: Option<Seq<char>>,
        video_id: Option<Seq<char>>,
        names: Seq<Seq<char>>,
    ) -> Option<Seq<char>> {
        let matches = all_matches(self.tasks(), extractor, video_id, names);
        if matches.len() == 0 {
            None
        } else {
            match (matches[0].task_id, matches[0].path) {
                (Some(id), _) => Some(id),
                (None, Some(path)) => Some(path),
                (None, None) => Some("existing entry"@),
            }
        }
    }
}

impl TaskStore {
    /// Whether a video is there already, among the tasks or in the library.
    pub fn find_duplicates(
        &mut self,
        extractor: Option<&str>,
        video_id: Option<&str>,
        library_filenames: &FilenameSet,
    ) -> (r: DuplicateCheck)
        ensures
            r@ == check_of(
                all_matches(
                    old(self)@.tasks(),
                    text::str_opt(extractor),
                    text::str_opt(video_id),
                    library_filenames@,
                ),
            ),
            final(self)@ == old(self)@.searched(text::str_opt(extractor), text::str_opt(video_id)),
    {
        match (extractor, video_id) {
            (Some(e), Some(v)) => {
                let tasks = self.load_all_tasks();
                duplicate_check(find_matches(&tasks, e, v, library_filenames.names()))
            },
            _ => no_duplicate(),
        }
    }

    /// Refuses a video that is there already.
    pub(crate) fn ensure_not_duplicate(
        &mut self,
        extractor: Option<&str>,
        video_id: Option<&str>,
        library_filenames: &FilenameSet,
    ) -> (r: Result<(), StoreError>)
        ensures
            match old(self)@.duplicate_hint(
                text::str_opt(extractor),
                text::str_opt(video_id),
                library_filenames@,
            ) {
                Some(hint) => r is Err && r->Err_0@ == StoreErrorView::AlreadyExists(hint),
                None => r is Ok,
            },
            final(self)@ == old(self)@.searched(text::str_opt(extractor), text::str_opt(video_id)),
    {
        let check = self.find_duplicates(extractor, video_id, library_filenames);
        let ghost matches = requests::matches_view(check.matches@);
        if check.matches.len() == 0 {
            return Ok(());
        }
        assert(matches[0] == check.matches@[0]@);
        let hint = match (&check.matches[0].task_id, &check.matches[0].path) {
            (Some(id), _) => id.clone(),
            (None, Some(path)) => path.clone(),
            (None, None) => "existing entry".to_owned(),
        };
        Err(StoreError::AlreadyExists(hint))
    }
}

// ---------------------------------------------------------------------------
// Laws of duplicates
// ---------------------------------------------------------------------------

proof fn lemma_task_matches(tasks: Seq<RecordView>, extractor: Seq<char>, video_id: Seq<char>)
    ensures
        task_matches(tasks, extractor, video_id).len() > 0 <==> exists|i: int|
            0 <= i < tasks.len() && same_video(#[trigger] tasks[i], extractor, video_id),
    decreases tasks.len(),
{
    if tasks.len() > 0 {
        let head = tasks.drop_last();
        lemma_task_matches(head, extractor, video_id);
        if same_video(tasks.last(), extractor, video_id) {
            assert(same_video(tasks[tasks.len() - 1], extractor, video_id));
        }
        if exists|i: int|
            0 <= i < head.len() && same_video(#[trigger] head[i], extractor, video_id) {
            let i = choose|i: int|
                0 <= i < head.len() && same_video(#[trigger] head[i], extractor, video_id);
            assert(same_video(tasks[i], extractor, video_id));
        }
        if exists|i: int|
            0 <= i < tasks.len() && same_video(#[trigger] tasks[i], extractor, video_id) {
            let i = choose|i: int|
                0 <= i < tasks.len() && same_video(#[trigger] tasks[i], extractor, video_id);
            if i < head.len() {
                assert(same_video(head[i], extractor, video_id));
            }
        }
    }
}

proof fn lemma_file_matches(names: Seq<Seq<char>>, video_id: Seq<char>)
    ensures
        file_matches(names, video_id).len() > 0 <==> exists|i: int|
            0 <= i < names.len() && text::occurs(#[trigger] names[i], id_mark(video_id)),
    decreases names.len(),
{
    if names.len() > 0 {
        let head = names.drop_last();
        let mark = id_mark(video_id);
        lemma_file_matches(head, video_id);
        if text::occurs(names.last(), mark) {
            assert(text::occurs(names[names.len() - 1], mark));
        }
        if exists|i: int| 0 <= i < head.len() && text::occurs(#[trigger] head[i], mark) {
            let i = choose|i: int| 0 <= i < head.len() && text::occurs(#[trigger] head[i], mark);
            assert(text::occurs(names[i], mark));
        }
        if exists|i: int| 0 <= i < names.len() && text::occurs(#[trigger] names[i], mark) {
            let i = choose|i: int| 0 <= i < names.len() && text::occurs(#[trigger] names[i], mark);
            if i < head.len() {
                assert(text::occurs(head[i], mark));
            }
        }
    }
}

/// A video is found exactly when there is a task for it or a file in the library whose name
/// holds its id in square brackets. A video of which the extractor or the id is not known is
/// never found.
pub proof fn a_video_is_found_where_it_is(
    tasks: Seq<RecordView>,
    extractor: Option<Seq<char>>,
    video_id: Option<Seq<char>>,
    names: Seq<Seq<char>>,
)
    ensures
        (check_of(all_matches(tasks, extractor, video_id, names)).status == "duplicate-found"@)
            <==> all_matches(tasks, extractor, video_id, names).len() > 0,
        all_matches(tasks, extractor, video_id, names).len() > 0 <==> extractor is Some
            && video_id is Some && ((exists|i: int|
            0 <= i < tasks.len() && same_video(#[trigger] tasks[i], extractor->0, video_id->0)) || (
        exists|i: int|
            0 <= i < names.len() && text::occurs(#[trigger] names[i], id_mark(video_id->0)))),
{
    reveal_strlit("duplicate-found");
    reveal_strlit("not_found");
    assert("duplicate-found"@.len() != "not_found"@.len());
    if extractor is Some && video_id is Some {
        lemma_task_matches(tasks, extractor->0, video_id->0);
        lemma_file_matches(names, video_id->0);
    }
}

}
