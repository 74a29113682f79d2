//! The task index: project metadata and the list of tasks with their status
//! histories. This module holds the registry operations — id allocation,
//! creation, lookup, status moves with audit history, deletion and
//! priority-aware retrieval — together with the laws they obey.
use vstd::prelude::*;
use vstd::string::StrSliceExecFns;
use crate::error::PmError;
use crate::text::no_newline;
use crate::clock::now_rfc3339;
use crate::detail::TaskDetail;
use crate::detail::detail_new_spec;
use crate::detail::words_of;

verus! {

// ---------------------------------------------------------------------------
// Data model
// ---------------------------------------------------------------------------

/// Project metadata; written once when the index is created.
#[derive(Debug)]
pub struct Meta {
    pub name: String,
}

/// A task's lifecycle state. `Initial` is a sentinel, serialized as the
/// word `None`: it appears only as the `from` state of a task's first
/// recorded change, never as a live status.
#[derive(Clone, Copy, Debug, Hash, PartialEq, Eq, Structural)]
pub enum Status {
    Initial,
    Todo,
    Doing,
    Done,
}

/// One recorded status transition, with the timestamp text it was stamped
/// with. Append-only: a change is never edited once recorded.
#[derive(Debug)]
pub struct Change {
    pub from: Status,
    pub to: Status,
    pub on: String,
}

/// One index entry: a task's id, current status, full status history and
/// optional display priority (lower value = higher priority).
#[derive(Debug)]
pub struct Task {
    pub id: u64,
    pub status: Status,
    pub changes: Vec<Change>,
    pub priority: Option<u64>,
}

/// The root aggregate: project metadata plus all tasks, in insertion order.
#[derive(Debug)]
pub struct Index {
    pub meta: Meta,
    pub tasks: Vec<Task>,
}

#[verifier::ext_equal]
pub ghost struct ChangeView {
    pub from: Status,
    pub to: Status,
    pub on: Seq<char>,
}

#[verifier::ext_equal]
pub ghost struct TaskView {
    pub id: u64,
    pub status: Status,
    pub changes: Seq<ChangeView>,
    pub priority: Option<u64>,
}

#[verifier::ext_equal]
pub ghost struct IndexView {
    pub name: Seq<char>,
    pub tasks: Seq<TaskView>,
}

impl View for Change {
    type V = ChangeView;

    open spec fn view(&self) -> ChangeView {
        ChangeView { from: self.from, to: self.to, on: self.on@ }
    }
}

impl View for Task {
    type V = TaskView;

    open spec fn view(&self) -> TaskView {
        TaskView {
            id: self.id,
            status: self.status,
            changes: self.changes@.map_values(|c: Change| c@),
            priority: self.priority,
        }
    }
}

impl View for Index {
    type V = IndexView;

    open spec fn view(&self) -> IndexView {
        IndexView {
            name: self.meta.name@,
            tasks: self.tasks@.map_values(|t: Task| t@),
        }
    }
}

impl Clone for Change {
    fn clone(&self) -> (r: Self)
        ensures
            r@ == self@,
    {
        Change { from: self.from, to: self.to, on: self.on.clone() }
    }
}

impl Clone for Task {
    fn clone(&self) -> (r: Self)
        ensures
            r@ == self@,
    {
        let mut changes: Vec<Change> = Vec::new();
        let mut i: usize = 0;
        while i < self.changes.len()
            invariant
                0 <= i <= self.changes.len(),
                changes@.len() == i,
                forall|j: int| 0 <= j < i ==> #[trigger] changes@[j]@ == self.changes@[j]@,
            decreases self.changes.len() - i,
        {
            let c = self.changes[i].clone();
            changes.push(c);
            i = i + 1;
        }
        proof {
            assert(changes@.map_values(|c: Change| c@) =~= self.changes@.map_values(
                |c: Change| c@,
            ));
        }
        Task { id: self.id, status: self.status, changes, priority: self.priority }
    }
}

// ---------------------------------------------------------------------------
// Status names
// ---------------------------------------------------------------------------

/// The literal serialized name of a status.
pub open spec fn status_name_spec(st: Status) -> Seq<char> {
    match st {
        Status::Initial => "None"@,
        Status::Todo => "Todo"@,
        Status::Doing => "Doing"@,
        Status::Done => "Done"@,
    }
}

/// The status whose serialized name is `s`, if any.
pub open spec fn status_of_name(s: Seq<char>) -> Option<Status> {
    if s == "None"@ {
        Some(Status::Initial)
    } else if s == "Todo"@ {
        Some(Status::Todo)
    } else if s == "Doing"@ {
        Some(Status::Doing)
    } else {
        if s == "Done"@ {
            Some(Status::Done)
        } else {
            None
        }
    }
}

/// Serialized status names parse back to the status they came from, and none
/// of their characters is a line break.
pub proof fn lemma_status_name_roundtrip(st: Status)
    ensures
        status_of_name(status_name_spec(st)) == Some(st),
        no_newline(status_name_spec(st)),
{
    reveal_strlit("None");
    reveal_strlit("Todo");
    reveal_strlit("Doing");
    reveal_strlit("Done");
    assert(("None"@)[0] == 'N' && ("Todo"@)[0] == 'T' && ("Doing"@)[0] == 'D' && ("Done"@)[0]
        == 'D');
    assert(("Doing"@).len() == 5 && ("Done"@).len() == 4);
    assert("None"@ != "Todo"@ && "None"@ != "Doing"@ && "None"@ != "Done"@);
    assert("Todo"@ != "None"@ && "Todo"@ != "Doing"@ && "Todo"@ != "Done"@);
    assert("Doing"@ != "None"@ && "Doing"@ != "Todo"@ && "Doing"@ != "Done"@);
    assert("Done"@ != "None"@ && "Done"@ != "Todo"@ && "Done"@ != "Doing"@);
}

/// `a` matches `b` up to ASCII case, where `b` is already lower-case.
pub open spec fn char_matches_lower(a: char, b: char) -> bool {
    a == b || ('A' as u32 <= a as u32 <= 'Z' as u32 && a as u32 + 32 == b as u32)
}

pub open spec fn matches_ignore_ascii_case(s: Seq<char>, t: Seq<char>) -> bool {
    s.len() == t.len() && forall|i: int| 0 <= i < s.len() ==> char_matches_lower(
        #[trigger] s[i],
        t[i],
    )
}

/// The total mapping from a status word, compared without regard to ASCII
/// case, to a status. The sentinel `None` is not a valid word here.
pub open spec fn parse_status_spec(s: Seq<char>) -> Result<Status, PmError> {
    if matches_ignore_ascii_case(s, "todo"@) {
        Ok(Status::Todo)
    } else if matches_ignore_ascii_case(s, "doing"@) {
        Ok(Status::Doing)
    } else {
        if matches_ignore_ascii_case(s, "done"@) {
            Ok(Status::Done)
        } else {
            Err(PmError::Parse)
        }
    }
}

fn eq_ignore_ascii_case(s: &str, t: &str) -> (b: bool)
    ensures
        b == matches_ignore_ascii_case(s@, t@),
{
    let n = s.unicode_len();
    if n != t.unicode_len() {
        return false;
    }
    let mut i: usize = 0;
    while i < n
        invariant
            0 <= i <= n,
            n == s@.len() == t@.len(),
            forall|k: int| 0 <= k < i ==> char_matches_lower(#[trigger] s@[k], t@[k]),
        decreases n - i,
    {
        let a = s.get_char(i);
        let b = t.get_char(i);
        let au = a as u32;
        if !(a == b || ('A' as u32 <= au && au <= 'Z' as u32 && au + 32 == b as u32)) {
            proof {
                assert(!char_matches_lower(s@[i as int], t@[i as int]));
            }
            return false;
        }
        i = i + 1;
    }
    true
}

// ---------------------------------------------------------------------------
// Well-formedness and lookup
// ---------------------------------------------------------------------------

/// The views of a list of tasks.
pub open spec fn task_views(ts: Seq<Task>) -> Seq<TaskView> {
    ts.map_values(|t: Task| t@)
}

/// The views of a list of changes.
pub open spec fn change_views(cs: Seq<Change>) -> Seq<ChangeView> {
    cs.map_values(|c: Change| c@)
}

/// The history invariant of one task: at least one recorded change, the
/// first change entering `Todo` from the sentinel, and the current status
/// equal to where the last change went.
pub open spec fn task_wf(t: TaskView) -> bool {
    &&& t.changes.len() >= 1
    &&& t.changes[0].from == Status::Initial
    &&& t.changes[0].to == Status::Todo
    &&& t.changes[t.changes.len() - 1].to == t.status
}

/// Every task of the index satisfies the history invariant.
pub open spec fn index_wf(v: IndexView) -> bool {
    forall|i: int| 0 <= i < v.tasks.len() ==> task_wf(#[trigger] v.tasks[i])
}

/// The free text of the index — the project name and each change's
/// timestamp — stays on its own line. Such an index survives the
/// line-oriented document format unchanged; the timestamps the clock
/// stamps satisfy this by construction.
pub open spec fn index_line_safe(v: IndexView) -> bool {
    &&& no_newline(v.name)
    &&& forall|i: int, j: int|
        0 <= i < v.tasks.len() && 0 <= j < v.tasks[i].changes.len() ==> no_newline(
            (#[trigger] v.tasks[i].changes[j]).on,
        )
}

/// No id occurs twice in the task list.
pub open spec fn ids_unique(ts: Seq<TaskView>) -> bool {
    forall|i: int, j: int|
        0 <= i < j < ts.len() ==> (#[trigger] ts[i].id) != (#[trigger] ts[j].id)
}

/// The largest id in use, or zero for an empty list.
pub open spec fn max_id(ts: Seq<TaskView>) -> u64
    decreases ts.len(),
{
    if ts.len() == 0 {
        0
    } else {
        let m = max_id(ts.drop_last());
        if ts.last().id > m {
            ts.last().id
        } else {
            m
        }
    }
}

/// The id the next created task receives: one above the largest in use.
/// Ids of deleted tasks below the maximum are never handed out again.
pub open spec fn spec_next_id(ts: Seq<TaskView>) -> int {
    max_id(ts) + 1
}

/// Some task in the list carries this id.
pub open spec fn has_task(ts: Seq<TaskView>, id: u64) -> bool {
    exists|i: int| 0 <= i < ts.len() && (#[trigger] ts[i]).id == id
}

/// Index of the first task at or after `i` with this id, or `-1`.
pub open spec fn first_idx(ts: Seq<TaskView>, id: u64, i: int) -> int
    decreases ts.len() - i,
{
    if i < 0 || i >= ts.len() {
        -1
    } else if ts[i].id == id {
        i
    } else {
        first_idx(ts, id, i + 1)
    }
}

pub proof fn lemma_first_idx_from(ts: Seq<TaskView>, id: u64, i: int)
    requires
        0 <= i <= ts.len(),
    ensures
        ({
            let k = first_idx(ts, id, i);
            &&& (k == -1 ==> forall|j: int| i <= j < ts.len() ==> (#[trigger] ts[j]).id != id)
            &&& (k != -1 ==> i <= k < ts.len() && ts[k].id == id && forall|j: int|
                i <= j < k ==> (#[trigger] ts[j]).id != id)
        }),
    decreases ts.len() - i,
{
    if i < ts.len() && ts[i].id != id {
        lemma_first_idx_from(ts, id, i + 1);
    }
}

/// Id monotonicity: starting from tasks that carry exactly the ids
/// `1, …, n` in creation order, the next allocated id is `n + 1`; so a
/// sequence of creations with no deletions hands out `1, 2, 3, …`.
pub proof fn lemma_id_monotonic(ts: Seq<TaskView>)
    requires
        forall|i: int| 0 <= i < ts.len() ==> (#[trigger] ts[i]).id as int == i + 1,
    ensures
        spec_next_id(ts) == ts.len() + 1,
    decreases ts.len(),
{
    if ts.len() > 0 {
        let pre = ts.drop_last();
        assert(forall|i: int| 0 <= i < pre.len() ==> (#[trigger] pre[i]).id as int == i + 1);
        lemma_id_monotonic(pre);
    }
}

/// How creation changes the task list: one task appended, carrying the next
/// id, entering `Todo` from the sentinel with a single freshly stamped
/// change and no priority.
pub open spec fn task_created(ts0: Seq<TaskView>, ts2: Seq<TaskView>) -> bool {
    &&& ts2.len() == ts0.len() + 1
    &&& ts2.drop_last() == ts0
    &&& ({
        let t = ts2.last();
        &&& t.id as int == spec_next_id(ts0)
        &&& t.status == Status::Todo
        &&& t.priority is None
        &&& t.changes.len() == 1
        &&& t.changes[0].from == Status::Initial
        &&& t.changes[0].to == Status::Todo
        &&& no_newline(t.changes[0].on)
        &&& task_wf(t)
    })
}

/// How a successful move changes the task list: a move to the status the
/// task already has changes nothing; otherwise exactly the first task with
/// the id gains one change, from its old status to the new one, and its
/// status follows.
pub open spec fn move_applied(
    ts0: Seq<TaskView>,
    ts2: Seq<TaskView>,
    task_id: u64,
    st: Status,
) -> bool {
    let k = first_idx(ts0, task_id, 0);
    &&& (ts0[k].status == st ==> ts2 == ts0)
    &&& (ts0[k].status != st ==> ({
        let t2 = ts2[k];
        &&& ts2 == ts0.update(k, t2)
        &&& t2.id == ts0[k].id
        &&& t2.priority == ts0[k].priority
        &&& t2.status == st
        &&& t2.changes.len() == ts0[k].changes.len() + 1
        &&& t2.changes.drop_last() == ts0[k].changes
        &&& t2.changes.last().from == ts0[k].status
        &&& t2.changes.last().to == st
        &&& no_newline(t2.changes.last().on)
    }))
}

// ---------------------------------------------------------------------------
// Display order
// ---------------------------------------------------------------------------

/// The display order for tasks of one status: any task with a priority
/// precedes any task without one, whatever the value; two prioritized tasks
/// order by ascending priority value; two unprioritized tasks order by
/// ascending id.
pub open spec fn task_le(a: TaskView, b: TaskView) -> bool {
    match (a.priority, b.priority) {
        (Some(pa), Some(pb)) => pa <= pb,
        (Some(_), None) => true,
        (None, Some(_)) => false,
        (None, None) => a.id <= b.id,
    }
}

pub open spec fn sorted_tasks(s: Seq<TaskView>) -> bool {
    forall|i: int, j: int| 0 <= i < j < s.len() ==> task_le(#[trigger] s[i], #[trigger] s[j])
}

pub proof fn lemma_task_le_total(a: TaskView, b: TaskView)
    ensures
        task_le(a, b) || task_le(b, a),
{
}

pub proof fn lemma_task_le_trans(a: TaskView, b: TaskView, c: TaskView)
    requires
        task_le(a, b),
        task_le(b, c),
    ensures
        task_le(a, c),
{
}

/// The tasks of the list that currently carry this status, in list order.
pub open spec fn with_status(ts: Seq<TaskView>, st: Status) -> Seq<TaskView>
    decreases ts.len(),
{
    if ts.len() == 0 {
        Seq::empty()
    } else if ts.last().status == st {
        with_status(ts.drop_last(), st).push(ts.last())
    } else {
        with_status(ts.drop_last(), st)
    }
}

fn task_le_x(a: &Task, b: &Task) -> (r: bool)
    ensures
        r == task_le(a@, b@),
{
    match (a.priority, b.priority) {
        (Some(pa), Some(pb)) => pa <= pb,
        (Some(_), None) => true,
        (None, Some(_)) => false,
        (None, None) => a.id <= b.id,
    }
}

impl Status {
    /// The serialized name of this status.
    pub fn name(&self) -> (r: &'static str)
        ensures
            r@ == status_name_spec(*self),
    {
        match self {
            Status::Initial => "None",
            Status::Todo => "Todo",
            Status::Doing => "Doing",
            Status::Done => "Done",
        }
    }

    /// Reads a status word as given on a command line: `todo`, `doing` or
    /// `done` in any ASCII case. Every other word — the sentinel `None`
    /// included — is rejected as a parse error.
    pub fn parse(s: &str) -> (r: Result<Status, PmError>)
        ensures
            r == parse_status_spec(s@),
    {
        if eq_ignore_ascii_case(s, "todo") {
            Ok(Status::Todo)
        } else if eq_ignore_ascii_case(s, "doing") {
            Ok(Status::Doing)
        } else if eq_ignore_ascii_case(s, "done") {
            Ok(Status::Done)
        } else {
            Err(PmError::Parse)
        }
    }
}

// ---------------------------------------------------------------------------
// The registry operations
// ---------------------------------------------------------------------------

impl Index {
    /// A fresh index: the given project name and no tasks.
    pub fn new(name: String) -> (r: Index)
        ensures
            r@.name == name@,
            r@.tasks == Seq::<TaskView>::empty(),
            no_newline(name@) ==> index_line_safe(r@),
    {
        let r = Index { meta: Meta { name }, tasks: Vec::new() };
        proof {
            assert(r@.tasks =~= Seq::<TaskView>::empty());
        }
        r
    }

    /// One above the largest id in use; `1` for an empty list.
    fn next_id(&self) -> (r: u64)
        requires
            max_id(self@.tasks) < u64::MAX,
        ensures
            r as int == spec_next_id(self@.tasks),
    {
        let ghost ts = self@.tasks;
        let mut m: u64 = 0;
        let mut i: usize = 0;
        while i < self.tasks.len()
            invariant
                0 <= i <= self.tasks.len(),
                ts == self@.tasks,
                self.tasks.len() == ts.len(),
                m == max_id(ts.subrange(0, i as int)),
            decreases self.tasks.len() - i,
        {
            let ghost pre = ts.subrange(0, i as int);
            let ghost cur = ts.subrange(0, i + 1);
            proof {
                assert(cur.drop_last() =~= pre);
                assert(cur.last() == ts[i as int]);
            }
            if self.tasks[i].id > m {
                m = self.tasks[i].id;
            }
            i = i + 1;
        }
        proof {
            assert(ts.subrange(0, ts.len() as int) =~= ts);
            lemma_max_id_le(ts);
        }
        m + 1
    }

    /// The task with this id, if any; on duplicate ids, the first.
    pub fn get_task(&self, task_id: u64) -> (r: Option<&Task>)
        ensures
            r is Some <==> has_task(self@.tasks, task_id),
            r matches Some(t) ==> t@ == self@.tasks[first_idx(self@.tasks, task_id, 0)]
                && t@.id == task_id,
    {
        let ghost ts = self@.tasks;
        let mut i: usize = 0;
        while i < self.tasks.len()
            invariant
                0 <= i <= self.tasks.len(),
                ts == self@.tasks,
                self.tasks.len() == ts.len(),
                first_idx(ts, task_id, 0) == first_idx(ts, task_id, i as int),
            decreases self.tasks.len() - i,
        {
            if self.tasks[i].id == task_id {
                proof {
                    lemma_first_idx_from(ts, task_id, 0);
                }
                return Some(&self.tasks[i]);
            }
            i = i + 1;
        }
        proof {
            lemma_first_idx_from(ts, task_id, 0);
        }
        None
    }

    /// Creates a task: allocates the next id, records the first status
    /// change (sentinel to `Todo`, stamped now), gives it no priority, and
    /// builds its detail document from the entry words. The caller persists
    /// the index and the returned document.
    pub fn create_task(&mut self, entry: &Vec<String>) -> (r: TaskDetail)
        requires
            max_id(old(self)@.tasks) < u64::MAX,
        ensures
            final(self)@.name == old(self)@.name,
            task_created(old(self)@.tasks, final(self)@.tasks),
            r@ == detail_new_spec(spec_next_id(old(self)@.tasks) as u64, words_of(entry@)),
            index_wf(old(self)@) ==> index_wf(final(self)@),
            index_line_safe(old(self)@) ==> index_line_safe(final(self)@),
    {
        let id = self.next_id();
        let on = now_rfc3339();
        let mut changes: Vec<Change> = Vec::new();
        changes.push(Change { from: Status::Initial, to: Status::Todo, on });
        let task = Task { id, status: Status::Todo, changes, priority: None };
        let detail = TaskDetail::new(id, entry);
        proof {
            assert(task@.changes =~= seq![task.changes@[0]@]);
        }
        self.tasks.push(task);
        proof {
            assert(self@.tasks =~= old(self)@.tasks.push(task@));
            assert(self@.tasks.drop_last() =~= old(self)@.tasks);
            if index_wf(old(self)@) {
                assert forall|i: int| 0 <= i < self@.tasks.len() implies task_wf(
                    #[trigger] self@.tasks[i],
                ) by {
                    if i < old(self)@.tasks.len() {
                        assert(self@.tasks[i] == old(self)@.tasks[i]);
                    }
                }
            }
        }
        detail
    }

    /// Moves a task to a status. Moving to the status the task already has
    /// is a silent no-op that records nothing; otherwise the transition is
    /// appended to the history, stamped now, and the status updated. Fails
    /// exactly when no task has the id.
    pub fn move_task(&mut self, task_id: u64, new_status: Status) -> (r: Result<(), PmError>)
        ensures
            r is Ok <==> has_task(old(self)@.tasks, task_id),
            r is Err ==> final(self)@ == old(self)@ && r == Err::<(), PmError>(
                PmError::TaskNotFound,
            ),
            r is Ok ==> final(self)@.name == old(self)@.name && move_applied(
                old(self)@.tasks,
                final(self)@.tasks,
                task_id,
                new_status,
            ),
            index_wf(old(self)@) ==> index_wf(final(self)@),
            index_line_safe(old(self)@) ==> index_line_safe(final(self)@),
    {
        let ghost ts = old(self)@.tasks;
        let mut i: usize = 0;
        while i < self.tasks.len()
            invariant
                0 <= i <= self.tasks.len(),
                *self == *old(self),
                ts == old(self)@.tasks,
                self.tasks.len() == ts.len(),
                first_idx(ts, task_id, 0) == first_idx(ts, task_id, i as int),
            decreases self.tasks.len() - i,
        {
            if self.tasks[i].id == task_id {
                proof {
                    lemma_first_idx_from(ts, task_id, 0);
                    assert(has_task(ts, task_id));
                }
                if self.tasks[i].status == new_status {
                    return Ok(());
                }
                let mut t = self.tasks.remove(i);
                let from = t.status;
                let on = now_rfc3339();
                let ghost t_old = t@;
                t.changes.push(Change { from, to: new_status, on });
                t.status = new_status;
                proof {
                    assert(t@.changes =~= t_old.changes.push(t.changes@[t.changes@.len() - 1]@));
                    assert(t@.changes.drop_last() =~= t_old.changes);
                }
                self.tasks.insert(i, t);
                proof {
                    assert(self@.tasks =~= ts.update(i as int, t@));
                    if index_wf(old(self)@) {
                        assert forall|j: int| 0 <= j < self@.tasks.len() implies task_wf(
                            #[trigger] self@.tasks[j],
                        ) by {
                            if j != i {
                                assert(self@.tasks[j] == ts[j]);
                            } else {
                                assert(task_wf(ts[i as int]));
                                assert(t@.changes[0] == t_old.changes[0]);
                            }
                        }
                    }
                }
                return Ok(());
            }
            i = i + 1;
        }
        proof {
            lemma_first_idx_from(ts, task_id, 0);
        }
        Err(PmError::TaskNotFound)
    }

    /// Removes the first index entry with this id, if one exists, and says
    /// whether one did. The caller removes the detail file first and calls
    /// this only once that deletion succeeded; a missing index entry is not
    /// an error at this level.
    pub fn delete_task(&mut self, task_id: u64) -> (removed: bool)
        ensures
            removed <==> has_task(old(self)@.tasks, task_id),
            !removed ==> final(self)@ == old(self)@,
            removed ==> final(self)@.name == old(self)@.name && final(self)@.tasks == old(
                self,
            )@.tasks.remove(first_idx(old(self)@.tasks, task_id, 0)),
            ids_unique(old(self)@.tasks) ==> !has_task(final(self)@.tasks, task_id),
            ids_unique(old(self)@.tasks) ==> ids_unique(final(self)@.tasks),
            index_wf(old(self)@) ==> index_wf(final(self)@),
            index_line_safe(old(self)@) ==> index_line_safe(final(self)@),
    {
        let ghost ts = old(self)@.tasks;
        let mut i: usize = 0;
        while i < self.tasks.len()
            invariant
                0 <= i <= self.tasks.len(),
                *self == *old(self),
                ts == old(self)@.tasks,
                self.tasks.len() == ts.len(),
                first_idx(ts, task_id, 0) == first_idx(ts, task_id, i as int),
            decreases self.tasks.len() - i,
        {
            if self.tasks[i].id == task_id {
                proof {
                    lemma_first_idx_from(ts, task_id, 0);
                }
                let _ = self.tasks.remove(i);
                proof {
                    assert(self@.tasks =~= ts.remove(i as int));
                    let k = i as int;
                    if ids_unique(ts) {
                        assert forall|j: int|
                            0 <= j < self@.tasks.len() implies (#[trigger] self@.tasks[j]).id
                            != task_id by {
                            if j < k {
                                assert(self@.tasks[j] == ts[j]);
                            } else {
                                assert(self@.tasks[j] == ts[j + 1]);
                            }
                        }
                        assert forall|p: int, q: int|
                            0 <= p < q < self@.tasks.len() implies (#[trigger] self@.tasks[p]).id
                            != (#[trigger] self@.tasks[q]).id by {
                            let p0 = if p < k { p } else { p + 1 };
                            let q0 = if q < k { q } else { q + 1 };
                            assert(self@.tasks[p] == ts[p0]);
                            assert(self@.tasks[q] == ts[q0]);
                        }
                    }
                    if index_wf(old(self)@) {
                        assert forall|j: int| 0 <= j < self@.tasks.len() implies task_wf(
                            #[trigger] self@.tasks[j],
                        ) by {
                            if j < k {
                                assert(self@.tasks[j] == ts[j]);
                            } else {
                                assert(self@.tasks[j] == ts[j + 1]);
                            }
                        }
                    }
                }
                return true;
            }
            i = i + 1;
        }
        proof {
            lemma_first_idx_from(ts, task_id, 0);
        }
        false
    }

    /// The tasks that currently carry `status`, sorted for display: any
    /// prioritized task before any unprioritized one, prioritized tasks by
    /// ascending value, unprioritized ones by ascending id. Yields the
    /// sentinel `None` — not an empty list — when no task has the status.
    pub fn sorted_tasks_with_status(&self, status: Status) -> (r: Option<Vec<Task>>)
        ensures
            ({
                let f = with_status(self@.tasks, status);
                match r {
                    Some(v) => f.len() > 0 && task_views(v@).to_multiset() == f.to_multiset()
                        && sorted_tasks(task_views(v@)),
                    None => f.len() == 0,
                }
            }),
    {
        broadcast use vstd::seq_lib::group_to_multiset_ensures;

        let ghost ts = self@.tasks;
        let mut rest: Vec<Task> = Vec::new();
        let mut i: usize = 0;
        while i < self.tasks.len()
            invariant
                0 <= i <= self.tasks.len(),
                ts == self@.tasks,
                self.tasks.len() == ts.len(),
                task_views(rest@) == with_status(ts.subrange(0, i as int), status),
            decreases self.tasks.len() - i,
        {
            let ghost pre = ts.subrange(0, i as int);
            let ghost cur = ts.subrange(0, i + 1);
            proof {
                assert(cur.drop_last() =~= pre);
                assert(cur.last() == ts[i as int]);
            }
            if self.tasks[i].status == status {
                let t = self.tasks[i].clone();
                rest.push(t);
                proof {
                    assert(task_views(rest@) =~= with_status(cur, status));
                }
            } else {
                proof {
                    assert(task_views(rest@) =~= with_status(cur, status));
                }
            }
            i = i + 1;
        }
        proof {
            assert(ts.subrange(0, ts.len() as int) =~= ts);
        }
        if rest.len() == 0 {
            proof {
                assert(task_views(rest@) =~= Seq::<TaskView>::empty());
            }
            return None;
        }
        let ghost orig = task_views(rest@);
        let mut out: Vec<Task> = Vec::new();
        while rest.len() > 0
            invariant
                sorted_tasks(task_views(out@)),
                forall|p: int, q: int|
                    0 <= p < task_views(out@).len() && 0 <= q < task_views(rest@).len()
                        ==> task_le(
                        #[trigger] task_views(out@)[p],
                        #[trigger] task_views(rest@)[q],
                    ),
                task_views(out@).to_multiset().add(task_views(rest@).to_multiset())
                    == orig.to_multiset(),
                out@.len() + rest@.len() == orig.len(),
            decreases rest.len(),
        {
            let mut m: usize = 0;
            let mut j: usize = 1;
            while j < rest.len()
                invariant
                    0 <= m < j <= rest.len(),
                    forall|q: int| 0 <= q < j ==> task_le(
                        task_views(rest@)[m as int],
                        #[trigger] task_views(rest@)[q],
                    ),
                decreases rest.len() - j,
            {
                if task_le_x(&rest[j], &rest[m]) {
                    proof {
                        assert forall|q: int| 0 <= q < j + 1 implies task_le(
                            task_views(rest@)[j as int],
                            #[trigger] task_views(rest@)[q],
                        ) by {
                            if q < j {
                                lemma_task_le_trans(
                                    task_views(rest@)[j as int],
                                    task_views(rest@)[m as int],
                                    task_views(rest@)[q],
                                );
                            }
                        }
                    }
                    m = j;
                } else {
                    proof {
                        let rv = task_views(rest@);
                        lemma_task_le_total(rv[j as int], rv[m as int]);
                    }
                }
                j = j + 1;
            }
            let ghost rv = task_views(rest@);
            let ghost ov = task_views(out@);
            let picked = rest.remove(m);
            out.push(picked);
            proof {
                assert(task_views(rest@) =~= rv.remove(m as int));
                assert(task_views(out@) =~= ov.push(picked@));
                assert(picked@ == rv[m as int]);
                // multiset bookkeeping
                vstd::seq_lib::to_multiset_remove::<TaskView>(rv, m as int);
                vstd::seq_lib::to_multiset_build::<TaskView>(ov, picked@);
                vstd::seq_lib::to_multiset_contains::<TaskView>(rv, rv[m as int]);
                assert(rv.contains(rv[m as int]));
                assert(rv.to_multiset().remove(rv[m as int]) == task_views(rest@).to_multiset());
                assert(task_views(out@).to_multiset() == ov.to_multiset().insert(picked@));
                assert(rv.to_multiset().count(rv[m as int]) > 0);
                assert(task_views(out@).to_multiset().add(task_views(rest@).to_multiset())
                    =~= ov.to_multiset().add(rv.to_multiset()));
                // order bookkeeping
                assert forall|p: int, q: int|
                    0 <= p < task_views(out@).len() && 0 <= q < task_views(rest@).len()
                        implies task_le(
                    #[trigger] task_views(out@)[p],
                    #[trigger] task_views(rest@)[q],
                ) by {
                    let q0 = if q < m { q } else { q + 1 };
                    assert(task_views(rest@)[q] == rv[q0]);
                    if p < ov.len() {
                        assert(task_views(out@)[p] == ov[p]);
                    } else {
                        assert(task_views(out@)[p] == rv[m as int]);
                    }
                }
                assert forall|p: int, q: int|
                    0 <= p < q < task_views(out@).len() implies task_le(
                    #[trigger] task_views(out@)[p],
                    #[trigger] task_views(out@)[q],
                ) by {
                    if q < ov.len() {
                        assert(task_views(out@)[p] == ov[p] && task_views(out@)[q] == ov[q]);
                    } else {
                        assert(task_views(out@)[p] == ov[p] && task_views(out@)[q] == rv[m as int]);
                    }
                }
            }
        }
        proof {
            assert(task_views(rest@) =~= Seq::<TaskView>::empty());
            assert(task_views(out@).to_multiset().add(Seq::<TaskView>::empty().to_multiset())
                =~= task_views(out@).to_multiset());
            assert(orig.to_multiset().len() == orig.len());
        }
        Some(out)
    }
}

/// The largest id is an upper bound for every id in the list.
pub proof fn lemma_max_id_le(ts: Seq<TaskView>)
    ensures
        forall|i: int| 0 <= i < ts.len() ==> (#[trigger] ts[i]).id <= max_id(ts),
    decreases ts.len(),
{
    if ts.len() > 0 {
        lemma_max_id_le(ts.drop_last());
        assert forall|i: int| 0 <= i < ts.len() implies (#[trigger] ts[i]).id <= max_id(ts) by {
            if i < ts.len() - 1 {
                assert(ts.drop_last()[i] == ts[i]);
            }
        }
    }
}

} // verus!
