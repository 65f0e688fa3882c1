//! The in-memory store: one value holding every persisted record, its
//! well-formedness invariant, and the task and category operations.
//!
//! Error kinds are reported in a fixed order: `Validation` for a rejected
//! input, then `NotFound` for a missing reference, then `Conflict` for a
//! collision or a transition the state machine refuses, then
//! `StoreUnavailable` when the store is at capacity.

use vstd::prelude::*;

verus! {

use crate::level::MAX_TOTAL_XP;
use crate::level::calculate_level;
use crate::level::spec_is_level_of;
use crate::models::Category;
use crate::models::CategoryExperience;
use crate::models::CategoryStats;
use crate::models::CategoryV;
use crate::models::LedgerV;
use crate::models::SessionV;
use crate::models::StoreError;
use crate::models::Subtask;
use crate::models::SubtaskStatus;
use crate::models::SubtaskV;
use crate::models::Task;
use crate::models::TaskStatus;
use crate::models::TaskV;
use crate::models::TimeSession;
use crate::models::opt_text;
use crate::text::lowercase;
use crate::text::ascii_lowercase;
use crate::text::spec_lowercase;
use crate::text::spec_lex_le;
use crate::text::lemma_lex_le_total;
use crate::text::lemma_lex_le_trans;
use crate::text::str_eq;
use crate::text::str_le;
use crate::ident::new_id;
use crate::clock::now_rfc3339;
use vstd::string::StringSliceAdditionalSpecFns;

/// Most records one table will hold; keeps every derived sum well inside
/// the machine integer range.
pub const MAX_RECORDS: usize = 100_000_000;

/// Sane upper bound on a caller-supplied elapsed time: one year of seconds.
pub const MAX_ELAPSED_SECONDS: i64 = 31_536_000;

/// Mathematical view of the whole store.
#[verifier::ext_equal]
pub ghost struct StoreV {
    pub tasks: Seq<TaskV>,
    pub subtasks: Seq<SubtaskV>,
    pub sessions: Seq<SessionV>,
    pub categories: Seq<CategoryV>,
    pub ledgers: Seq<LedgerV>,
}

/// The shared mutable store. Callers hand it whole to each operation; the
/// surrounding application serializes access to it.
pub struct Store {
    pub tasks: Vec<Task>,
    pub subtasks: Vec<Subtask>,
    pub sessions: Vec<TimeSession>,
    pub categories: Vec<Category>,
    pub ledgers: Vec<CategoryExperience>,
}

/// The views of a list of task records.
pub open spec fn view_tasks(v: Seq<Task>) -> Seq<TaskV> {
    Seq::new(v.len(), |i: int| v[i]@)
}

/// The views of a list of subtask records.
pub open spec fn view_subtasks(v: Seq<Subtask>) -> Seq<SubtaskV> {
    Seq::new(v.len(), |i: int| v[i]@)
}

/// The views of a list of session records.
pub open spec fn view_sessions(v: Seq<TimeSession>) -> Seq<SessionV> {
    Seq::new(v.len(), |i: int| v[i]@)
}

/// The views of a list of category records.
pub open spec fn view_categories(v: Seq<Category>) -> Seq<CategoryV> {
    Seq::new(v.len(), |i: int| v[i]@)
}

/// The views of a list of ledger records.
pub open spec fn view_ledgers(v: Seq<CategoryExperience>) -> Seq<LedgerV> {
    Seq::new(v.len(), |i: int| v[i]@)
}

impl View for Store {
    type V = StoreV;

    open spec fn view(&self) -> StoreV {
        StoreV {
            tasks: view_tasks(self.tasks@),
            subtasks: view_subtasks(self.subtasks@),
            sessions: view_sessions(self.sessions@),
            categories: view_categories(self.categories@),
            ledgers: view_ledgers(self.ledgers@),
        }
    }
}

// ---------------------------------------------------------------------------
// Existence and lookup, at the specification level
// ---------------------------------------------------------------------------

pub open spec fn task_exists(ts: Seq<TaskV>, id: Seq<char>) -> bool {
    exists|i: int| 0 <= i < ts.len() && (#[trigger] ts[i]).id == id
}

pub open spec fn task_index_of(ts: Seq<TaskV>, id: Seq<char>) -> int {
    choose|i: int| 0 <= i < ts.len() && (#[trigger] ts[i]).id == id
}

pub open spec fn subtask_exists(ss: Seq<SubtaskV>, id: Seq<char>) -> bool {
    exists|i: int| 0 <= i < ss.len() && (#[trigger] ss[i]).id == id
}

pub open spec fn subtask_index_of(ss: Seq<SubtaskV>, id: Seq<char>) -> int {
    choose|i: int| 0 <= i < ss.len() && (#[trigger] ss[i]).id == id
}

pub open spec fn session_id_exists(ss: Seq<SessionV>, id: Seq<char>) -> bool {
    exists|i: int| 0 <= i < ss.len() && (#[trigger] ss[i]).id == id
}

/// A session that has not ended is the active session of its subtask.
pub open spec fn is_active(s: SessionV) -> bool {
    s.ended_at is None
}

pub open spec fn active_exists(ss: Seq<SessionV>, sid: Seq<char>) -> bool {
    exists|i: int| 0 <= i < ss.len() && (#[trigger] ss[i]).subtask_id == sid && is_active(ss[i])
}

pub open spec fn active_index_of(ss: Seq<SessionV>, sid: Seq<char>) -> int {
    choose|i: int| 0 <= i < ss.len() && (#[trigger] ss[i]).subtask_id == sid && is_active(ss[i])
}

pub open spec fn category_exists(cs: Seq<CategoryV>, id: Seq<char>) -> bool {
    exists|i: int| 0 <= i < cs.len() && (#[trigger] cs[i]).id == id
}

pub open spec fn category_index_of(cs: Seq<CategoryV>, id: Seq<char>) -> int {
    choose|i: int| 0 <= i < cs.len() && (#[trigger] cs[i]).id == id
}

pub open spec fn category_name_exists(cs: Seq<CategoryV>, name: Seq<char>) -> bool {
    exists|i: int| 0 <= i < cs.len() && (#[trigger] cs[i]).name == name
}

pub open spec fn ledger_id_exists(ls: Seq<LedgerV>, id: Seq<char>) -> bool {
    exists|i: int| 0 <= i < ls.len() && (#[trigger] ls[i]).id == id
}

// ---------------------------------------------------------------------------
// Well-formedness
// ---------------------------------------------------------------------------

/// Task table invariant: bounded, ids unique, completion timestamp present
/// exactly on done tasks.
pub open spec fn tasks_wf(ts: Seq<TaskV>) -> bool {
    &&& ts.len() <= MAX_RECORDS
    &&& forall|i: int, j: int|
        0 <= i < j < ts.len() ==> (#[trigger] ts[i]).id != (#[trigger] ts[j]).id
    &&& forall|i: int|
        0 <= i < ts.len() ==> ((#[trigger] ts[i]).completed_at is Some <==> ts[i].status is Done)
}

/// Subtask table invariant: bounded, ids unique, owner task present,
/// referenced category present, completion timestamp exactly on done rows.
pub open spec fn subtasks_wf(ss: Seq<SubtaskV>, ts: Seq<TaskV>, cs: Seq<CategoryV>) -> bool {
    &&& ss.len() <= MAX_RECORDS
    &&& forall|i: int, j: int|
        0 <= i < j < ss.len() ==> (#[trigger] ss[i]).id != (#[trigger] ss[j]).id
    &&& forall|i: int| 0 <= i < ss.len() ==> task_exists(ts, (#[trigger] ss[i]).task_id)
    &&& forall|i: int|
        0 <= i < ss.len() ==> ((#[trigger] ss[i]).completed_at is Some <==> ss[i].status is Done)
    &&& forall|i: int|
        0 <= i < ss.len() ==> ((#[trigger] ss[i]).category_id matches Some(cid) ==> category_exists(
            cs,
            cid,
        ))
}

/// Session table invariant: bounded, ids unique, at most one session per
/// subtask, durations within the sane bound, and the owner's status in
/// lockstep — a running session's owner is in progress or paused, an ended
/// session's owner is done.
pub open spec fn sessions_wf(xs: Seq<SessionV>, ss: Seq<SubtaskV>) -> bool {
    &&& xs.len() <= MAX_RECORDS
    &&& forall|i: int, j: int|
        0 <= i < j < xs.len() ==> (#[trigger] xs[i]).id != (#[trigger] xs[j]).id
    &&& forall|i: int, j: int|
        0 <= i < j < xs.len() ==> (#[trigger] xs[i]).subtask_id != (#[trigger] xs[j]).subtask_id
    &&& forall|i: int|
        0 <= i < xs.len() ==> 0 <= (#[trigger] xs[i]).duration_seconds <= MAX_ELAPSED_SECONDS
    &&& forall|i: int| 0 <= i < xs.len() ==> subtask_exists(ss, (#[trigger] xs[i]).subtask_id)
    &&& forall|i: int|
        0 <= i < xs.len() ==> {
            let owner = ss[subtask_index_of(ss, (#[trigger] xs[i]).subtask_id)];
            if is_active(xs[i]) {
                owner.status is InProgress || owner.status is Paused
            } else {
                owner.status is Done
            }
        }
}

/// A subtask that is in progress or paused has a running session.
pub open spec fn statuses_wf(ss: Seq<SubtaskV>, xs: Seq<SessionV>) -> bool {
    forall|i: int|
        0 <= i < ss.len() ==> (((#[trigger] ss[i]).status is InProgress || ss[i].status is Paused)
            ==> active_exists(xs, ss[i].id))
}

/// Category table invariant: bounded, ids unique, names unique and sorted
/// by their UTF-8 bytes.
pub open spec fn categories_wf(cs: Seq<CategoryV>) -> bool {
    &&& cs.len() <= MAX_RECORDS
    &&& forall|i: int, j: int|
        0 <= i < j < cs.len() ==> (#[trigger] cs[i]).id != (#[trigger] cs[j]).id
    &&& forall|i: int, j: int|
        0 <= i < j < cs.len() ==> (#[trigger] cs[i]).name != (#[trigger] cs[j]).name
    &&& forall|i: int, j: int|
        0 <= i < j < cs.len() ==> spec_lex_le(
            vstd::utf8::encode_utf8((#[trigger] cs[i]).name),
            vstd::utf8::encode_utf8((#[trigger] cs[j]).name),
        )
}

/// Ledger table invariant: one ledger per category, stored in the same
/// order, ids unique, totals within bounds and levels derived from them.
pub open spec fn ledgers_wf(ls: Seq<LedgerV>, cs: Seq<CategoryV>) -> bool {
    &&& ls.len() == cs.len()
    &&& forall|i: int| 0 <= i < ls.len() ==> (#[trigger] ls[i]).category_id == cs[i].id
    &&& forall|i: int, j: int|
        0 <= i < j < ls.len() ==> (#[trigger] ls[i]).id != (#[trigger] ls[j]).id
    &&& forall|i: int|
        0 <= i < ls.len() ==> 0 <= (#[trigger] ls[i]).total_xp <= MAX_TOTAL_XP
    &&& forall|i: int|
        0 <= i < ls.len() ==> spec_is_level_of(
            (#[trigger] ls[i]).total_xp as int,
            ls[i].level as int,
        )
}

/// Well-formedness of the whole store.
pub open spec fn store_wf(v: StoreV) -> bool {
    &&& tasks_wf(v.tasks)
    &&& subtasks_wf(v.subtasks, v.tasks, v.categories)
    &&& sessions_wf(v.sessions, v.subtasks)
    &&& statuses_wf(v.subtasks, v.sessions)
    &&& categories_wf(v.categories)
    &&& ledgers_wf(v.ledgers, v.categories)
}

impl Store {
    /// Shorthand for well-formedness of this store's view.
    pub open spec fn wf(&self) -> bool {
        store_wf(self@)
    }

    /// A fresh, empty store.
    pub fn new() -> (s: Store)
        ensures
            s.wf(),
            s@.tasks.len() == 0,
            s@.subtasks.len() == 0,
            s@.sessions.len() == 0,
            s@.categories.len() == 0,
            s@.ledgers.len() == 0,
    {
        Store {
            tasks: Vec::new(),
            subtasks: Vec::new(),
            sessions: Vec::new(),
            categories: Vec::new(),
            ledgers: Vec::new(),
        }
    }

    // -----------------------------------------------------------------------
    // Lookup helpers
    // -----------------------------------------------------------------------

    pub(crate) fn find_task(&self, id: &str) -> (r: Option<usize>)
        ensures
            (match r {
                Some(i) => i < self@.tasks.len() && self@.tasks[i as int].id == id@,
                None => !task_exists(self@.tasks, id@),
            }),
    {
        let n = self.tasks.len();
        let mut i: usize = 0;
        while i < n
            invariant
                i <= n,
                n == self@.tasks.len(),
                n == self.tasks@.len(),
                forall|k: int| 0 <= k < i ==> (#[trigger] self@.tasks[k]).id != id@,
            decreases n - i,
        {
            if str_eq(self.tasks[i].id.as_str(), id) {
                return Some(i);
            }
            i = i + 1;
        }
        None
    }

    pub(crate) fn find_subtask(&self, id: &str) -> (r: Option<usize>)
        ensures
            (match r {
                Some(i) => i < self@.subtasks.len() && self@.subtasks[i as int].id == id@,
                None => !subtask_exists(self@.subtasks, id@),
            }),
    {
        let n = self.subtasks.len();
        let mut i: usize = 0;
        while i < n
            invariant
                i <= n,
                n == self@.subtasks.len(),
                n == self.subtasks@.len(),
                forall|k: int| 0 <= k < i ==> (#[trigger] self@.subtasks[k]).id != id@,
            decreases n - i,
        {
            if str_eq(self.subtasks[i].id.as_str(), id) {
                return Some(i);
            }
            i = i + 1;
        }
        None
    }

    pub(crate) fn find_session_by_id(&self, id: &str) -> (r: Option<usize>)
        ensures
            (match r {
                Some(i) => i < self@.sessions.len() && self@.sessions[i as int].id == id@,
                None => !session_id_exists(self@.sessions, id@),
            }),
    {
        let n = self.sessions.len();
        let mut i: usize = 0;
        while i < n
            invariant
                i <= n,
                n == self@.sessions.len(),
                n == self.sessions@.len(),
                forall|k: int| 0 <= k < i ==> (#[trigger] self@.sessions[k]).id != id@,
            decreases n - i,
        {
            if str_eq(self.sessions[i].id.as_str(), id) {
                return Some(i);
            }
            i = i + 1;
        }
        None
    }

    pub(crate) fn find_active_session(&self, subtask_id: &str) -> (r: Option<usize>)
        ensures
            (match r {
                Some(i) => i < self@.sessions.len() && self@.sessions[i as int].subtask_id
                    == subtask_id@ && is_active(self@.sessions[i as int]),
                None => !active_exists(self@.sessions, subtask_id@),
            }),
    {
        let n = self.sessions.len();
        let mut i: usize = 0;
        while i < n
            invariant
                i <= n,
                n == self@.sessions.len(),
                n == self.sessions@.len(),
                forall|k: int|
                    0 <= k < i ==> !((#[trigger] self@.sessions[k]).subtask_id == subtask_id@
                        && is_active(self@.sessions[k])),
            decreases n - i,
        {
            if self.sessions[i].ended_at.is_none() {
                if str_eq(self.sessions[i].subtask_id.as_str(), subtask_id) {
                    return Some(i);
                }
            }
            i = i + 1;
        }
        None
    }

    pub(crate) fn find_category(&self, id: &str) -> (r: Option<usize>)
        ensures
            (match r {
                Some(i) => i < self@.categories.len() && self@.categories[i as int].id == id@,
                None => !category_exists(self@.categories, id@),
            }),
    {
        let n = self.categories.len();
        let mut i: usize = 0;
        while i < n
            invariant
                i <= n,
                n == self@.categories.len(),
                n == self.categories@.len(),
                forall|k: int| 0 <= k < i ==> (#[trigger] self@.categories[k]).id != id@,
            decreases n - i,
        {
            if str_eq(self.categories[i].id.as_str(), id) {
                return Some(i);
            }
            i = i + 1;
        }
        None
    }

    pub(crate) fn find_category_by_name(&self, name: &str) -> (r: Option<usize>)
        ensures
            (match r {
                Some(i) => i < self@.categories.len() && self@.categories[i as int].name == name@,
                None => !category_name_exists(self@.categories, name@),
            }),
    {
        let n = self.categories.len();
        let mut i: usize = 0;
        while i < n
            invariant
                i <= n,
                n == self@.categories.len(),
                n == self.categories@.len(),
                forall|k: int| 0 <= k < i ==> (#[trigger] self@.categories[k]).name != name@,
            decreases n - i,
        {
            if str_eq(self.categories[i].name.as_str(), name) {
                return Some(i);
            }
            i = i + 1;
        }
        None
    }

    pub(crate) fn find_ledger_by_id(&self, id: &str) -> (r: Option<usize>)
        ensures
            (match r {
                Some(i) => i < self@.ledgers.len() && self@.ledgers[i as int].id == id@,
                None => !ledger_id_exists(self@.ledgers, id@),
            }),
    {
        let n = self.ledgers.len();
        let mut i: usize = 0;
        while i < n
            invariant
                i <= n,
                n == self@.ledgers.len(),
                n == self.ledgers@.len(),
                forall|k: int| 0 <= k < i ==> (#[trigger] self@.ledgers[k]).id != id@,
            decreases n - i,
        {
            if str_eq(self.ledgers[i].id.as_str(), id) {
                return Some(i);
            }
            i = i + 1;
        }
        None
    }
}

// ---------------------------------------------------------------------------
// Cloning helpers: copies whose views equal the original's
// ---------------------------------------------------------------------------

pub(crate) fn clone_opt_text(o: &Option<String>) -> (r: Option<String>)
    ensures
        opt_text(r) == opt_text(*o),
{
    match o {
        Some(s) => Some(s.clone()),
        None => None,
    }
}

pub(crate) fn clone_task(t: &Task) -> (r: Task)
    ensures
        r@ == t@,
{
    Task {
        id: t.id.clone(),
        title: t.title.clone(),
        description: clone_opt_text(&t.description),
        status: t.status,
        created_at: t.created_at.clone(),
        updated_at: t.updated_at.clone(),
        completed_at: clone_opt_text(&t.completed_at),
    }
}

pub(crate) fn clone_subtask(s: &Subtask) -> (r: Subtask)
    ensures
        r@ == s@,
{
    Subtask {
        id: s.id.clone(),
        task_id: s.task_id.clone(),
        title: s.title.clone(),
        status: s.status,
        created_at: s.created_at.clone(),
        updated_at: s.updated_at.clone(),
        completed_at: clone_opt_text(&s.completed_at),
        total_time_seconds: s.total_time_seconds,
        category_id: clone_opt_text(&s.category_id),
    }
}

pub(crate) fn clone_session(s: &TimeSession) -> (r: TimeSession)
    ensures
        r@ == s@,
{
    TimeSession {
        id: s.id.clone(),
        subtask_id: s.subtask_id.clone(),
        started_at: s.started_at.clone(),
        paused_at: clone_opt_text(&s.paused_at),
        resumed_at: clone_opt_text(&s.resumed_at),
        ended_at: clone_opt_text(&s.ended_at),
        duration_seconds: s.duration_seconds,
    }
}

pub(crate) fn clone_category(c: &Category) -> (r: Category)
    ensures
        r@ == c@,
{
    Category {
        id: c.id.clone(),
        name: c.name.clone(),
        color: c.color.clone(),
        created_at: c.created_at.clone(),
    }
}

pub(crate) fn clone_ledger(l: &CategoryExperience) -> (r: CategoryExperience)
    ensures
        r@ == l@,
{
    CategoryExperience {
        id: l.id.clone(),
        category_id: l.category_id.clone(),
        total_xp: l.total_xp,
        level: l.level,
        updated_at: l.updated_at.clone(),
    }
}

// ---------------------------------------------------------------------------
// Task operations
// ---------------------------------------------------------------------------

/// When creating a task succeeds: a non-empty title, a fresh id, room left.
pub open spec fn create_task_ok(v: StoreV, id: Seq<char>, title: Seq<char>) -> bool {
    &&& title.len() > 0
    &&& !task_exists(v.tasks, id)
    &&& v.tasks.len() < MAX_RECORDS
}

/// The error reported when creating a task fails.
pub open spec fn create_task_err(v: StoreV, id: Seq<char>, title: Seq<char>) -> StoreError {
    if title.len() == 0 {
        StoreError::Validation
    } else if task_exists(v.tasks, id) {
        StoreError::Conflict
    } else {
        StoreError::StoreUnavailable
    }
}

/// When updating a task's status succeeds: a recognized status string and
/// an existing task.
pub open spec fn update_task_status_ok(v: StoreV, tid: Seq<char>, status: Seq<char>) -> bool {
    &&& TaskStatus::spec_try_from_str(status) is Some
    &&& task_exists(v.tasks, tid)
}

/// The error reported when updating a task's status fails.
pub open spec fn update_task_status_err(v: StoreV, tid: Seq<char>, status: Seq<char>) -> StoreError {
    if TaskStatus::spec_try_from_str(status) is None {
        StoreError::Validation
    } else {
        StoreError::NotFound
    }
}

// ---------------------------------------------------------------------------
// Index coherence: with unique ids, the chosen index of an id is the place
// where the id stands.
// ---------------------------------------------------------------------------

pub proof fn lemma_task_index_of(ts: Seq<TaskV>, i: int)
    requires
        forall|a: int, b: int|
            0 <= a < b < ts.len() ==> (#[trigger] ts[a]).id != (#[trigger] ts[b]).id,
        0 <= i < ts.len(),
    ensures
        task_exists(ts, ts[i].id),
        task_index_of(ts, ts[i].id) == i,
{
    assert(task_exists(ts, ts[i].id));
    let c = task_index_of(ts, ts[i].id);
    if c < i {
        assert(ts[c].id != ts[i].id);
    }
    if c > i {
        assert(ts[i].id != ts[c].id);
    }
}

pub proof fn lemma_subtask_index_of(ss: Seq<SubtaskV>, i: int)
    requires
        forall|a: int, b: int|
            0 <= a < b < ss.len() ==> (#[trigger] ss[a]).id != (#[trigger] ss[b]).id,
        0 <= i < ss.len(),
    ensures
        subtask_exists(ss, ss[i].id),
        subtask_index_of(ss, ss[i].id) == i,
{
    assert(subtask_exists(ss, ss[i].id));
    let c = subtask_index_of(ss, ss[i].id);
    if c < i {
        assert(ss[c].id != ss[i].id);
    }
    if c > i {
        assert(ss[i].id != ss[c].id);
    }
}

pub proof fn lemma_category_index_of(cs: Seq<CategoryV>, i: int)
    requires
        forall|a: int, b: int|
            0 <= a < b < cs.len() ==> (#[trigger] cs[a]).id != (#[trigger] cs[b]).id,
        0 <= i < cs.len(),
    ensures
        category_exists(cs, cs[i].id),
        category_index_of(cs, cs[i].id) == i,
{
    assert(category_exists(cs, cs[i].id));
    let c = category_index_of(cs, cs[i].id);
    if c < i {
        assert(cs[c].id != cs[i].id);
    }
    if c > i {
        assert(cs[i].id != cs[c].id);
    }
}

/// With at most one session per subtask, the chosen active-session index of
/// a subtask is the place where its running session stands.
pub proof fn lemma_active_index_of(xs: Seq<SessionV>, i: int)
    requires
        forall|a: int, b: int|
            0 <= a < b < xs.len() ==> (#[trigger] xs[a]).subtask_id != (#[trigger] xs[b]).subtask_id,
        0 <= i < xs.len(),
        is_active(xs[i]),
    ensures
        active_exists(xs, xs[i].subtask_id),
        active_index_of(xs, xs[i].subtask_id) == i,
{
    assert(active_exists(xs, xs[i].subtask_id));
    let c = active_index_of(xs, xs[i].subtask_id);
    if c < i {
        assert(xs[c].subtask_id != xs[i].subtask_id);
    }
    if c > i {
        assert(xs[i].subtask_id != xs[c].subtask_id);
    }
}

/// A category name present in one table stays present in another that
/// contains every entry of the first.
pub proof fn lemma_name_exists_carried(a: Seq<CategoryV>, b: Seq<CategoryV>, n: Seq<char>)
    requires
        category_name_exists(a, n),
        forall|i: int| 0 <= i < a.len() ==> b.contains(#[trigger] a[i]),
    ensures
        category_name_exists(b, n),
{
    let w = choose|w: int| 0 <= w < a.len() && (#[trigger] a[w]).name == n;
    assert(b.contains(a[w]));
    let u = choose|u: int| 0 <= u < b.len() && b[u] == a[w];
    assert((b[u]).name == n);
}

/// A category together with its ledger stands somewhere in a store view.
pub open spec fn pair_present(v: StoreV, c: CategoryV, l: LedgerV) -> bool {
    exists|k: int|
        0 <= k < v.categories.len() && k < v.ledgers.len() && (#[trigger] v.categories[k]) == c
            && v.ledgers[k] == l
}

/// Every category of `a`, with its ledger, still stands (at some position)
/// in `b`: existing rows survive, though they may have moved.
pub open spec fn pairs_carried(a: StoreV, b: StoreV) -> bool {
    forall|i: int|
        0 <= i < a.categories.len() && i < a.ledgers.len() ==> pair_present(
            b,
            #[trigger] a.categories[i],
            a.ledgers[i],
        )
}

/// A preset category is fully seeded: an entry of this name carries this
/// color, with its ledger at zero experience in level 1.
pub open spec fn preset_seeded(v: StoreV, name: Seq<char>, color: Seq<char>) -> bool {
    exists|k: int|
        0 <= k < v.categories.len() && k < v.ledgers.len() && (#[trigger] v.categories[k]).name
            == name && v.categories[k].color == color && v.ledgers[k].total_xp == 0
            && v.ledgers[k].level == 1
}

/// All five preset category names are present.
pub open spec fn all_presets_named(v: StoreV) -> bool {
    &&& category_name_exists(v.categories, "frontend"@)
    &&& category_name_exists(v.categories, "backend"@)
    &&& category_name_exists(v.categories, "architecture"@)
    &&& category_name_exists(v.categories, "css"@)
    &&& category_name_exists(v.categories, "tailwind"@)
}

/// A store carries its own pairs.
pub proof fn lemma_pairs_refl(v: StoreV)
    ensures
        pairs_carried(v, v),
{
    assert forall|i: int|
        0 <= i < v.categories.len() && i < v.ledgers.len() implies pair_present(
        v,
        #[trigger] v.categories[i],
        v.ledgers[i],
    ) by {
        assert(v.categories[i] == v.categories[i] && v.ledgers[i] == v.ledgers[i]);
    }
}

/// Carrying pairs composes.
pub proof fn lemma_pairs_trans(a: StoreV, b: StoreV, c: StoreV)
    requires
        pairs_carried(a, b),
        pairs_carried(b, c),
    ensures
        pairs_carried(a, c),
{
    assert forall|i: int|
        0 <= i < a.categories.len() && i < a.ledgers.len() implies pair_present(
        c,
        #[trigger] a.categories[i],
        a.ledgers[i],
    ) by {
        assert(pair_present(b, a.categories[i], a.ledgers[i]));
        let u = choose|u: int|
            0 <= u < b.categories.len() && u < b.ledgers.len() && (#[trigger] b.categories[u])
                == a.categories[i] && b.ledgers[u] == a.ledgers[i];
        assert(pair_present(c, b.categories[u], b.ledgers[u]));
    }
}

/// A seeded preset survives into any store that carries the pairs.
pub proof fn lemma_preset_carried(a: StoreV, b: StoreV, name: Seq<char>, color: Seq<char>)
    requires
        preset_seeded(a, name, color),
        pairs_carried(a, b),
    ensures
        preset_seeded(b, name, color),
{
    let k = choose|k: int|
        0 <= k < a.categories.len() && k < a.ledgers.len() && (#[trigger] a.categories[k]).name
            == name && a.categories[k].color == color && a.ledgers[k].total_xp == 0
            && a.ledgers[k].level == 1;
    assert(pair_present(b, a.categories[k], a.ledgers[k]));
    let u = choose|u: int|
        0 <= u < b.categories.len() && u < b.ledgers.len() && (#[trigger] b.categories[u])
            == a.categories[k] && b.ledgers[u] == a.ledgers[k];
    assert(b.categories[u].name == name);
}

/// Carried pairs keep each category value present.
pub proof fn lemma_pairs_contains(a: StoreV, b: StoreV)
    requires
        pairs_carried(a, b),
        a.ledgers.len() == a.categories.len(),
    ensures
        forall|i: int|
            0 <= i < a.categories.len() ==> b.categories.contains(#[trigger] a.categories[i]),
{
    assert forall|i: int|
        0 <= i < a.categories.len() implies b.categories.contains(#[trigger] a.categories[i]) by {
        assert(pair_present(b, a.categories[i], a.ledgers[i]));
        let u = choose|u: int|
            0 <= u < b.categories.len() && u < b.ledgers.len() && (#[trigger] b.categories[u])
                == a.categories[i] && b.ledgers[u] == a.ledgers[i];
        assert(b.categories[u] == a.categories[i]);
    }
}

/// The five preset names are plain lowercase ASCII, and pairwise
/// distinct.
pub proof fn lemma_preset_names()
    ensures
        ascii_lowercase("frontend"@),
        ascii_lowercase("backend"@),
        ascii_lowercase("architecture"@),
        ascii_lowercase("css"@),
        ascii_lowercase("tailwind"@),
        "frontend"@ != "backend"@,
        "frontend"@ != "architecture"@,
        "frontend"@ != "css"@,
        "frontend"@ != "tailwind"@,
        "backend"@ != "architecture"@,
        "backend"@ != "css"@,
        "backend"@ != "tailwind"@,
        "architecture"@ != "css"@,
        "architecture"@ != "tailwind"@,
        "css"@ != "tailwind"@,
{
    reveal_strlit("frontend");
    reveal_strlit("backend");
    reveal_strlit("architecture");
    reveal_strlit("css");
    reveal_strlit("tailwind");
    assert forall|i: int| 0 <= i < "frontend"@.len() implies 'a' <= #[trigger] "frontend"@[i]
        <= 'z' by {
        if i == 0 {
            assert("frontend"@[0] == 'f');
        }
        if i == 1 {
            assert("frontend"@[1] == 'r');
        }
        if i == 2 {
            assert("frontend"@[2] == 'o');
        }
        if i == 3 {
            assert("frontend"@[3] == 'n');
        }
        if i == 4 {
            assert("frontend"@[4] == 't');
        }
        if i == 5 {
            assert("frontend"@[5] == 'e');
        }
        if i == 6 {
            assert("frontend"@[6] == 'n');
        }
        if i == 7 {
            assert("frontend"@[7] == 'd');
        }
    }
    assert forall|i: int| 0 <= i < "backend"@.len() implies 'a' <= #[trigger] "backend"@[i]
        <= 'z' by {
        if i == 0 {
            assert("backend"@[0] == 'b');
        }
        if i == 1 {
            assert("backend"@[1] == 'a');
        }
        if i == 2 {
            assert("backend"@[2] == 'c');
        }
        if i == 3 {
            assert("backend"@[3] == 'k');
        }
        if i == 4 {
            assert("backend"@[4] == 'e');
        }
        if i == 5 {
            assert("backend"@[5] == 'n');
        }
        if i == 6 {
            assert("backend"@[6] == 'd');
        }
    }
    assert forall|i: int| 0 <= i < "architecture"@.len() implies 'a' <= #[trigger] "architecture"@[i]
        <= 'z' by {
        if i == 0 {
            assert("architecture"@[0] == 'a');
        }
        if i == 1 {
            assert("architecture"@[1] == 'r');
        }
        if i == 2 {
            assert("architecture"@[2] == 'c');
        }
        if i == 3 {
            assert("architecture"@[3] == 'h');
        }
        if i == 4 {
            assert("architecture"@[4] == 'i');
        }
        if i == 5 {
            assert("architecture"@[5] == 't');
        }
        if i == 6 {
            assert("architecture"@[6] == 'e');
        }
        if i == 7 {
            assert("architecture"@[7] == 'c');
        }
        if i == 8 {
            assert("architecture"@[8] == 't');
        }
        if i == 9 {
            assert("architecture"@[9] == 'u');
        }
        if i == 10 {
            assert("architecture"@[10] == 'r');
        }
        if i == 11 {
            assert("architecture"@[11] == 'e');
        }
    }
    assert forall|i: int| 0 <= i < "css"@.len() implies 'a' <= #[trigger] "css"@[i]
        <= 'z' by {
        if i == 0 {
            assert("css"@[0] == 'c');
        }
        if i == 1 {
            assert("css"@[1] == 's');
        }
        if i == 2 {
            assert("css"@[2] == 's');
        }
    }
    assert forall|i: int| 0 <= i < "tailwind"@.len() implies 'a' <= #[trigger] "tailwind"@[i]
        <= 'z' by {
        if i == 0 {
            assert("tailwind"@[0] == 't');
        }
        if i == 1 {
            assert("tailwind"@[1] == 'a');
        }
        if i == 2 {
            assert("tailwind"@[2] == 'i');
        }
        if i == 3 {
            assert("tailwind"@[3] == 'l');
        }
        if i == 4 {
            assert("tailwind"@[4] == 'w');
        }
        if i == 5 {
            assert("tailwind"@[5] == 'i');
        }
        if i == 6 {
            assert("tailwind"@[6] == 'n');
        }
        if i == 7 {
            assert("tailwind"@[7] == 'd');
        }
    }
    assert("frontend"@[0] == 'f' && "tailwind"@[0] == 't');
}

// ---------------------------------------------------------------------------
// The category leaderboard order
// ---------------------------------------------------------------------------

/// One row of the category leaderboard reads the stored pair at `i`: its
/// category, its ledger state, the experience the next level asks for and
/// the whole-percent progress toward it.
#[verifier::opaque]
pub open spec fn stats_entry_ok(v: StoreV, e: CategoryStats, i: int) -> bool {
    &&& 0 <= i < v.categories.len()
    &&& i < v.ledgers.len()
    &&& e.category@ == v.categories[i]
    &&& e.total_xp == v.ledgers[i].total_xp
    &&& e.level == v.ledgers[i].level
    &&& e.xp_for_next_level == crate::level::spec_xp_threshold(v.ledgers[i].level + 1)
    &&& e.progress_percentage == crate::level::spec_progress_percent(
        v.ledgers[i].total_xp as int,
        v.ledgers[i].level as int,
    )
}

/// The leaderboard order: `a` sorts at or before `b` when its level is
/// higher; on equal levels when its experience is higher; and on equal
/// experience when its name sorts at or before (by UTF-8 bytes).
pub open spec fn stats_order(a: CategoryStats, b: CategoryStats) -> bool {
    ||| a.level > b.level
    ||| (a.level == b.level && a.total_xp > b.total_xp)
    ||| (a.level == b.level && a.total_xp == b.total_xp && spec_lex_le(
        name_key(a.category@.name),
        name_key(b.category@.name),
    ))
}

/// A leaderboard listing is sorted by `stats_order`.
pub open spec fn stats_sorted(s: Seq<CategoryStats>) -> bool {
    forall|k1: int, k2: int|
        0 <= k1 < k2 < s.len() ==> stats_order(#[trigger] s[k1], #[trigger] s[k2])
}

/// The stored category–ledger pair at `i2` is read by some row of the
/// listing.
pub open spec fn pair_covered(v: StoreV, s: Seq<CategoryStats>, i2: int) -> bool {
    exists|k: int| 0 <= k < s.len() && #[trigger] stats_entry_ok(v, s[k], i2)
}

/// Row `k` of the listing reads one of the first `upto` stored pairs.
pub open spec fn row_reads_pair(v: StoreV, s: Seq<CategoryStats>, upto: int, k: int) -> bool {
    exists|i2: int| 0 <= i2 < upto && #[trigger] stats_entry_ok(v, s[k], i2)
}

/// The first `upto` stored category–ledger pairs and the rows of a
/// leaderboard listing cover each other: every row reads one of those
/// pairs, and every one of those pairs is read by some row.
pub open spec fn stats_rows_ok(v: StoreV, s: Seq<CategoryStats>, upto: int) -> bool {
    &&& forall|k: int| 0 <= k < s.len() ==> #[trigger] row_reads_pair(v, s, upto, k)
    &&& forall|i2: int| 0 <= i2 < upto ==> #[trigger] pair_covered(v, s, i2)
}

/// The leaderboard order is total.
pub proof fn lemma_stats_order_total(a: CategoryStats, b: CategoryStats)
    ensures
        stats_order(a, b) || stats_order(b, a),
{
    if a.level == b.level && a.total_xp == b.total_xp {
        lemma_lex_le_total(name_key(a.category@.name), name_key(b.category@.name));
    }
}

/// The leaderboard order is transitive.
pub proof fn lemma_stats_order_trans(a: CategoryStats, b: CategoryStats, c: CategoryStats)
    requires
        stats_order(a, b),
        stats_order(b, c),
    ensures
        stats_order(a, c),
{
    if a.level == b.level && b.level == c.level && a.total_xp == b.total_xp && b.total_xp
        == c.total_xp {
        lemma_lex_le_trans(
            name_key(a.category@.name),
            name_key(b.category@.name),
            name_key(c.category@.name),
        );
    }
}

/// Whether `a` sorts at or before `b` on the leaderboard.
fn stats_before(a: &CategoryStats, b: &CategoryStats) -> (r: bool)
    ensures
        r == stats_order(*a, *b),
{
    if a.level != b.level {
        return a.level > b.level;
    }
    if a.total_xp != b.total_xp {
        return a.total_xp > b.total_xp;
    }
    str_le(a.category.name.as_str(), b.category.name.as_str())
}

/// Inserts one row into a sorted leaderboard at its place, and says where:
/// rows before the place stay put, rows from it on move one step right.
fn insert_stat(out: &mut Vec<CategoryStats>, e: CategoryStats) -> (p: usize)
    requires
        stats_sorted(old(out)@),
    ensures
        stats_sorted(final(out)@),
        p <= old(out)@.len(),
        final(out)@.len() == old(out)@.len() + 1,
        forall|k: int| 0 <= k < p ==> #[trigger] final(out)@[k] == old(out)@[k],
        final(out)@[p as int] == e,
        forall|k: int|
            p < k < final(out)@.len() ==> #[trigger] final(out)@[k] == old(out)@[k - 1],
{
    let ghost prior = out@;
    let n = out.len();
    let mut p: usize = 0;
    while p < n && !stats_before(&e, &out[p])
        invariant
            p <= n,
            n == out@.len(),
            out@ == prior,
            forall|k: int| 0 <= k < p ==> !stats_order(e, #[trigger] prior[k]),
        decreases n - p,
    {
        p = p + 1;
    }
    out.insert(p, e);
    proof {
        let p = p as int;
        prior.insert_ensures(p, e);
        assert(out@ == prior.insert(p, e));
        assert forall|k: int| 0 <= k < p implies #[trigger] out@[k] == prior[k] by {
            assert(prior.insert(p, e)[k] == prior[k]);
        }
        assert(prior.insert(p, e)[p] == e);
        assert forall|k: int| p < k < out@.len() implies #[trigger] out@[k] == prior[k - 1] by {
            assert(prior.insert(p, e)[(k - 1) + 1] == prior[k - 1]);
        }
        assert forall|k1: int, k2: int|
            0 <= k1 < k2 < out@.len() implies stats_order(
            #[trigger] out@[k1],
            #[trigger] out@[k2],
        ) by {
            if k1 == p {
                // the new row against a later old one
                let k2o = k2 - 1;
                assert(out@[k2] == prior[k2o]);
                if k2o > p {
                    assert(stats_order(prior[p], prior[k2o]));
                    lemma_stats_order_trans(e, prior[p], prior[k2o]);
                }
            } else if k2 == p {
                // an earlier old row against the new one
                assert(out@[k1] == prior[k1]);
                assert(!stats_order(e, prior[k1]));
                lemma_stats_order_total(e, prior[k1]);
            } else {
                let k1o = if k1 < p {
                    k1
                } else {
                    k1 - 1
                };
                let k2o = if k2 < p {
                    k2
                } else {
                    k2 - 1
                };
                assert(out@[k1] == prior[k1o] && out@[k2] == prior[k2o]);
            }
        }
    }
    p
}

/// Inserting the row that reads pair `i` into a listing that covers the
/// pairs below `i` yields a listing that covers the pairs up to `i`.
proof fn lemma_stats_rows_after_insert(
    v: StoreV,
    out0: Seq<CategoryStats>,
    outn: Seq<CategoryStats>,
    ev: CategoryStats,
    p: int,
    i: int,
)
    requires
        0 <= i,
        0 <= p <= out0.len(),
        outn.len() == out0.len() + 1,
        forall|k: int| 0 <= k < p ==> #[trigger] outn[k] == out0[k],
        outn[p] == ev,
        forall|k: int| p < k < outn.len() ==> #[trigger] outn[k] == out0[k - 1],
        stats_entry_ok(v, ev, i),
        stats_rows_ok(v, out0, i),
    ensures
        stats_rows_ok(v, outn, i + 1),
{
    assert forall|k: int| 0 <= k < outn.len() implies #[trigger] row_reads_pair(
        v,
        outn,
        i + 1,
        k,
    ) by {
        if k < p {
            assert(outn[k] == out0[k]);
            assert(row_reads_pair(v, out0, i, k));
            let w = choose|i2: int| 0 <= i2 < i && #[trigger] stats_entry_ok(v, out0[k], i2);
            assert(stats_entry_ok(v, outn[k], w));
        } else if k == p {
            assert(stats_entry_ok(v, outn[k], i));
        } else {
            assert(outn[k] == out0[k - 1]);
            assert(row_reads_pair(v, out0, i, k - 1));
            let w = choose|i2: int| 0 <= i2 < i && #[trigger] stats_entry_ok(v, out0[k - 1], i2);
            assert(stats_entry_ok(v, outn[k], w));
        }
    }
    assert forall|i2: int| 0 <= i2 < i + 1 implies #[trigger] pair_covered(v, outn, i2) by {
        if i2 < i {
            assert(pair_covered(v, out0, i2));
            let ko = choose|ko: int|
                0 <= ko < out0.len() && #[trigger] stats_entry_ok(v, out0[ko], i2);
            if ko < p {
                assert(outn[ko] == out0[ko]);
                assert(stats_entry_ok(v, outn[ko], i2));
            } else {
                assert(outn[ko + 1] == out0[ko]);
                assert(stats_entry_ok(v, outn[ko + 1], i2));
            }
        } else {
            assert(stats_entry_ok(v, outn[p], i));
        }
    }
}

/// A subtask value found in a table with unique ids is what lookup by its
/// id returns.
pub proof fn lemma_subtask_value(ss: Seq<SubtaskV>, x: SubtaskV)
    requires
        forall|a: int, b: int|
            0 <= a < b < ss.len() ==> (#[trigger] ss[a]).id != (#[trigger] ss[b]).id,
        ss.contains(x),
    ensures
        subtask_exists(ss, x.id),
        ss[subtask_index_of(ss, x.id)] == x,
{
    let w = choose|w: int| 0 <= w < ss.len() && ss[w] == x;
    lemma_subtask_index_of(ss, w);
}

// ---------------------------------------------------------------------------
// Filtering keeps members and distinctness
// ---------------------------------------------------------------------------

/// Every element of a filtered sequence occurs in the original.
pub proof fn lemma_filter_members<A>(s: Seq<A>, pred: spec_fn(A) -> bool)
    ensures
        forall|i: int|
            0 <= i < s.filter(pred).len() ==> s.contains(#[trigger] s.filter(pred)[i]),
    decreases s.len(),
{
    reveal(Seq::filter);
    if s.len() > 0 {
        let dl = s.drop_last();
        lemma_filter_members(dl, pred);
        let f = s.filter(pred);
        let fd = dl.filter(pred);
        assert forall|i: int| 0 <= i < f.len() implies s.contains(f[i]) by {
            if i < fd.len() {
                assert(dl.contains(fd[i]));
                let w = choose|w: int| 0 <= w < dl.len() && dl[w] == fd[i];
                assert(s[w] == fd[i]);
            } else {
                assert(f[i] == s.last());
                assert(s[s.len() - 1] == s.last());
            }
        }
    }
}

/// One step of filtering a growing prefix.
pub proof fn lemma_filter_take_step<A>(s: Seq<A>, pred: spec_fn(A) -> bool, i: int)
    requires
        0 <= i < s.len(),
    ensures
        s.take(i + 1).filter(pred) == if pred(s[i]) {
            s.take(i).filter(pred).push(s[i])
        } else {
            s.take(i).filter(pred)
        },
{
    reveal(Seq::filter);
    assert(s.take(i + 1).drop_last() =~= s.take(i));
    assert(s.take(i + 1).last() == s[i]);
}

/// Filtering keeps any pairwise-distinct key distinct.
pub proof fn lemma_filter_distinct<A, K>(s: Seq<A>, pred: spec_fn(A) -> bool, key: spec_fn(A) -> K)
    requires
        forall|i: int, j: int| 0 <= i < j < s.len() ==> key(s[i]) != key(s[j]),
    ensures
        forall|i: int, j: int|
            0 <= i < j < s.filter(pred).len() ==> key(#[trigger] s.filter(pred)[i]) != key(
                #[trigger] s.filter(pred)[j],
            ),
    decreases s.len(),
{
    reveal(Seq::filter);
    if s.len() > 0 {
        let dl = s.drop_last();
        assert forall|i: int, j: int| 0 <= i < j < dl.len() implies key(dl[i]) != key(dl[j]) by {
            assert(key(s[i]) != key(s[j]));
        }
        lemma_filter_distinct(dl, pred, key);
        lemma_filter_members(dl, pred);
        let f = s.filter(pred);
        let fd = dl.filter(pred);
        assert forall|i: int, j: int| 0 <= i < j < f.len() implies key(f[i]) != key(f[j]) by {
            if pred(s.last()) && j == f.len() - 1 {
                assert(f[i] == fd[i]);
                assert(dl.contains(fd[i]));
                let w = choose|w: int| 0 <= w < dl.len() && dl[w] == fd[i];
                assert(key(s[w]) != key(s[s.len() - 1]));
            } else {
                assert(f[i] == fd[i] && f[j] == fd[j]);
            }
        }
    }
}

// ---------------------------------------------------------------------------
// Category order
// ---------------------------------------------------------------------------

/// Bytes a category name sorts by.
pub open spec fn name_key(name: Seq<char>) -> Seq<u8> {
    vstd::utf8::encode_utf8(name)
}

/// The position a new name takes in the sorted category table: before the
/// first entry it does not sort strictly after.
pub open spec fn sorted_pos(cs: Seq<CategoryV>, name: Seq<char>) -> int
    decreases cs.len(),
{
    if cs.len() == 0 {
        0
    } else if spec_lex_le(name_key(name), name_key(cs[0].name)) {
        0
    } else {
        1 + sorted_pos(cs.drop_first(), name)
    }
}

/// What characterizes the sorted position: everything before it sorts
/// strictly earlier, and the entry at it (if any) does not.
pub proof fn lemma_sorted_pos(cs: Seq<CategoryV>, name: Seq<char>)
    ensures
        0 <= sorted_pos(cs, name) <= cs.len(),
        forall|k: int|
            0 <= k < sorted_pos(cs, name) ==> !spec_lex_le(
                name_key(name),
                name_key((#[trigger] cs[k]).name),
            ),
        sorted_pos(cs, name) < cs.len() ==> spec_lex_le(
            name_key(name),
            name_key(cs[sorted_pos(cs, name)].name),
        ),
    decreases cs.len(),
{
    if cs.len() > 0 && !spec_lex_le(name_key(name), name_key(cs[0].name)) {
        lemma_sorted_pos(cs.drop_first(), name);
        assert forall|k: int|
            0 <= k < sorted_pos(cs, name) implies !spec_lex_le(
            name_key(name),
            name_key((#[trigger] cs[k]).name),
        ) by {
            if k > 0 {
                assert(cs.drop_first()[k - 1] == cs[k]);
            }
        }
        if sorted_pos(cs, name) < cs.len() {
            assert(cs.drop_first()[sorted_pos(cs, name) - 1] == cs[sorted_pos(cs, name)]);
        }
    }
}

/// When creating a category succeeds: a non-empty name whose folded form is
/// new, fresh ids for the category and its ledger, and room left.
pub open spec fn create_category_ok(
    v: StoreV,
    id: Seq<char>,
    ledger_id: Seq<char>,
    name: Seq<char>,
) -> bool {
    &&& name.len() > 0
    &&& !category_name_exists(v.categories, spec_lowercase(name))
    &&& !category_exists(v.categories, id)
    &&& !ledger_id_exists(v.ledgers, ledger_id)
    &&& v.categories.len() < MAX_RECORDS
}

/// The error reported when creating a category fails.
pub open spec fn create_category_err(
    v: StoreV,
    id: Seq<char>,
    ledger_id: Seq<char>,
    name: Seq<char>,
) -> StoreError {
    if name.len() == 0 {
        StoreError::Validation
    } else if category_name_exists(v.categories, spec_lowercase(name)) {
        StoreError::Conflict
    } else if category_exists(v.categories, id) {
        StoreError::Conflict
    } else if ledger_id_exists(v.ledgers, ledger_id) {
        StoreError::Conflict
    } else {
        StoreError::StoreUnavailable
    }
}

/// When creating a subtask succeeds: a non-empty title, an existing task,
/// an existing category when one is referenced, a fresh id, room left.
pub open spec fn create_subtask_ok(
    v: StoreV,
    id: Seq<char>,
    tid: Seq<char>,
    title: Seq<char>,
    category_id: Option<Seq<char>>,
) -> bool {
    &&& title.len() > 0
    &&& task_exists(v.tasks, tid)
    &&& (category_id matches Some(cid) ==> category_exists(v.categories, cid))
    &&& !subtask_exists(v.subtasks, id)
    &&& v.subtasks.len() < MAX_RECORDS
}

/// The error reported when creating a subtask fails.
pub open spec fn create_subtask_err(
    v: StoreV,
    id: Seq<char>,
    tid: Seq<char>,
    title: Seq<char>,
    category_id: Option<Seq<char>>,
) -> StoreError {
    if title.len() == 0 {
        StoreError::Validation
    } else if !task_exists(v.tasks, tid) {
        StoreError::NotFound
    } else if category_id matches Some(cid) && !category_exists(v.categories, cid) {
        StoreError::NotFound
    } else if subtask_exists(v.subtasks, id) {
        StoreError::Conflict
    } else {
        StoreError::StoreUnavailable
    }
}

/// When applying experience succeeds: an existing category, a non-negative
/// amount, and a total that stays within the ledger's bound.
pub open spec fn apply_xp_ok(v: StoreV, cid: Seq<char>, delta: i64) -> bool {
    &&& category_exists(v.categories, cid)
    &&& 0 <= delta
    &&& v.ledgers[category_index_of(v.categories, cid)].total_xp + delta <= MAX_TOTAL_XP
}

/// The error reported when applying experience fails.
pub open spec fn apply_xp_err(v: StoreV, cid: Seq<char>, delta: i64) -> StoreError {
    if !category_exists(v.categories, cid) {
        StoreError::NotFound
    } else {
        StoreError::Validation
    }
}

impl Store {
    /// Creates a category from explicit identifier and timestamp values.
    /// The stored name is the case-folded input; the table keeps its
    /// name order, so the new entry goes to its sorted position, with its
    /// fresh ledger beside it.
    #[verifier::rlimit(60)]
    pub fn create_category_with(
        &mut self,
        id: String,
        ledger_id: String,
        name: String,
        color: String,
        now: String,
    ) -> (r: Result<Category, StoreError>)
        requires
            old(self).wf(),
        ensures
            final(self).wf(),
            r is Ok <==> create_category_ok(old(self)@, id@, ledger_id@, name@),
            r matches Err(e) ==> final(self)@ == old(self)@ && e == create_category_err(
                old(self)@,
                id@,
                ledger_id@,
                name@,
            ),
            r matches Ok(c) ==> {
                let p = sorted_pos(old(self)@.categories, spec_lowercase(name@));
                &&& c@ == (CategoryV {
                    id: id@,
                    name: spec_lowercase(name@),
                    color: color@,
                    created_at: now@,
                })
                &&& final(self)@ == (StoreV {
                    categories: old(self)@.categories.insert(p, c@),
                    ledgers: old(self)@.ledgers.insert(
                        p,
                        LedgerV {
                            id: ledger_id@,
                            category_id: id@,
                            total_xp: 0,
                            level: 1,
                            updated_at: now@,
                        },
                    ),
                    ..old(self)@
                })
            },
    {
        if name.as_str().is_empty() {
            return Err(StoreError::Validation);
        }
        let folded = lowercase(name.as_str());
        if self.find_category_by_name(folded.as_str()).is_some() {
            return Err(StoreError::Conflict);
        }
        if self.find_category(id.as_str()).is_some() {
            return Err(StoreError::Conflict);
        }
        if self.find_ledger_by_id(ledger_id.as_str()).is_some() {
            return Err(StoreError::Conflict);
        }
        if self.categories.len() >= MAX_RECORDS {
            return Err(StoreError::StoreUnavailable);
        }
        let ghost prior = self@;
        let ghost key = name_key(folded@);
        proof {
            lemma_sorted_pos(prior.categories, folded@);
        }
        // Find the sorted position for the folded name.
        let n = self.categories.len();
        let mut p: usize = 0;
        while p < n && !str_le(folded.as_str(), self.categories[p].name.as_str())
            invariant
                p <= n,
                n == self@.categories.len(),
                n == self.categories@.len(),
                self@ == prior,
                folded@ == spec_lowercase(name@),
                key == name_key(folded@),
                forall|k: int|
                    0 <= k < p ==> !spec_lex_le(key, name_key((#[trigger] prior.categories[k]).name)),
            decreases n - p,
        {
            p = p + 1;
        }
        proof {
            let sp = sorted_pos(prior.categories, folded@);
            if (p as int) < sp {
                assert(!spec_lex_le(key, name_key(prior.categories[p as int].name)));
            }
            if sp < p as int {
                assert(!spec_lex_le(key, name_key(prior.categories[sp].name)));
            }
            assert(p as int == sp);
        }
        let category = Category { id, name: folded, color, created_at: now.clone() };
        let ledger = CategoryExperience {
            id: ledger_id,
            category_id: category.id.clone(),
            total_xp: 0,
            level: 1,
            updated_at: now,
        };
        let out = clone_category(&category);
        let ghost cv = category@;
        let ghost lv = ledger@;
        self.categories.insert(p, category);
        self.ledgers.insert(p, ledger);
        proof {
            let p = p as int;
            assert(self@.categories =~= prior.categories.insert(p, cv));
            assert(self@.ledgers =~= prior.ledgers.insert(p, lv));
            assert(self@ =~= (StoreV {
                categories: prior.categories.insert(p, cv),
                ledgers: prior.ledgers.insert(p, lv),
                ..prior
            }));
            prior.categories.insert_ensures(p, cv);
            prior.ledgers.insert_ensures(p, lv);
            let cs = self@.categories;
            // each old entry keeps its place, one step to the right from p on
            assert forall|i: int, j: int| 0 <= i < j < cs.len() implies (#[trigger] cs[i]).id != (
            #[trigger] cs[j]).id by {
                if i != p && j != p {
                    let io = if i < p { i } else { i - 1 };
                    let jo = if j < p { j } else { j - 1 };
                    assert(cs[i] == prior.categories[io] && cs[j] == prior.categories[jo]);
                }
            }
            assert forall|i: int, j: int| 0 <= i < j < cs.len() implies (#[trigger] cs[i]).name != (
            #[trigger] cs[j]).name by {
                if i != p && j != p {
                    let io = if i < p { i } else { i - 1 };
                    let jo = if j < p { j } else { j - 1 };
                    assert(cs[i] == prior.categories[io] && cs[j] == prior.categories[jo]);
                }
            }
            assert forall|i: int, j: int| 0 <= i < j < cs.len() implies spec_lex_le(
                name_key((#[trigger] cs[i]).name),
                name_key((#[trigger] cs[j]).name),
            ) by {
                let sp = sorted_pos(prior.categories, folded@);
                if i == p {
                    // new entry against a later old entry
                    let jo = j - 1;
                    assert(cs[j] == prior.categories[jo]);
                    if jo > sp {
                        assert(spec_lex_le(
                            name_key(prior.categories[sp].name),
                            name_key(prior.categories[jo].name),
                        ));
                        lemma_lex_le_trans(
                            key,
                            name_key(prior.categories[sp].name),
                            name_key(prior.categories[jo].name),
                        );
                    }
                } else if j == p {
                    // an earlier old entry against the new one
                    assert(cs[i] == prior.categories[i]);
                    assert(!spec_lex_le(key, name_key(prior.categories[i].name)));
                    lemma_lex_le_total(key, name_key(prior.categories[i].name));
                } else {
                    let io = if i < p { i } else { i - 1 };
                    let jo = if j < p { j } else { j - 1 };
                    assert(cs[i] == prior.categories[io] && cs[j] == prior.categories[jo]);
                }
            }
            let ls = self@.ledgers;
            assert forall|i: int| 0 <= i < ls.len() implies (#[trigger] ls[i]).category_id
                == cs[i].id by {
                if i != p {
                    let io = if i < p { i } else { i - 1 };
                    assert(ls[i] == prior.ledgers[io] && cs[i] == prior.categories[io]);
                }
            }
            assert forall|i: int, j: int| 0 <= i < j < ls.len() implies (#[trigger] ls[i]).id != (
            #[trigger] ls[j]).id by {
                if i != p && j != p {
                    let io = if i < p { i } else { i - 1 };
                    let jo = if j < p { j } else { j - 1 };
                    assert(ls[i] == prior.ledgers[io] && ls[j] == prior.ledgers[jo]);
                }
            }
            assert forall|i: int| 0 <= i < ls.len() implies 0 <= (#[trigger] ls[i]).total_xp
                <= MAX_TOTAL_XP && spec_is_level_of(ls[i].total_xp as int, ls[i].level as int) by {
                if i != p {
                    let io = if i < p { i } else { i - 1 };
                    assert(ls[i] == prior.ledgers[io]);
                }
            }
            // referenced categories are all still present
            assert forall|i: int| 0 <= i < self@.subtasks.len() implies ((
            #[trigger] self@.subtasks[i]).category_id matches Some(cid) ==> category_exists(
                cs,
                cid,
            )) by {
                if self@.subtasks[i].category_id is Some {
                    let cid = self@.subtasks[i].category_id->Some_0;
                    let w = category_index_of(prior.categories, cid);
                    let wn = if w < p { w } else { w + 1 };
                    assert(cs[wn] == prior.categories[w]);
                }
            }
        }
        Ok(out)
    }

    /// Creates a category, case-folding its name, stamped with the current
    /// time and fresh identifiers; its experience ledger starts at zero in
    /// level 1 beside it. A name already present (after folding) is
    /// rejected.
    pub fn create_category(&mut self, name: String, color: String) -> (r: Result<
        Category,
        StoreError,
    >)
        requires
            old(self).wf(),
        ensures
            final(self).wf(),
            name@.len() == 0 ==> r == Err::<Category, StoreError>(StoreError::Validation),
            name@.len() > 0 && category_name_exists(old(self)@.categories, spec_lowercase(name@))
                ==> r == Err::<Category, StoreError>(StoreError::Conflict),
            name@.len() > 0 && !category_name_exists(old(self)@.categories, spec_lowercase(name@))
                ==> (r matches Err(e) ==> e is Conflict || e is StoreUnavailable),
            r matches Err(_) ==> final(self)@ == old(self)@,
            r matches Ok(c) ==> {
                let p = sorted_pos(old(self)@.categories, spec_lowercase(name@));
                &&& c@.name == spec_lowercase(name@)
                &&& c@.color == color@
                &&& !category_exists(old(self)@.categories, c@.id)
                &&& !category_name_exists(old(self)@.categories, c@.name)
                &&& final(self)@ == (StoreV {
                    categories: old(self)@.categories.insert(p, c@),
                    ledgers: old(self)@.ledgers.insert(
                        p,
                        LedgerV {
                            id: final(self)@.ledgers[p].id,
                            category_id: c@.id,
                            total_xp: 0,
                            level: 1,
                            updated_at: c@.created_at,
                        },
                    ),
                    ..old(self)@
                })
            },
    {
        let id = new_id();
        let ledger_id = new_id();
        let now = now_rfc3339();
        let ghost lid = ledger_id@;
        let r = self.create_category_with(id, ledger_id, name, color, now);
        proof {
            if r is Ok {
                let c = r->Ok_0;
                let p = sorted_pos(old(self)@.categories, c@.name);
                lemma_sorted_pos(old(self)@.categories, c@.name);
                old(self)@.ledgers.insert_ensures(
                    p,
                    LedgerV {
                        id: lid,
                        category_id: c@.id,
                        total_xp: 0,
                        level: 1,
                        updated_at: c@.created_at,
                    },
                );
            }
        }
        r
    }
}

impl Store {
    /// All categories, in their stored order: ascending by name.
    pub fn list_categories(&self) -> (r: Vec<Category>)
        ensures
            r@.len() == self@.categories.len(),
            forall|i: int| 0 <= i < r@.len() ==> (#[trigger] r@[i])@ == self@.categories[i],
    {
        let n = self.categories.len();
        let mut out: Vec<Category> = Vec::new();
        let mut i: usize = 0;
        while i < n
            invariant
                i <= n,
                n == self.categories@.len(),
                n == self@.categories.len(),
                out@.len() == i,
                forall|k: int| 0 <= k < i ==> (#[trigger] out@[k])@ == self@.categories[k],
            decreases n - i,
        {
            out.push(clone_category(&self.categories[i]));
            i = i + 1;
        }
        out
    }

    /// The experience ledger of one category; missing exactly when the
    /// category does not exist.
    pub fn get_category_experience(&self, category_id: &str) -> (r: Result<
        CategoryExperience,
        StoreError,
    >)
        requires
            self.wf(),
        ensures
            r is Ok <==> category_exists(self@.categories, category_id@),
            r matches Err(e) ==> e == StoreError::NotFound,
            r matches Ok(l) ==> l@ == self@.ledgers[category_index_of(
                self@.categories,
                category_id@,
            )],
    {
        let ci = match self.find_category(category_id) {
            Some(i) => i,
            None => {
                return Err(StoreError::NotFound);
            },
        };
        proof {
            lemma_category_index_of(self@.categories, ci as int);
        }
        Ok(clone_ledger(&self.ledgers[ci]))
    }

    /// Adds experience to a category's ledger and recomputes its level.
    /// Experience is never revoked, so a negative amount is rejected, as is
    /// a total beyond the ledger's bound.
    pub fn apply_xp_at(&mut self, category_id: &str, delta: i64, now: String) -> (r: Result<
        CategoryExperience,
        StoreError,
    >)
        requires
            old(self).wf(),
        ensures
            final(self).wf(),
            r is Ok <==> apply_xp_ok(old(self)@, category_id@, delta),
            r matches Err(e) ==> final(self)@ == old(self)@ && e == apply_xp_err(
                old(self)@,
                category_id@,
                delta,
            ),
            r matches Ok(l) ==> {
                let ci = category_index_of(old(self)@.categories, category_id@);
                &&& l@ == (LedgerV {
                    total_xp: (old(self)@.ledgers[ci].total_xp + delta) as i64,
                    level: l@.level,
                    updated_at: now@,
                    ..old(self)@.ledgers[ci]
                })
                &&& spec_is_level_of(l@.total_xp as int, l@.level as int)
                &&& final(self)@ == (StoreV {
                    ledgers: old(self)@.ledgers.update(ci, l@),
                    ..old(self)@
                })
            },
    {
        let ci = match self.find_category(category_id) {
            Some(i) => i,
            None => {
                return Err(StoreError::NotFound);
            },
        };
        proof {
            lemma_category_index_of(self@.categories, ci as int);
        }
        if delta < 0 {
            return Err(StoreError::Validation);
        }
        proof {
            assert(0 <= self@.ledgers[ci as int].total_xp <= MAX_TOTAL_XP);
        }
        let prev = &self.ledgers[ci];
        if delta > MAX_TOTAL_XP - prev.total_xp {
            return Err(StoreError::Validation);
        }
        let new_xp = prev.total_xp + delta;
        let new_level = calculate_level(new_xp);
        let updated = CategoryExperience {
            id: prev.id.clone(),
            category_id: prev.category_id.clone(),
            total_xp: new_xp,
            level: new_level,
            updated_at: now,
        };
        let out = clone_ledger(&updated);
        let ghost prior = self@;
        self.ledgers[ci] = updated;
        proof {
            crate::level::lemma_level_bounded(new_xp as int, new_level as int);
            assert(self@.ledgers =~= prior.ledgers.update(ci as int, out@));
            assert(self@ =~= (StoreV { ledgers: prior.ledgers.update(ci as int, out@), ..prior }));
        }
        Ok(out)
    }

    /// Adds experience to a category's ledger, stamped with the current
    /// time.
    pub fn apply_xp(&mut self, category_id: &str, delta: i64) -> (r: Result<
        CategoryExperience,
        StoreError,
    >)
        requires
            old(self).wf(),
        ensures
            final(self).wf(),
            r is Ok <==> apply_xp_ok(old(self)@, category_id@, delta),
            r matches Err(e) ==> final(self)@ == old(self)@ && e == apply_xp_err(
                old(self)@,
                category_id@,
                delta,
            ),
            r matches Ok(l) ==> {
                let ci = category_index_of(old(self)@.categories, category_id@);
                &&& l@ == (LedgerV {
                    total_xp: (old(self)@.ledgers[ci].total_xp + delta) as i64,
                    level: l@.level,
                    updated_at: l@.updated_at,
                    ..old(self)@.ledgers[ci]
                })
                &&& spec_is_level_of(l@.total_xp as int, l@.level as int)
                &&& final(self)@ == (StoreV {
                    ledgers: old(self)@.ledgers.update(ci, l@),
                    ..old(self)@
                })
            },
    {
        let now = now_rfc3339();
        self.apply_xp_at(category_id, delta, now)
    }

    /// Every category with its ledger state, the experience the next level
    /// asks for, and the progress percentage toward it: one entry per
    /// stored category, as a leaderboard — highest level first, then
    /// highest experience, then name.
    pub fn get_all_category_stats(&self) -> (r: Vec<CategoryStats>)
        requires
            self.wf(),
        ensures
            r@.len() == self@.categories.len(),
            stats_sorted(r@),
            stats_rows_ok(self@, r@, self@.categories.len() as int),
    {
        let ghost v = self@;
        let n = self.categories.len();
        let mut out: Vec<CategoryStats> = Vec::new();
        let mut i: usize = 0;
        while i < n
            invariant
                self.wf(),
                v == self@,
                i <= n,
                n == self.categories@.len(),
                n == self@.categories.len(),
                self.ledgers@.len() == n,
                out@.len() == i,
                stats_sorted(out@),
                stats_rows_ok(v, out@, i as int),
            decreases n - i,
        {
            proof {
                assert(0 <= self@.ledgers[i as int].total_xp <= MAX_TOTAL_XP);
                assert(spec_is_level_of(
                    self@.ledgers[i as int].total_xp as int,
                    self@.ledgers[i as int].level as int,
                ));
            }
            let l = &self.ledgers[i];
            proof {
                crate::level::lemma_level_bounded(l.total_xp as int, l.level as int);
            }
            let xp_for_next = crate::level::get_xp_for_next_level(l.level);
            let progress = crate::level::calculate_progress_percentage(l.total_xp, l.level);
            let entry = CategoryStats {
                category: clone_category(&self.categories[i]),
                total_xp: l.total_xp,
                level: l.level,
                xp_for_next_level: xp_for_next,
                progress_percentage: progress,
            };
            let ghost out0 = out@;
            let ghost ev = entry;
            proof {
                reveal(stats_entry_ok);
                assert(stats_entry_ok(v, ev, i as int));
            }
            let at = insert_stat(&mut out, entry);
            proof {
                lemma_stats_rows_after_insert(v, out0, out@, ev, at as int, i as int);
            }
            i = i + 1;
        }
        out
    }

    /// Creates a task from explicit identifier and timestamp values.
    pub fn create_task_with(
        &mut self,
        id: String,
        title: String,
        description: Option<String>,
        now: String,
    ) -> (r: Result<Task, StoreError>)
        requires
            old(self).wf(),
        ensures
            final(self).wf(),
            r is Ok <==> create_task_ok(old(self)@, id@, title@),
            r matches Err(e) ==> final(self)@ == old(self)@ && e == create_task_err(
                old(self)@,
                id@,
                title@,
            ),
            r matches Ok(t) ==> {
                &&& t@ == (TaskV {
                    id: id@,
                    title: title@,
                    description: opt_text(description),
                    status: TaskStatus::Todo,
                    created_at: now@,
                    updated_at: now@,
                    completed_at: None,
                })
                &&& final(self)@ == (StoreV { tasks: old(self)@.tasks.push(t@), ..old(self)@ })
            },
    {
        if title.as_str().is_empty() {
            return Err(StoreError::Validation);
        }
        if self.find_task(id.as_str()).is_some() {
            return Err(StoreError::Conflict);
        }
        if self.tasks.len() >= MAX_RECORDS {
            return Err(StoreError::StoreUnavailable);
        }
        let task = Task {
            id,
            title,
            description,
            status: TaskStatus::Todo,
            created_at: now.clone(),
            updated_at: now,
            completed_at: None,
        };
        let out = clone_task(&task);
        let ghost prior = self@;
        self.tasks.push(task);
        proof {
            assert(self@.tasks =~= prior.tasks.push(out@));
            assert(self@ =~= (StoreV { tasks: prior.tasks.push(out@), ..prior }));
            assert forall|i: int, j: int| 0 <= i < j < self@.tasks.len() implies (
                #[trigger] self@.tasks[i]).id != (#[trigger] self@.tasks[j]).id by {
                if j == self@.tasks.len() - 1 {
                    assert(self@.tasks[i] == prior.tasks[i]);
                }
            }
            assert forall|i: int| 0 <= i < self@.subtasks.len() implies task_exists(
                self@.tasks,
                (#[trigger] self@.subtasks[i]).task_id,
            ) by {
                assert(task_exists(prior.tasks, self@.subtasks[i].task_id));
                let w = task_index_of(prior.tasks, self@.subtasks[i].task_id);
                assert(self@.tasks[w].id == self@.subtasks[i].task_id);
            }
        }
        Ok(out)
    }

    /// Sets a task's status from its persisted string form, stamping the
    /// completion timestamp exactly when the new status is done.
    pub fn update_task_status_at(&mut self, task_id: &str, status: &str, now: String) -> (r: Result<
        Task,
        StoreError,
    >)
        requires
            old(self).wf(),
        ensures
            final(self).wf(),
            r is Ok <==> update_task_status_ok(old(self)@, task_id@, status@),
            r matches Err(e) ==> final(self)@ == old(self)@ && e == update_task_status_err(
                old(self)@,
                task_id@,
                status@,
            ),
            r matches Ok(t) ==> {
                let ti = task_index_of(old(self)@.tasks, task_id@);
                let st = TaskStatus::spec_try_from_str(status@)->Some_0;
                &&& t@ == (TaskV {
                    status: st,
                    updated_at: now@,
                    completed_at: if st is Done {
                        Some(now@)
                    } else {
                        None
                    },
                    ..old(self)@.tasks[ti]
                })
                &&& final(self)@ == (StoreV {
                    tasks: old(self)@.tasks.update(ti, t@),
                    ..old(self)@
                })
            },
    {
        let st = match TaskStatus::try_from_str(status) {
            Some(s) => s,
            None => {
                return Err(StoreError::Validation);
            },
        };
        let ti = match self.find_task(task_id) {
            Some(i) => i,
            None => {
                return Err(StoreError::NotFound);
            },
        };
        proof {
            lemma_task_index_of(self@.tasks, ti as int);
        }
        let completed_at = match st {
            TaskStatus::Done => Some(now.clone()),
            _ => None,
        };
        let prev = &self.tasks[ti];
        let updated = Task {
            id: prev.id.clone(),
            title: prev.title.clone(),
            description: clone_opt_text(&prev.description),
            status: st,
            created_at: prev.created_at.clone(),
            updated_at: now,
            completed_at,
        };
        let out = clone_task(&updated);
        let ghost prior = self@;
        self.tasks[ti] = updated;
        proof {
            assert(self@.tasks =~= prior.tasks.update(ti as int, out@));
            assert(self@ =~= (StoreV { tasks: prior.tasks.update(ti as int, out@), ..prior }));
            assert forall|i: int| 0 <= i < self@.subtasks.len() implies task_exists(
                self@.tasks,
                (#[trigger] self@.subtasks[i]).task_id,
            ) by {
                let w = task_index_of(prior.tasks, self@.subtasks[i].task_id);
                assert(self@.tasks[w].id == self@.subtasks[i].task_id);
            }
        }
        Ok(out)
    }

    /// Sets a task's status, stamped with the current time; an unrecognized
    /// status string is rejected rather than coerced.
    pub fn update_task_status(&mut self, task_id: &str, status: &str) -> (r: Result<
        Task,
        StoreError,
    >)
        requires
            old(self).wf(),
        ensures
            final(self).wf(),
            r is Ok <==> update_task_status_ok(old(self)@, task_id@, status@),
            r matches Err(e) ==> final(self)@ == old(self)@ && e == update_task_status_err(
                old(self)@,
                task_id@,
                status@,
            ),
            r matches Ok(t) ==> {
                let ti = task_index_of(old(self)@.tasks, task_id@);
                let st = TaskStatus::spec_try_from_str(status@)->Some_0;
                &&& t@ == (TaskV {
                    status: st,
                    updated_at: t@.updated_at,
                    completed_at: if st is Done {
                        Some(t@.updated_at)
                    } else {
                        None
                    },
                    ..old(self)@.tasks[ti]
                })
                &&& final(self)@ == (StoreV {
                    tasks: old(self)@.tasks.update(ti, t@),
                    ..old(self)@
                })
            },
    {
        let now = now_rfc3339();
        self.update_task_status_at(task_id, status, now)
    }

    /// Creates a subtask from explicit identifier and timestamp values.
    pub fn create_subtask_with(
        &mut self,
        id: String,
        task_id: &str,
        title: String,
        category_id: Option<String>,
        now: String,
    ) -> (r: Result<Subtask, StoreError>)
        requires
            old(self).wf(),
        ensures
            final(self).wf(),
            r is Ok <==> create_subtask_ok(old(self)@, id@, task_id@, title@, opt_text(category_id)),
            r matches Err(e) ==> final(self)@ == old(self)@ && e == create_subtask_err(
                old(self)@,
                id@,
                task_id@,
                title@,
                opt_text(category_id),
            ),
            r matches Ok(s) ==> {
                let stored = (SubtaskV {
                    id: id@,
                    task_id: task_id@,
                    title: title@,
                    status: SubtaskStatus::Todo,
                    created_at: now@,
                    updated_at: now@,
                    completed_at: None,
                    total_time_seconds: None,
                    category_id: opt_text(category_id),
                });
                &&& s@ == (SubtaskV { total_time_seconds: Some(0), ..stored })
                &&& final(self)@ == (StoreV {
                    subtasks: old(self)@.subtasks.push(stored),
                    ..old(self)@
                })
            },
    {
        if title.as_str().is_empty() {
            return Err(StoreError::Validation);
        }
        if self.find_task(task_id).is_none() {
            return Err(StoreError::NotFound);
        }
        match &category_id {
            Some(cid) => {
                if self.find_category(cid.as_str()).is_none() {
                    return Err(StoreError::NotFound);
                }
            },
            None => {},
        }
        if self.find_subtask(id.as_str()).is_some() {
            return Err(StoreError::Conflict);
        }
        if self.subtasks.len() >= MAX_RECORDS {
            return Err(StoreError::StoreUnavailable);
        }
        let record = Subtask {
            id,
            task_id: task_id.to_owned(),
            title,
            status: SubtaskStatus::Todo,
            created_at: now.clone(),
            updated_at: now,
            completed_at: None,
            total_time_seconds: None,
            category_id,
        };
        let mut out = clone_subtask(&record);
        out.total_time_seconds = Some(0);
        let ghost prior = self@;
        let ghost stored = record@;
        self.subtasks.push(record);
        proof {
            assert(self@.subtasks =~= prior.subtasks.push(stored));
            assert(self@ =~= (StoreV { subtasks: prior.subtasks.push(stored), ..prior }));
            assert forall|i: int, j: int| 0 <= i < j < self@.subtasks.len() implies (
            #[trigger] self@.subtasks[i]).id != (#[trigger] self@.subtasks[j]).id by {
                if j == self@.subtasks.len() - 1 {
                    assert(self@.subtasks[i] == prior.subtasks[i]);
                }
            }
            // sessions still find their owners, at the same values
            assert forall|i: int| 0 <= i < self@.sessions.len() implies subtask_exists(
                self@.subtasks,
                (#[trigger] self@.sessions[i]).subtask_id,
            ) by {
                let w = subtask_index_of(prior.subtasks, self@.sessions[i].subtask_id);
                assert(self@.subtasks[w].id == self@.sessions[i].subtask_id);
            }
            assert forall|i: int| 0 <= i < self@.sessions.len() implies {
                let owner = self@.subtasks[subtask_index_of(
                    self@.subtasks,
                    (#[trigger] self@.sessions[i]).subtask_id,
                )];
                if is_active(self@.sessions[i]) {
                    owner.status is InProgress || owner.status is Paused
                } else {
                    owner.status is Done
                }
            } by {
                let sid = self@.sessions[i].subtask_id;
                let w = subtask_index_of(prior.subtasks, sid);
                lemma_subtask_index_of(prior.subtasks, w);
                assert(prior.subtasks[w] == self@.subtasks[w]);
                lemma_subtask_index_of(self@.subtasks, w);
                assert(subtask_index_of(self@.subtasks, sid) == w);
            }
            // unchanged subtasks keep their running sessions
            assert forall|i: int|
                0 <= i < self@.subtasks.len() implies (((#[trigger] self@.subtasks[i]).status
                is InProgress || self@.subtasks[i].status is Paused) ==> active_exists(
                self@.sessions,
                self@.subtasks[i].id,
            )) by {
                if i < self@.subtasks.len() - 1 {
                    assert(self@.subtasks[i] == prior.subtasks[i]);
                }
            }
        }
        Ok(out)
    }

    /// Creates a subtask under a task, optionally tied to a category,
    /// stamped with the current time and a fresh identifier. The new record
    /// starts as to-do with no completion timestamp and no tracked time.
    pub fn create_subtask(
        &mut self,
        task_id: &str,
        title: String,
        category_id: Option<String>,
    ) -> (r: Result<Subtask, StoreError>)
        requires
            old(self).wf(),
        ensures
            final(self).wf(),
            title@.len() == 0 ==> r == Err::<Subtask, StoreError>(StoreError::Validation),
            title@.len() > 0 && !task_exists(old(self)@.tasks, task_id@) ==> r == Err::<
                Subtask,
                StoreError,
            >(StoreError::NotFound),
            title@.len() > 0 && task_exists(old(self)@.tasks, task_id@) && (opt_text(category_id)
                matches Some(cid) ==> category_exists(old(self)@.categories, cid)) ==> (r matches Err(
                e,
            ) ==> e is Conflict || e is StoreUnavailable),
            r matches Err(_) ==> final(self)@ == old(self)@,
            r matches Ok(s) ==> {
                let stored = (SubtaskV { total_time_seconds: None, ..s@ });
                &&& s@.task_id == task_id@
                &&& s@.title == title@
                &&& s@.status == SubtaskStatus::Todo
                &&& s@.completed_at is None
                &&& s@.created_at == s@.updated_at
                &&& s@.total_time_seconds == Some(0i64)
                &&& s@.category_id == opt_text(category_id)
                &&& !subtask_exists(old(self)@.subtasks, s@.id)
                &&& final(self)@ == (StoreV {
                    subtasks: old(self)@.subtasks.push(stored),
                    ..old(self)@
                })
            },
    {
        let id = new_id();
        let now = now_rfc3339();
        self.create_subtask_with(id, task_id, title, category_id, now)
    }

    /// Deletes a task and, cascading, its subtasks and their sessions.
    pub fn delete_task(&mut self, task_id: &str) -> (r: Result<(), StoreError>)
        requires
            old(self).wf(),
        ensures
            final(self).wf(),
            r is Ok <==> task_exists(old(self)@.tasks, task_id@),
            r matches Err(e) ==> final(self)@ == old(self)@ && e == StoreError::NotFound,
            r is Ok ==> final(self)@ == (StoreV {
                tasks: old(self)@.tasks.remove(task_index_of(old(self)@.tasks, task_id@)),
                subtasks: old(self)@.subtasks.filter(|s: SubtaskV| s.task_id != task_id@),
                sessions: old(self)@.sessions.filter(
                    |x: SessionV| old(self)@.subtasks[subtask_index_of(
                        old(self)@.subtasks,
                        x.subtask_id,
                    )].task_id != task_id@,
                ),
                ..old(self)@
            }),
    {
        let ti = match self.find_task(task_id) {
            Some(i) => i,
            None => {
                return Err(StoreError::NotFound);
            },
        };
        let ghost prior = self@;
        let ghost tid = task_id@;
        let ghost spred = |s: SubtaskV| s.task_id != tid;
        let ghost xpred = |x: SessionV| prior.subtasks[subtask_index_of(
            prior.subtasks,
            x.subtask_id,
        )].task_id != tid;
        proof {
            lemma_task_index_of(prior.tasks, ti as int);
        }
        // keep the sessions whose owning subtask stays
        let xn = self.sessions.len();
        let mut kept_x: Vec<TimeSession> = Vec::new();
        let mut i: usize = 0;
        proof {
            assert(prior.sessions.take(0).filter(xpred) =~= view_sessions(kept_x@));
        }
        while i < xn
            invariant
                old(self).wf(),
                i <= xn,
                xn == self.sessions@.len(),
                self@ == prior,
                tid == task_id@,
                xpred == (|x: SessionV| prior.subtasks[subtask_index_of(
                    prior.subtasks,
                    x.subtask_id,
                )].task_id != tid),
                view_sessions(kept_x@) == prior.sessions.take(i as int).filter(xpred),
            decreases xn - i,
        {
            proof {
                lemma_filter_take_step(prior.sessions, xpred, i as int);
                assert(subtask_exists(prior.subtasks, prior.sessions[i as int].subtask_id));
            }
            let oi = match self.find_subtask(self.sessions[i].subtask_id.as_str()) {
                Some(o) => o,
                None => {
                    proof {
                        assert(false);
                    }
                    vstd::pervasive::unreached()
                },
            };
            proof {
                lemma_subtask_index_of(prior.subtasks, oi as int);
            }
            if !str_eq(self.subtasks[oi].task_id.as_str(), task_id) {
                let c = clone_session(&self.sessions[i]);
                kept_x.push(c);
                proof {
                    assert(view_sessions(kept_x@) =~= prior.sessions.take(i + 1).filter(xpred));
                }
            } else {
                proof {
                    assert(view_sessions(kept_x@) =~= prior.sessions.take(i + 1).filter(xpred));
                }
            }
            i = i + 1;
        }
        proof {
            assert(prior.sessions.take(xn as int) =~= prior.sessions);
        }
        // keep the subtasks of the other tasks
        let sn = self.subtasks.len();
        let mut kept_s: Vec<Subtask> = Vec::new();
        let mut j: usize = 0;
        proof {
            assert(prior.subtasks.take(0).filter(spred) =~= view_subtasks(kept_s@));
        }
        while j < sn
            invariant
                j <= sn,
                sn == self.subtasks@.len(),
                self@ == prior,
                tid == task_id@,
                spred == (|s: SubtaskV| s.task_id != tid),
                view_subtasks(kept_s@) == prior.subtasks.take(j as int).filter(spred),
            decreases sn - j,
        {
            proof {
                lemma_filter_take_step(prior.subtasks, spred, j as int);
            }
            if !str_eq(self.subtasks[j].task_id.as_str(), task_id) {
                let c = clone_subtask(&self.subtasks[j]);
                kept_s.push(c);
                proof {
                    assert(view_subtasks(kept_s@) =~= prior.subtasks.take(j + 1).filter(spred));
                }
            } else {
                proof {
                    assert(view_subtasks(kept_s@) =~= prior.subtasks.take(j + 1).filter(spred));
                }
            }
            j = j + 1;
        }
        proof {
            assert(prior.subtasks.take(sn as int) =~= prior.subtasks);
        }
        self.sessions = kept_x;
        self.subtasks = kept_s;
        self.tasks.remove(ti);
        proof {
            let tidx = ti as int;
            let ts = self@.tasks;
            let ss = self@.subtasks;
            let xs = self@.sessions;
            assert(ts =~= prior.tasks.remove(tidx));
            assert(ss == prior.subtasks.filter(spred));
            assert(xs == prior.sessions.filter(xpred));
            assert(self@ =~= (StoreV {
                tasks: prior.tasks.remove(tidx),
                subtasks: prior.subtasks.filter(spred),
                sessions: prior.sessions.filter(xpred),
                ..prior
            }));
            prior.tasks.remove_ensures(tidx);
            prior.subtasks.filter_lemma(spred);
            prior.sessions.filter_lemma(xpred);
            lemma_filter_members(prior.subtasks, spred);
            lemma_filter_members(prior.sessions, xpred);
            lemma_filter_distinct(prior.subtasks, spred, |s: SubtaskV| s.id);
            lemma_filter_distinct(prior.sessions, xpred, |x: SessionV| x.id);
            lemma_filter_distinct(prior.sessions, xpred, |x: SessionV| x.subtask_id);
            // the remaining tasks, element for element
            assert forall|a: int, b: int| 0 <= a < b < ts.len() implies (#[trigger] ts[a]).id != (
            #[trigger] ts[b]).id by {
                let ao = if a < tidx { a } else { a + 1 };
                let bo = if b < tidx { b } else { b + 1 };
                assert(prior.tasks[ao].id != prior.tasks[bo].id);
            }
            assert forall|a: int| 0 <= a < ts.len() implies ((#[trigger] ts[a]).completed_at
                is Some <==> ts[a].status is Done) by {
                let ao = if a < tidx { a } else { a + 1 };
                assert((prior.tasks[ao].completed_at is Some) <==> (prior.tasks[ao].status
                    is Done));
            }
            // the remaining subtasks
            assert forall|a: int| 0 <= a < ss.len() implies task_exists(
                ts,
                (#[trigger] ss[a]).task_id,
            ) by {
                assert(prior.subtasks.contains(ss[a]));
                let w = choose|w: int| 0 <= w < prior.subtasks.len() && prior.subtasks[w] == ss[a];
                assert(task_exists(prior.tasks, prior.subtasks[w].task_id));
                let tw = task_index_of(prior.tasks, ss[a].task_id);
                assert(prior.tasks[tw].id == ss[a].task_id);
                assert(spred(ss[a]));
                assert(tw != tidx);
                let tn = if tw < tidx { tw } else { tw - 1 };
                assert(ts[tn] == prior.tasks[tw]);
            }
            assert forall|a: int| 0 <= a < ss.len() implies ((#[trigger] ss[a]).completed_at
                is Some <==> ss[a].status is Done) by {
                assert(prior.subtasks.contains(ss[a]));
                let w = choose|w: int| 0 <= w < prior.subtasks.len() && prior.subtasks[w] == ss[a];
                assert((prior.subtasks[w].completed_at is Some) <==> (prior.subtasks[w].status
                    is Done));
            }
            assert forall|a: int| 0 <= a < ss.len() implies ((#[trigger] ss[a]).category_id
                matches Some(cid) ==> category_exists(self@.categories, cid)) by {
                assert(prior.subtasks.contains(ss[a]));
                let w = choose|w: int| 0 <= w < prior.subtasks.len() && prior.subtasks[w] == ss[a];
                if prior.subtasks[w].category_id is Some {
                    assert(category_exists(
                        prior.categories,
                        prior.subtasks[w].category_id->Some_0,
                    ));
                }
            }
            // the remaining sessions
            assert forall|a: int|
                0 <= a < xs.len() implies 0 <= (#[trigger] xs[a]).duration_seconds
                <= MAX_ELAPSED_SECONDS by {
                assert(prior.sessions.contains(xs[a]));
                let w = choose|w: int| 0 <= w < prior.sessions.len() && prior.sessions[w] == xs[a];
                assert(0 <= prior.sessions[w].duration_seconds <= MAX_ELAPSED_SECONDS);
            }
            assert forall|a: int| 0 <= a < xs.len() implies subtask_exists(
                ss,
                (#[trigger] xs[a]).subtask_id,
            ) && ss[subtask_index_of(ss, xs[a].subtask_id)] == prior.subtasks[subtask_index_of(
                prior.subtasks,
                xs[a].subtask_id,
            )] by {
                assert(prior.sessions.contains(xs[a]));
                let w = choose|w: int| 0 <= w < prior.sessions.len() && prior.sessions[w] == xs[a];
                assert(subtask_exists(prior.subtasks, prior.sessions[w].subtask_id));
                let ow = subtask_index_of(prior.subtasks, xs[a].subtask_id);
                lemma_subtask_index_of(prior.subtasks, ow);
                let o = prior.subtasks[ow];
                assert(xpred(xs[a]));
                assert(spred(o));
                assert(prior.subtasks.filter(spred).contains(o));
                lemma_subtask_value(ss, o);
            }
            assert forall|a: int| 0 <= a < xs.len() implies {
                let owner = ss[subtask_index_of(ss, (#[trigger] xs[a]).subtask_id)];
                if is_active(xs[a]) {
                    owner.status is InProgress || owner.status is Paused
                } else {
                    owner.status is Done
                }
            } by {
                assert(prior.sessions.contains(xs[a]));
                let w = choose|w: int| 0 <= w < prior.sessions.len() && prior.sessions[w] == xs[a];
                assert({
                    let owner = prior.subtasks[subtask_index_of(
                        prior.subtasks,
                        prior.sessions[w].subtask_id,
                    )];
                    if is_active(prior.sessions[w]) {
                        owner.status is InProgress || owner.status is Paused
                    } else {
                        owner.status is Done
                    }
                });
            }
            // remaining in-progress or paused subtasks keep their session
            assert forall|a: int|
                0 <= a < ss.len() implies (((#[trigger] ss[a]).status is InProgress
                || ss[a].status is Paused) ==> active_exists(xs, ss[a].id)) by {
                if ss[a].status is InProgress || ss[a].status is Paused {
                    assert(prior.subtasks.contains(ss[a]));
                    let w = choose|w: int|
                        0 <= w < prior.subtasks.len() && prior.subtasks[w] == ss[a];
                    assert(active_exists(prior.sessions, prior.subtasks[w].id));
                    let k = choose|k: int|
                        0 <= k < prior.sessions.len() && (#[trigger] prior.sessions[k]).subtask_id
                            == prior.subtasks[w].id && is_active(prior.sessions[k]);
                    lemma_subtask_value(prior.subtasks, ss[a]);
                    assert(prior.subtasks[subtask_index_of(
                        prior.subtasks,
                        prior.sessions[k].subtask_id,
                    )] == ss[a]);
                    assert(xpred(prior.sessions[k]));
                    assert(prior.sessions.filter(xpred).contains(prior.sessions[k]));
                    let u = choose|u: int| 0 <= u < xs.len() && xs[u] == prior.sessions[k];
                    assert(xs[u].subtask_id == ss[a].id && is_active(xs[u]));
                }
            }
        }
        Ok(())
    }

    /// Deletes a subtask and, with it, every session tracked against it.
    pub fn delete_subtask(&mut self, subtask_id: &str) -> (r: Result<(), StoreError>)
        requires
            old(self).wf(),
        ensures
            final(self).wf(),
            r is Ok <==> subtask_exists(old(self)@.subtasks, subtask_id@),
            r matches Err(e) ==> final(self)@ == old(self)@ && e == StoreError::NotFound,
            r is Ok ==> final(self)@ == (StoreV {
                subtasks: old(self)@.subtasks.remove(
                    subtask_index_of(old(self)@.subtasks, subtask_id@),
                ),
                sessions: old(self)@.sessions.filter(
                    |x: SessionV| x.subtask_id != subtask_id@,
                ),
                ..old(self)@
            }),
    {
        let si = match self.find_subtask(subtask_id) {
            Some(i) => i,
            None => {
                return Err(StoreError::NotFound);
            },
        };
        let ghost prior = self@;
        let ghost sid = subtask_id@;
        let ghost pred = |x: SessionV| x.subtask_id != sid;
        proof {
            lemma_subtask_index_of(prior.subtasks, si as int);
        }
        let n = self.sessions.len();
        let mut kept: Vec<TimeSession> = Vec::new();
        let mut i: usize = 0;
        proof {
            assert(prior.sessions.take(0).filter(pred) =~= view_sessions(kept@));
        }
        while i < n
            invariant
                i <= n,
                n == self.sessions@.len(),
                self@ == prior,
                sid == subtask_id@,
                pred == (|x: SessionV| x.subtask_id != sid),
                view_sessions(kept@) == prior.sessions.take(i as int).filter(pred),
            decreases n - i,
        {
            proof {
                lemma_filter_take_step(prior.sessions, pred, i as int);
            }
            if !str_eq(self.sessions[i].subtask_id.as_str(), subtask_id) {
                let c = clone_session(&self.sessions[i]);
                kept.push(c);
                proof {
                    assert(view_sessions(kept@) =~= prior.sessions.take(i + 1).filter(pred));
                }
            } else {
                proof {
                    assert(view_sessions(kept@) =~= prior.sessions.take(i + 1).filter(pred));
                }
            }
            i = i + 1;
        }
        proof {
            assert(prior.sessions.take(n as int) =~= prior.sessions);
        }
        self.sessions = kept;
        self.subtasks.remove(si);
        proof {
            let sidx = si as int;
            let ss = self@.subtasks;
            let xs = self@.sessions;
            assert(ss =~= prior.subtasks.remove(sidx));
            assert(xs == prior.sessions.filter(pred));
            assert(self@ =~= (StoreV {
                subtasks: prior.subtasks.remove(sidx),
                sessions: prior.sessions.filter(pred),
                ..prior
            }));
            prior.subtasks.remove_ensures(sidx);
            prior.sessions.filter_lemma(pred);
            lemma_filter_members(prior.sessions, pred);
            lemma_filter_distinct(prior.sessions, pred, |x: SessionV| x.id);
            lemma_filter_distinct(prior.sessions, pred, |x: SessionV| x.subtask_id);
            // the remaining subtasks, element for element
            assert forall|i: int| 0 <= i < ss.len() implies ss[i] == prior.subtasks[if i < sidx {
                i
            } else {
                i + 1
            }] by {}
            assert forall|i: int, j: int| 0 <= i < j < ss.len() implies (#[trigger] ss[i]).id != (
            #[trigger] ss[j]).id by {
                let io = if i < sidx { i } else { i + 1 };
                let jo = if j < sidx { j } else { j + 1 };
                assert(prior.subtasks[io].id != prior.subtasks[jo].id);
            }
            assert forall|i: int| 0 <= i < ss.len() implies task_exists(
                self@.tasks,
                (#[trigger] ss[i]).task_id,
            ) by {
                let io = if i < sidx { i } else { i + 1 };
                assert(task_exists(prior.tasks, prior.subtasks[io].task_id));
            }
            assert forall|i: int| 0 <= i < ss.len() implies ((#[trigger] ss[i]).completed_at
                is Some <==> ss[i].status is Done) by {
                let io = if i < sidx { i } else { i + 1 };
                assert((prior.subtasks[io].completed_at is Some) <==> (prior.subtasks[io].status
                    is Done));
            }
            assert forall|i: int| 0 <= i < ss.len() implies ((#[trigger] ss[i]).category_id
                matches Some(cid) ==> category_exists(self@.categories, cid)) by {
                let io = if i < sidx { i } else { i + 1 };
                if prior.subtasks[io].category_id is Some {
                    assert(category_exists(
                        prior.categories,
                        prior.subtasks[io].category_id->Some_0,
                    ));
                }
            }
            // the remaining sessions: durations, owners, lockstep
            assert forall|i: int|
                0 <= i < xs.len() implies 0 <= (#[trigger] xs[i]).duration_seconds
                <= MAX_ELAPSED_SECONDS by {
                assert(prior.sessions.contains(xs[i]));
                let w = choose|w: int| 0 <= w < prior.sessions.len() && prior.sessions[w] == xs[i];
                assert(0 <= prior.sessions[w].duration_seconds <= MAX_ELAPSED_SECONDS);
            }
            assert forall|i: int| 0 <= i < xs.len() implies subtask_exists(
                ss,
                (#[trigger] xs[i]).subtask_id,
            ) && ss[subtask_index_of(ss, xs[i].subtask_id)] == prior.subtasks[subtask_index_of(
                prior.subtasks,
                xs[i].subtask_id,
            )] by {
                assert(prior.sessions.contains(xs[i]));
                let w = choose|w: int| 0 <= w < prior.sessions.len() && prior.sessions[w] == xs[i];
                assert(subtask_exists(prior.subtasks, prior.sessions[w].subtask_id));
                let ow = subtask_index_of(prior.subtasks, xs[i].subtask_id);
                lemma_subtask_index_of(prior.subtasks, ow);
                let o = prior.subtasks[ow];
                assert(pred(xs[i]));
                assert(o.id == xs[i].subtask_id);
                assert(ow != sidx);
                let on = if ow < sidx { ow } else { ow - 1 };
                assert(ss[on] == o);
                lemma_subtask_value(ss, o);
            }
            assert forall|i: int| 0 <= i < xs.len() implies {
                let owner = ss[subtask_index_of(ss, (#[trigger] xs[i]).subtask_id)];
                if is_active(xs[i]) {
                    owner.status is InProgress || owner.status is Paused
                } else {
                    owner.status is Done
                }
            } by {
                assert(prior.sessions.contains(xs[i]));
                let w = choose|w: int| 0 <= w < prior.sessions.len() && prior.sessions[w] == xs[i];
                assert({
                    let owner = prior.subtasks[subtask_index_of(
                        prior.subtasks,
                        prior.sessions[w].subtask_id,
                    )];
                    if is_active(prior.sessions[w]) {
                        owner.status is InProgress || owner.status is Paused
                    } else {
                        owner.status is Done
                    }
                });
            }
            // remaining in-progress or paused subtasks keep their session
            assert forall|i: int|
                0 <= i < ss.len() implies (((#[trigger] ss[i]).status is InProgress
                || ss[i].status is Paused) ==> active_exists(xs, ss[i].id)) by {
                let io = if i < sidx { i } else { i + 1 };
                if ss[i].status is InProgress || ss[i].status is Paused {
                    assert(active_exists(prior.sessions, prior.subtasks[io].id));
                    let k = choose|k: int|
                        0 <= k < prior.sessions.len() && (#[trigger] prior.sessions[k]).subtask_id
                            == prior.subtasks[io].id && is_active(prior.sessions[k]);
                    assert(prior.subtasks[io].id != sid);
                    assert(pred(prior.sessions[k]));
                    assert(prior.sessions.filter(pred).contains(prior.sessions[k]));
                    let u = choose|u: int|
                        0 <= u < xs.len() && xs[u] == prior.sessions[k];
                    assert(xs[u].subtask_id == ss[i].id && is_active(xs[u]));
                }
            }
        }
        Ok(())
    }

    /// Makes sure one preset category is present: creates it, with its
    /// preset color and a fresh ledger, unless its name is already taken —
    /// a present name is left untouched. Existing category–ledger pairs
    /// survive either way, and no name other than this one appears.
    fn seed_one(&mut self, name: &str, color: &str) -> (r: Result<(), StoreError>)
        requires
            old(self).wf(),
            ascii_lowercase(name@),
        ensures
            final(self).wf(),
            final(self)@.tasks == old(self)@.tasks,
            final(self)@.subtasks == old(self)@.subtasks,
            final(self)@.sessions == old(self)@.sessions,
            pairs_carried(old(self)@, final(self)@),
            category_name_exists(old(self)@.categories, name@) ==> r is Ok && final(self)@
                == old(self)@,
            r is Ok ==> category_name_exists(final(self)@.categories, name@),
            r is Ok && !category_name_exists(old(self)@.categories, name@) ==> preset_seeded(
                final(self)@,
                name@,
                color@,
            ),
            forall|n: Seq<char>|
                #[trigger] category_name_exists(final(self)@.categories, n)
                    ==> category_name_exists(old(self)@.categories, n) || n == name@,
            r matches Err(_) ==> final(self)@ == old(self)@,
    {
        let folded = lowercase(name);
        if self.find_category_by_name(folded.as_str()).is_some() {
            proof {
                lemma_pairs_refl(self@);
            }
            return Ok(());
        }
        let ghost prior = self@;
        match self.create_category(name.to_owned(), color.to_owned()) {
            Ok(c) => {
                proof {
                    let p = sorted_pos(prior.categories, spec_lowercase(name@));
                    lemma_sorted_pos(prior.categories, spec_lowercase(name@));
                    prior.categories.insert_ensures(p, c@);
                    let lx = LedgerV {
                        id: self@.ledgers[p].id,
                        category_id: c@.id,
                        total_xp: 0,
                        level: 1,
                        updated_at: c@.created_at,
                    };
                    prior.ledgers.insert_ensures(p, lx);
                    assert(self@.categories[p].name == name@);
                    assert(self@.categories[p].color == color@);
                    assert(self@.ledgers[p] == lx);
                    assert forall|i: int|
                        0 <= i < prior.categories.len() && i < prior.ledgers.len() implies pair_present(
                        self@,
                        #[trigger] prior.categories[i],
                        prior.ledgers[i],
                    ) by {
                        let ni = if i < p {
                            i
                        } else {
                            i + 1
                        };
                        assert(self@.categories[ni] == prior.categories[i]);
                        assert(self@.ledgers[ni] == prior.ledgers[i]);
                    }
                    assert forall|n: Seq<char>|
                        #[trigger] category_name_exists(self@.categories, n) implies category_name_exists(
                        prior.categories,
                        n,
                    ) || n == name@ by {
                        let k = choose|k: int|
                            0 <= k < self@.categories.len() && (
                            #[trigger] self@.categories[k]).name == n;
                        if k != p {
                            let ko = if k < p {
                                k
                            } else {
                                k - 1
                            };
                            assert(prior.categories[ko].name == n);
                        }
                    }
                }
                Ok(())
            },
            Err(e) => {
                proof {
                    lemma_pairs_refl(self@);
                }
                Err(e)
            },
        }
    }

    /// Seeds the five preset categories idempotently: each is created —
    /// with its preset color and a fresh ledger at zero experience in
    /// level 1 — unless a category of the same name already exists, in
    /// which case that row is left untouched. Once all five names are
    /// present, seeding changes nothing, so a second call after a
    /// successful one is a no-op.
    #[verifier::rlimit(100)]
    #[verifier::spinoff_prover]
    pub fn seed_default_categories(&mut self) -> (r: Result<(), StoreError>)
        requires
            old(self).wf(),
        ensures
            final(self).wf(),
            final(self)@.tasks == old(self)@.tasks,
            final(self)@.subtasks == old(self)@.subtasks,
            final(self)@.sessions == old(self)@.sessions,
            pairs_carried(old(self)@, final(self)@),
            all_presets_named(old(self)@) ==> r is Ok && final(self)@ == old(self)@,
            r is Ok ==> all_presets_named(final(self)@),
            r is Ok ==> {
                &&& (!category_name_exists(old(self)@.categories, "frontend"@) ==> preset_seeded(
                    final(self)@,
                    "frontend"@,
                    "#3b82f6"@,
                ))
                &&& (!category_name_exists(old(self)@.categories, "backend"@) ==> preset_seeded(
                    final(self)@,
                    "backend"@,
                    "#10b981"@,
                ))
                &&& (!category_name_exists(old(self)@.categories, "architecture"@)
                    ==> preset_seeded(final(self)@, "architecture"@, "#8b5cf6"@))
                &&& (!category_name_exists(old(self)@.categories, "css"@) ==> preset_seeded(
                    final(self)@,
                    "css"@,
                    "#ec4899"@,
                ))
                &&& (!category_name_exists(old(self)@.categories, "tailwind"@) ==> preset_seeded(
                    final(self)@,
                    "tailwind"@,
                    "#06b6d4"@,
                ))
            },
    {
        proof {
            lemma_preset_names();
        }
        let ghost v0 = self@;
        match self.seed_one("frontend", "#3b82f6") {
            Ok(_) => {},
            Err(e) => {
                return Err(e);
            },
        }
        let ghost v1 = self@;
        match self.seed_one("backend", "#10b981") {
            Ok(_) => {},
            Err(e) => {
                proof {
                    lemma_pairs_refl(self@);
                }
                return Err(e);
            },
        }
        let ghost v2 = self@;
        match self.seed_one("architecture", "#8b5cf6") {
            Ok(_) => {},
            Err(e) => {
                proof {
                    lemma_pairs_trans(v0, v1, self@);
                }
                return Err(e);
            },
        }
        let ghost v3 = self@;
        match self.seed_one("css", "#ec4899") {
            Ok(_) => {},
            Err(e) => {
                proof {
                    lemma_pairs_trans(v0, v1, v2);
                    lemma_pairs_trans(v0, v2, self@);
                }
                return Err(e);
            },
        }
        let ghost v4 = self@;
        match self.seed_one("tailwind", "#06b6d4") {
            Ok(_) => {},
            Err(e) => {
                proof {
                    lemma_pairs_trans(v0, v1, v2);
                    lemma_pairs_trans(v0, v2, v3);
                    lemma_pairs_trans(v0, v3, self@);
                }
                return Err(e);
            },
        }
        proof {
            let vf = self@;
            // pairs carried across the whole run
            lemma_pairs_trans(v0, v1, v2);
            lemma_pairs_trans(v0, v2, v3);
            lemma_pairs_trans(v0, v3, v4);
            lemma_pairs_trans(v0, v4, vf);
            lemma_pairs_trans(v1, v2, v3);
            lemma_pairs_trans(v1, v3, v4);
            lemma_pairs_trans(v1, v4, vf);
            lemma_pairs_trans(v2, v3, v4);
            lemma_pairs_trans(v2, v4, vf);
            lemma_pairs_trans(v3, v4, vf);
            // the names planted at each step survive to the end
            lemma_pairs_contains(v1, vf);
            lemma_pairs_contains(v2, vf);
            lemma_pairs_contains(v3, vf);
            lemma_pairs_contains(v4, vf);
            lemma_name_exists_carried(v1.categories, vf.categories, "frontend"@);
            lemma_name_exists_carried(v2.categories, vf.categories, "backend"@);
            lemma_name_exists_carried(v3.categories, vf.categories, "architecture"@);
            lemma_name_exists_carried(v4.categories, vf.categories, "css"@);
            // a preset absent at the outset was planted whole at its own
            // step, since the earlier steps add no other names
            if !category_name_exists(v0.categories, "frontend"@) {
                lemma_preset_carried(v1, vf, "frontend"@, "#3b82f6"@);
            }
            if !category_name_exists(v0.categories, "backend"@) {
                if category_name_exists(v1.categories, "backend"@) {
                    assert(false);
                }
                lemma_preset_carried(v2, vf, "backend"@, "#10b981"@);
            }
            if !category_name_exists(v0.categories, "architecture"@) {
                if category_name_exists(v1.categories, "architecture"@) {
                    assert(false);
                }
                if category_name_exists(v2.categories, "architecture"@) {
                    assert(false);
                }
                lemma_preset_carried(v3, vf, "architecture"@, "#8b5cf6"@);
            }
            if !category_name_exists(v0.categories, "css"@) {
                if category_name_exists(v1.categories, "css"@) {
                    assert(false);
                }
                if category_name_exists(v2.categories, "css"@) {
                    assert(false);
                }
                if category_name_exists(v3.categories, "css"@) {
                    assert(false);
                }
                lemma_preset_carried(v4, vf, "css"@, "#ec4899"@);
            }
            if !category_name_exists(v0.categories, "tailwind"@) {
                if category_name_exists(v1.categories, "tailwind"@) {
                    assert(false);
                }
                if category_name_exists(v2.categories, "tailwind"@) {
                    assert(false);
                }
                if category_name_exists(v3.categories, "tailwind"@) {
                    assert(false);
                }
                if category_name_exists(v4.categories, "tailwind"@) {
                    assert(false);
                }
            }
        }
        Ok(())
    }

    /// Creates a task titled `title`, stamped with the current time and a
    /// fresh identifier. The new record starts as to-do with no completion
    /// timestamp.
    pub fn create_task(&mut self, title: String, description: Option<String>) -> (r: Result<
        Task,
        StoreError,
    >)
        requires
            old(self).wf(),
        ensures
            final(self).wf(),
            title@.len() == 0 ==> r == Err::<Task, StoreError>(StoreError::Validation),
            title@.len() > 0 ==> (r matches Err(e) ==> e is Conflict || e is StoreUnavailable),
            r matches Err(_) ==> final(self)@ == old(self)@,
            r matches Ok(t) ==> {
                &&& t@.title == title@
                &&& t@.description == opt_text(description)
                &&& t@.status == TaskStatus::Todo
                &&& t@.completed_at is None
                &&& t@.created_at == t@.updated_at
                &&& !task_exists(old(self)@.tasks, t@.id)
                &&& final(self)@ == (StoreV { tasks: old(self)@.tasks.push(t@), ..old(self)@ })
            },
    {
        let id = new_id();
        let now = now_rfc3339();
        self.create_task_with(id, title, description, now)
    }
}

} // verus!
