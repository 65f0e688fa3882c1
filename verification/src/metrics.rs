//! Read-only derivations over the store: per-subtask time totals, task
//! statistics, and the global summary with its trailing seven-day series.

use vstd::prelude::*;

verus! {

use crate::clock::SECS_PER_DAY;
use crate::models::ActiveSubtaskInfo;
use crate::models::DailyPoints;
use crate::models::TaskWithActiveSubtask;
use crate::models::GeneralMetrics;
use crate::models::SessionV;
use crate::models::StoreError;
use crate::models::TaskV;
use crate::models::Subtask;
use crate::models::SubtaskV;
use crate::models::SubtaskWithSession;
use crate::models::SubtaskWithTime;
use crate::models::TaskMetrics;
use crate::models::TaskWithSubtasks;
use crate::models::TaskWithSubtasksAndSessions;
use crate::models::TimeSession;
use crate::models::opt_text;
use crate::scoring::COMPLEXITY_BONUS;
use crate::scoring::COMPLEXITY_MIN_SUBTASKS;
use crate::scoring::spec_efficient;
use crate::scoring::spec_points;
use crate::scoring::points_for_duration;
use crate::store::MAX_ELAPSED_SECONDS;
use crate::store::MAX_RECORDS;
use crate::store::Store;
use crate::store::StoreV;
use crate::store::clone_opt_text;
use crate::store::clone_subtask;
use crate::store::is_active;
use crate::store::lemma_filter_take_step;
use crate::store::lemma_task_index_of;
use crate::store::task_exists;
use crate::store::task_index_of;
use crate::text::str_eq;

/// Seconds of historical (ended) session time recorded for subtask `sid`.
pub open spec fn spec_session_time(xs: Seq<SessionV>, sid: Seq<char>) -> int
    decreases xs.len(),
{
    if xs.len() == 0 {
        0
    } else {
        spec_session_time(xs.drop_last(), sid) + if xs.last().subtask_id == sid
            && xs.last().ended_at is Some {
            xs.last().duration_seconds as int
        } else {
            0
        }
    }
}

/// A table without ended sessions of `sid` records no time for it.
pub proof fn lemma_session_time_zero(xs: Seq<SessionV>, sid: Seq<char>)
    requires
        forall|i: int|
            0 <= i < xs.len() ==> !((#[trigger] xs[i]).subtask_id == sid && xs[i].ended_at
                is Some),
    ensures
        spec_session_time(xs, sid) == 0,
    decreases xs.len(),
{
    if xs.len() > 0 {
        assert(xs.last() == xs[xs.len() - 1]);
        assert forall|i: int|
            0 <= i < xs.drop_last().len() implies !((#[trigger] xs.drop_last()[i]).subtask_id
            == sid && xs.drop_last()[i].ended_at is Some) by {
            assert(xs.drop_last()[i] == xs[i]);
        }
        lemma_session_time_zero(xs.drop_last(), sid);
    }
}

// ---------------------------------------------------------------------------
// Per-task aggregates
// ---------------------------------------------------------------------------

/// How many subtasks belong to task `tid`.
pub open spec fn spec_count_subtasks(ss: Seq<SubtaskV>, tid: Seq<char>) -> int
    decreases ss.len(),
{
    if ss.len() == 0 {
        0
    } else {
        spec_count_subtasks(ss.drop_last(), tid) + if ss.last().task_id == tid {
            1int
        } else {
            0int
        }
    }
}

/// How many subtasks of task `tid` are done.
pub open spec fn spec_count_done(ss: Seq<SubtaskV>, tid: Seq<char>) -> int
    decreases ss.len(),
{
    if ss.len() == 0 {
        0
    } else {
        spec_count_done(ss.drop_last(), tid) + if ss.last().task_id == tid && ss.last().status
            is Done {
            1int
        } else {
            0int
        }
    }
}

/// How many done subtasks of task `tid` finished under the efficiency
/// threshold.
pub open spec fn spec_count_efficient(
    ss: Seq<SubtaskV>,
    xs: Seq<SessionV>,
    tid: Seq<char>,
) -> int
    decreases ss.len(),
{
    if ss.len() == 0 {
        0
    } else {
        spec_count_efficient(ss.drop_last(), xs, tid) + if ss.last().task_id == tid
            && ss.last().status is Done && spec_efficient(spec_session_time(xs, ss.last().id)) {
            1int
        } else {
            0int
        }
    }
}

/// Summed historical seconds across every subtask of task `tid`.
pub open spec fn spec_task_time(ss: Seq<SubtaskV>, xs: Seq<SessionV>, tid: Seq<char>) -> int
    decreases ss.len(),
{
    if ss.len() == 0 {
        0
    } else {
        spec_task_time(ss.drop_last(), xs, tid) + if ss.last().task_id == tid {
            spec_session_time(xs, ss.last().id)
        } else {
            0
        }
    }
}

/// Completion points earned by the done subtasks of task `tid`.
pub open spec fn spec_task_base_points(ss: Seq<SubtaskV>, xs: Seq<SessionV>, tid: Seq<char>) -> int
    decreases ss.len(),
{
    if ss.len() == 0 {
        0
    } else {
        spec_task_base_points(ss.drop_last(), xs, tid) + if ss.last().task_id == tid
            && ss.last().status is Done {
            spec_points(spec_session_time(xs, ss.last().id))
        } else {
            0
        }
    }
}

/// The complexity bonus of task `tid`: twenty points once it has at least
/// five subtasks and all of them are done.
pub open spec fn spec_task_bonus(ss: Seq<SubtaskV>, tid: Seq<char>) -> int {
    if spec_count_subtasks(ss, tid) >= COMPLEXITY_MIN_SUBTASKS && spec_count_done(ss, tid)
        == spec_count_subtasks(ss, tid) {
        COMPLEXITY_BONUS as int
    } else {
        0
    }
}

/// Total points attributed to task `tid`: its completions plus its bonus.
pub open spec fn spec_task_points(ss: Seq<SubtaskV>, xs: Seq<SessionV>, tid: Seq<char>) -> int {
    spec_task_base_points(ss, xs, tid) + spec_task_bonus(ss, tid)
}

/// A subtask record as a response carries it: with its historical total
/// filled in.
pub open spec fn with_time(s: SubtaskV, t: int) -> SubtaskV {
    SubtaskV { total_time_seconds: Some(t as i64), ..s }
}

/// One row of a task's subtask listing: the stored record with its total.
pub open spec fn swt_entry_ok(v: StoreV, e: SubtaskWithTime, s: SubtaskV) -> bool {
    &&& e.subtask@ == with_time(s, spec_session_time(v.sessions, s.id))
    &&& e.total_time_seconds == spec_session_time(v.sessions, s.id)
}

/// Everything `get_task_metrics` promises about its result.
pub open spec fn task_metrics_matches(v: StoreV, tid: Seq<char>, m: TaskMetrics) -> bool {
    let ti = task_index_of(v.tasks, tid);
    let subs = v.subtasks.filter(|s: SubtaskV| s.task_id == tid);
    let done = spec_count_done(v.subtasks, tid);
    &&& m.task_id@ == tid
    &&& m.task_title@ == v.tasks[ti].title
    &&& opt_text(m.completed_at) == v.tasks[ti].completed_at
    &&& m.subtasks_total == spec_count_subtasks(v.subtasks, tid)
    &&& m.subtasks_completed == done
    &&& m.total_time_seconds == spec_task_time(v.subtasks, v.sessions, tid)
    &&& m.total_points == spec_task_points(v.subtasks, v.sessions, tid)
    &&& m.average_time_per_subtask == (if done > 0 {
        spec_task_time(v.subtasks, v.sessions, tid) / done
    } else {
        0
    })
    &&& m.efficiency_rate == (if done > 0 {
        spec_count_efficient(v.subtasks, v.sessions, tid) * 100 / done
    } else {
        0
    })
    &&& m.subtasks_with_time@.len() == subs.len()
    &&& forall|k: int|
        0 <= k < subs.len() ==> swt_entry_ok(v, #[trigger] m.subtasks_with_time@[k], subs[k])
}

/// Two task-metrics values that both satisfy what `get_task_metrics`
/// promises for the same store and task are observably the same: reading
/// the metrics twice without a write in between yields identical output.
pub proof fn lemma_task_metrics_determined(
    v: StoreV,
    tid: Seq<char>,
    m1: TaskMetrics,
    m2: TaskMetrics,
)
    requires
        task_metrics_matches(v, tid, m1),
        task_metrics_matches(v, tid, m2),
    ensures
        m1.task_id@ == m2.task_id@,
        m1.task_title@ == m2.task_title@,
        opt_text(m1.completed_at) == opt_text(m2.completed_at),
        m1.total_time_seconds == m2.total_time_seconds,
        m1.total_points == m2.total_points,
        m1.subtasks_completed == m2.subtasks_completed,
        m1.subtasks_total == m2.subtasks_total,
        m1.average_time_per_subtask == m2.average_time_per_subtask,
        m1.efficiency_rate == m2.efficiency_rate,
        m1.subtasks_with_time@.len() == m2.subtasks_with_time@.len(),
        forall|k: int|
            0 <= k < m1.subtasks_with_time@.len() ==> (#[trigger] m1.subtasks_with_time@[k]).subtask@
                == m2.subtasks_with_time@[k].subtask@ && m1.subtasks_with_time@[k].total_time_seconds
                == m2.subtasks_with_time@[k].total_time_seconds,
{
}

// ---------------------------------------------------------------------------
// Global aggregates
// ---------------------------------------------------------------------------

/// The calendar day a subtask's completion falls on, when its timestamp
/// parses.
pub open spec fn spec_sub_day(s: SubtaskV) -> Option<int> {
    match s.completed_at {
        Some(ts) => crate::clock::spec_timestamp_day(ts),
        None => None,
    }
}

/// The calendar day a task's completion falls on, when its timestamp
/// parses.
pub open spec fn spec_task_day(t: TaskV) -> Option<int> {
    match t.completed_at {
        Some(ts) => crate::clock::spec_timestamp_day(ts),
        None => None,
    }
}

/// Completion points of every done subtask, over all tasks.
pub open spec fn spec_total_base_points(ss: Seq<SubtaskV>, xs: Seq<SessionV>) -> int
    decreases ss.len(),
{
    if ss.len() == 0 {
        0
    } else {
        spec_total_base_points(ss.drop_last(), xs) + if ss.last().status is Done {
            spec_points(spec_session_time(xs, ss.last().id))
        } else {
            0
        }
    }
}

/// Summed historical seconds of every done subtask.
pub open spec fn spec_total_duration(ss: Seq<SubtaskV>, xs: Seq<SessionV>) -> int
    decreases ss.len(),
{
    if ss.len() == 0 {
        0
    } else {
        spec_total_duration(ss.drop_last(), xs) + if ss.last().status is Done {
            spec_session_time(xs, ss.last().id)
        } else {
            0
        }
    }
}

/// How many subtasks are done, over all tasks.
pub open spec fn spec_count_done_all(ss: Seq<SubtaskV>) -> int
    decreases ss.len(),
{
    if ss.len() == 0 {
        0
    } else {
        spec_count_done_all(ss.drop_last()) + if ss.last().status is Done {
            1int
        } else {
            0int
        }
    }
}

/// How many tasks are done.
pub open spec fn spec_count_tasks_done(ts: Seq<TaskV>) -> int
    decreases ts.len(),
{
    if ts.len() == 0 {
        0
    } else {
        spec_count_tasks_done(ts.drop_last()) + if ts.last().status is Done {
            1int
        } else {
            0int
        }
    }
}

/// The complexity bonuses of every task, summed.
pub open spec fn spec_total_bonus(ts: Seq<TaskV>, ss: Seq<SubtaskV>) -> int
    decreases ts.len(),
{
    if ts.len() == 0 {
        0
    } else {
        spec_total_bonus(ts.drop_last(), ss) + spec_task_bonus(ss, ts.last().id)
    }
}

/// Points of the done subtasks whose completion falls on `day`.
pub open spec fn spec_daily_sub_points(ss: Seq<SubtaskV>, xs: Seq<SessionV>, day: int) -> int
    decreases ss.len(),
{
    if ss.len() == 0 {
        0
    } else {
        spec_daily_sub_points(ss.drop_last(), xs, day) + if ss.last().status is Done
            && spec_sub_day(ss.last()) == Some(day) {
            spec_points(spec_session_time(xs, ss.last().id))
        } else {
            0
        }
    }
}

/// How many done subtasks completed on `day`.
pub open spec fn spec_daily_sub_count(ss: Seq<SubtaskV>, day: int) -> int
    decreases ss.len(),
{
    if ss.len() == 0 {
        0
    } else {
        spec_daily_sub_count(ss.drop_last(), day) + if ss.last().status is Done && spec_sub_day(
            ss.last(),
        ) == Some(day) {
            1int
        } else {
            0int
        }
    }
}

/// Bonus points bucketed on `day`: each task whose bonus is earned and
/// whose own completion timestamp falls on `day`.
pub open spec fn spec_daily_task_bonus(ts: Seq<TaskV>, ss: Seq<SubtaskV>, day: int) -> int
    decreases ts.len(),
{
    if ts.len() == 0 {
        0
    } else {
        spec_daily_task_bonus(ts.drop_last(), ss, day) + if spec_task_bonus(ss, ts.last().id) != 0
            && spec_task_day(ts.last()) == Some(day) {
            COMPLEXITY_BONUS as int
        } else {
            0
        }
    }
}

/// All points earned on `day`: subtask completions plus bucketed bonuses.
pub open spec fn spec_daily_points(v: StoreV, day: int) -> int {
    spec_daily_sub_points(v.subtasks, v.sessions, day) + spec_daily_task_bonus(
        v.tasks,
        v.subtasks,
        day,
    )
}

/// Points of the last `k` days of the week ending at `today`.
pub open spec fn spec_week_points(v: StoreV, today: int, k: int) -> int
    decreases k,
{
    if k <= 0 {
        0
    } else {
        spec_week_points(v, today, k - 1) + spec_daily_points(v, today - 7 + k)
    }
}

/// One entry of the trailing seven-day series.
pub open spec fn daily_entry_ok(v: StoreV, day: int, e: DailyPoints) -> bool {
    &&& e.epoch_day == day
    &&& e.points == spec_daily_points(v, day)
    &&& e.subtasks_completed == spec_daily_sub_count(v.subtasks, day)
    &&& e.date@ == crate::clock::spec_date_string((day * (SECS_PER_DAY as int)) as i64)
}

/// Everything `get_general_metrics_at` promises about its result, for the
/// day that `today` names.
pub open spec fn general_metrics_matches(v: StoreV, today: int, m: GeneralMetrics) -> bool {
    let done = spec_count_done_all(v.subtasks);
    &&& m.total_points == spec_total_base_points(v.subtasks, v.sessions) + spec_total_bonus(
        v.tasks,
        v.subtasks,
    )
    &&& m.total_subtasks_completed == done
    &&& m.total_tasks_completed == spec_count_tasks_done(v.tasks)
    &&& m.average_completion_time_seconds == (if done > 0 {
        spec_total_duration(v.subtasks, v.sessions) / done
    } else {
        0
    })
    &&& m.points_last_7_days@.len() == 7
    &&& forall|k: int|
        0 <= k < 7 ==> daily_entry_ok(v, today - 6 + k, #[trigger] m.points_last_7_days@[k])
    &&& m.points_today == spec_daily_points(v, today)
    &&& m.points_this_week == spec_week_points(v, today, 7)
    &&& (m.best_day is None ==> forall|k: int|
        0 <= k < 7 ==> (#[trigger] m.points_last_7_days@[k]).points <= 0)
    &&& (m.best_day matches Some(b) ==> {
        &&& b.points > 0
        &&& (exists|k: int| 0 <= k < 7 && #[trigger] m.points_last_7_days@[k] == b)
        &&& (forall|j: int|
            0 <= j < 7 ==> (#[trigger] m.points_last_7_days@[j]).points <= b.points)
        &&& (forall|j: int|
            0 <= j < 7 && (#[trigger] m.points_last_7_days@[j]).epoch_day < b.epoch_day
                ==> m.points_last_7_days@[j].points < b.points)
    })
}

/// One row of a task's listing with sessions: the stored record with its
/// total, plus its running session if one is open.
pub open spec fn sws_entry_ok(v: StoreV, e: SubtaskWithSession, s: SubtaskV) -> bool {
    &&& e.subtask@ == with_time(s, spec_session_time(v.sessions, s.id))
    &&& (crate::store::active_exists(v.sessions, s.id) ==> e.session is Some && e.session->Some_0@
        == v.sessions[crate::store::active_index_of(v.sessions, s.id)])
    &&& (!crate::store::active_exists(v.sessions, s.id) ==> e.session is None)
}

// ---------------------------------------------------------------------------
// Task listing with the active subtask
// ---------------------------------------------------------------------------

/// The characters of an optional status filter.
pub open spec fn spec_filter_view(o: Option<&str>) -> Option<Seq<char>> {
    match o {
        Some(f) => Some(f@),
        None => None,
    }
}

/// Whether a task passes the status filter: no filter keeps everything, a
/// filter keeps the tasks whose persisted status string equals it.
pub open spec fn spec_keep_task(f: Option<Seq<char>>, t: TaskV) -> bool {
    match f {
        Some(s) => t.status.spec_str() == s,
        None => true,
    }
}

/// The position of the first in-progress subtask of task `tid`, if any.
pub open spec fn spec_first_active_sub(ss: Seq<SubtaskV>, tid: Seq<char>) -> Option<int>
    decreases ss.len(),
{
    if ss.len() == 0 {
        None
    } else if ss[0].task_id == tid && ss[0].status is InProgress {
        Some(0int)
    } else {
        match spec_first_active_sub(ss.drop_first(), tid) {
            Some(i) => Some(i + 1),
            None => None,
        }
    }
}

/// What characterizes the first in-progress subtask of a task: nothing
/// before it qualifies, and it does — or nothing in the table qualifies.
pub proof fn lemma_first_active_sub(ss: Seq<SubtaskV>, tid: Seq<char>)
    ensures
        (match spec_first_active_sub(ss, tid) {
            None => forall|k: int|
                0 <= k < ss.len() ==> !((#[trigger] ss[k]).task_id == tid && ss[k].status
                    is InProgress),
            Some(i) => 0 <= i < ss.len() && ss[i].task_id == tid && ss[i].status is InProgress
                && forall|k: int|
                0 <= k < i ==> !((#[trigger] ss[k]).task_id == tid && ss[k].status is InProgress),
        }),
    decreases ss.len(),
{
    if ss.len() > 0 && !(ss[0].task_id == tid && ss[0].status is InProgress) {
        lemma_first_active_sub(ss.drop_first(), tid);
        assert forall|k: int| 1 <= k < ss.len() implies ss.drop_first()[k - 1] == ss[k] by {}
    }
}

/// The approximate seconds of the running session of `sid`: the wall clock
/// minus the session's parsed start, when there is a session, its start
/// parses, and the difference fits.
pub open spec fn spec_current_session(v: StoreV, now_secs: i64, sid: Seq<char>) -> Option<i64> {
    if crate::store::active_exists(v.sessions, sid) {
        match crate::clock::spec_timestamp_secs(
            v.sessions[crate::store::active_index_of(v.sessions, sid)].started_at,
        ) {
            Some(st) => if i64::MIN <= now_secs - st <= i64::MAX {
                Some((now_secs - st) as i64)
            } else {
                None
            },
            None => None,
        }
    } else {
        None
    }
}

/// The wall-clock-independent part of an active-subtask summary.
pub open spec fn info_core_ok(v: StoreV, info: ActiveSubtaskInfo, s: SubtaskV) -> bool {
    &&& info.id@ == s.id
    &&& info.title@ == s.title
    &&& info.total_time_seconds == spec_session_time(v.sessions, s.id)
}

/// The wall-clock-independent part of one listing entry.
pub open spec fn twa_core_ok(v: StoreV, e: TaskWithActiveSubtask, t: TaskV) -> bool {
    &&& e.id@ == t.id
    &&& e.title@ == t.title
    &&& opt_text(e.description) == t.description
    &&& e.status == t.status
    &&& e.created_at@ == t.created_at
    &&& e.updated_at@ == t.updated_at
    &&& opt_text(e.completed_at) == t.completed_at
    &&& (match spec_first_active_sub(v.subtasks, t.id) {
        None => e.active_subtask is None,
        Some(si) => e.active_subtask is Some && info_core_ok(v, e.active_subtask->Some_0, v.subtasks[si]),
    })
}

/// One listing entry, with the current-session estimate pinned to the
/// given wall-clock reading.
pub open spec fn twa_entry_ok(v: StoreV, now_secs: i64, e: TaskWithActiveSubtask, t: TaskV) -> bool {
    &&& twa_core_ok(v, e, t)
    &&& (spec_first_active_sub(v.subtasks, t.id) matches Some(si)
        ==> e.active_subtask->Some_0.current_session_time == spec_current_session(
        v,
        now_secs,
        v.subtasks[si].id,
    ))
}

/// A copy of one series entry whose fields equal the original's.
fn clone_daily(e: &DailyPoints) -> (r: DailyPoints)
    ensures
        r == *e,
{
    DailyPoints {
        date: e.date.clone(),
        epoch_day: e.epoch_day,
        points: e.points,
        subtasks_completed: e.subtasks_completed,
    }
}

impl Store {
    /// How many subtasks a task has, and how many of them are done.
    fn count_subtasks_of(&self, task_id: &str) -> (r: (i64, i64))
        requires
            self.wf(),
        ensures
            r.0 == spec_count_subtasks(self@.subtasks, task_id@),
            r.1 == spec_count_done(self@.subtasks, task_id@),
            0 <= r.1 <= r.0 <= self@.subtasks.len(),
    {
        let ghost tid = task_id@;
        let n = self.subtasks.len();
        let mut total: i64 = 0;
        let mut done: i64 = 0;
        let mut i: usize = 0;
        proof {
            assert(self@.subtasks.take(0) =~= Seq::<SubtaskV>::empty());
        }
        while i < n
            invariant
                self.wf(),
                i <= n,
                n == self.subtasks@.len(),
                tid == task_id@,
                total == spec_count_subtasks(self@.subtasks.take(i as int), tid),
                done == spec_count_done(self@.subtasks.take(i as int), tid),
                0 <= done <= total <= i,
            decreases n - i,
        {
            proof {
                assert(self@.subtasks.take(i + 1).drop_last() =~= self@.subtasks.take(i as int));
                assert(self@.subtasks.take(i + 1).last() == self@.subtasks[i as int]);
            }
            let s = &self.subtasks[i];
            if str_eq(s.task_id.as_str(), task_id) {
                total = total + 1;
                if matches!(s.status, crate::models::SubtaskStatus::Done) {
                    done = done + 1;
                }
            }
            i = i + 1;
        }
        proof {
            assert(self@.subtasks.take(n as int) =~= self@.subtasks);
        }
        (total, done)
    }

    /// Derived statistics for one task: times, counts, points with the
    /// complexity bonus, the whole-percent efficiency rate, and each
    /// subtask with its time.
    pub fn get_task_metrics(&self, task_id: &str) -> (r: Result<TaskMetrics, StoreError>)
        requires
            self.wf(),
        ensures
            r is Ok <==> task_exists(self@.tasks, task_id@),
            r matches Err(e) ==> e == StoreError::NotFound,
            r matches Ok(m) ==> task_metrics_matches(self@, task_id@, m),
    {
        let ti = match self.find_task(task_id) {
            Some(i) => i,
            None => {
                return Err(StoreError::NotFound);
            },
        };
        proof {
            lemma_task_index_of(self@.tasks, ti as int);
        }
        let ghost v = self@;
        let ghost tid = task_id@;
        let ghost pred = |s: SubtaskV| s.task_id == tid;
        let n = self.subtasks.len();
        let mut swt: Vec<SubtaskWithTime> = Vec::new();
        let mut total_n: i64 = 0;
        let mut done_n: i64 = 0;
        let mut eff_n: i64 = 0;
        let mut time_total: i64 = 0;
        let mut base_points: i64 = 0;
        let mut i: usize = 0;
        proof {
            assert(v.subtasks.take(0) =~= Seq::<SubtaskV>::empty());
            assert(v.subtasks.take(0).filter(pred) =~= Seq::<SubtaskV>::empty());
        }
        while i < n
            invariant
                self.wf(),
                v == self@,
                tid == task_id@,
                pred == (|s: SubtaskV| s.task_id == tid),
                i <= n,
                n == self.subtasks@.len(),
                n <= MAX_RECORDS,
                total_n == spec_count_subtasks(v.subtasks.take(i as int), tid),
                done_n == spec_count_done(v.subtasks.take(i as int), tid),
                eff_n == spec_count_efficient(v.subtasks.take(i as int), v.sessions, tid),
                time_total == spec_task_time(v.subtasks.take(i as int), v.sessions, tid),
                base_points == spec_task_base_points(v.subtasks.take(i as int), v.sessions, tid),
                0 <= eff_n <= done_n <= total_n <= i,
                0 <= time_total <= i * MAX_ELAPSED_SECONDS,
                0 <= base_points <= i * 15,
                swt@.len() == v.subtasks.take(i as int).filter(pred).len(),
                forall|k: int|
                    0 <= k < swt@.len() ==> swt_entry_ok(
                        v,
                        #[trigger] swt@[k],
                        v.subtasks.take(i as int).filter(pred)[k],
                    ),
            decreases n - i,
        {
            proof {
                assert(v.subtasks.take(i + 1).drop_last() =~= v.subtasks.take(i as int));
                assert(v.subtasks.take(i + 1).last() == v.subtasks[i as int]);
                lemma_filter_take_step(v.subtasks, pred, i as int);
            }
            let s = &self.subtasks[i];
            if str_eq(s.task_id.as_str(), task_id) {
                let t = self.total_time_for(s.id.as_str());
                total_n = total_n + 1;
                time_total = time_total + t;
                if matches!(s.status, crate::models::SubtaskStatus::Done) {
                    done_n = done_n + 1;
                    let p = points_for_duration(t);
                    base_points = base_points + p;
                    if t < crate::scoring::EFFICIENT_SECONDS {
                        eff_n = eff_n + 1;
                    }
                }
                let mut sub = clone_subtask(s);
                sub.total_time_seconds = Some(t);
                swt.push(SubtaskWithTime { subtask: sub, total_time_seconds: t });
            }
            i = i + 1;
        }
        proof {
            assert(v.subtasks.take(n as int) =~= v.subtasks);
        }
        let total_points = if total_n >= crate::scoring::COMPLEXITY_MIN_SUBTASKS && done_n
            == total_n {
            base_points + COMPLEXITY_BONUS
        } else {
            base_points
        };
        let average = if done_n > 0 {
            time_total / done_n
        } else {
            0
        };
        let efficiency = if done_n > 0 {
            (eff_n * 100) / done_n
        } else {
            0
        };
        let task = &self.tasks[ti];
        Ok(TaskMetrics {
            task_id: task_id.to_owned(),
            task_title: task.title.clone(),
            total_time_seconds: time_total,
            total_points,
            subtasks_completed: done_n,
            subtasks_total: total_n,
            average_time_per_subtask: average,
            efficiency_rate: efficiency,
            completed_at: clone_opt_text(&task.completed_at),
            subtasks_with_time: swt,
        })
    }

    /// Derived statistics across every task, computed for the day that
    /// `today_secs` falls on: all points ever earned, today's and this
    /// week's points, the trailing seven-day series (oldest first, ending
    /// today), the best day of that window (earliest wins a tie), counts of
    /// completed tasks and subtasks, and the average completion time.
    #[verifier::rlimit(60)]
    pub fn get_general_metrics_at(&self, today_secs: i64) -> (m: GeneralMetrics)
        requires
            self.wf(),
            6 * SECS_PER_DAY <= today_secs <= crate::clock::MAX_RENDERED_SECS,
        ensures
            general_metrics_matches(self@, (today_secs as int) / (SECS_PER_DAY as int), m),
    {
        let ghost v = self@;
        proof {
            vstd::arithmetic::div_mod::lemma_div_is_ordered(
                6 * (SECS_PER_DAY as int),
                today_secs as int,
                SECS_PER_DAY as int,
            );
            vstd::arithmetic::div_mod::lemma_div_is_ordered(
                today_secs as int,
                crate::clock::MAX_RENDERED_SECS as int,
                SECS_PER_DAY as int,
            );
            assert(6 * (SECS_PER_DAY as int) / (SECS_PER_DAY as int) == 6);
            assert((crate::clock::MAX_RENDERED_SECS as int) / (SECS_PER_DAY as int) == 2_932_896);
        }
        let today = crate::clock::day_of_secs(today_secs);
        let start = today - 6;
        let mut day_pts: Vec<i64> = vec![0, 0, 0, 0, 0, 0, 0];
        let mut day_cnt: Vec<i64> = vec![0, 0, 0, 0, 0, 0, 0];
        let ns = self.subtasks.len();
        let mut base: i64 = 0;
        let mut dur: i64 = 0;
        let mut done: i64 = 0;
        let mut i: usize = 0;
        proof {
            assert(v.subtasks.take(0) =~= Seq::<SubtaskV>::empty());
        }
        while i < ns
            invariant
                self.wf(),
                v == self@,
                i <= ns,
                ns == self.subtasks@.len(),
                ns <= MAX_RECORDS,
                6 <= today <= 2_932_896,
                start == today - 6,
                base == spec_total_base_points(v.subtasks.take(i as int), v.sessions),
                dur == spec_total_duration(v.subtasks.take(i as int), v.sessions),
                done == spec_count_done_all(v.subtasks.take(i as int)),
                0 <= done <= i,
                0 <= base <= i * 15,
                0 <= dur <= i * MAX_ELAPSED_SECONDS,
                day_pts@.len() == 7,
                day_cnt@.len() == 7,
                forall|d: int|
                    0 <= d < 7 ==> #[trigger] day_pts@[d] == spec_daily_sub_points(
                        v.subtasks.take(i as int),
                        v.sessions,
                        start + d,
                    ) && 0 <= day_pts@[d] <= i * 15,
                forall|d: int|
                    0 <= d < 7 ==> #[trigger] day_cnt@[d] == spec_daily_sub_count(
                        v.subtasks.take(i as int),
                        start + d,
                    ) && 0 <= day_cnt@[d] <= i,
            decreases ns - i,
        {
            proof {
                assert(v.subtasks.take(i + 1).drop_last() =~= v.subtasks.take(i as int));
                assert(v.subtasks.take(i + 1).last() == v.subtasks[i as int]);
            }
            let ghost pts0 = day_pts@;
            let ghost cnt0 = day_cnt@;
            let s = &self.subtasks[i];
            if matches!(s.status, crate::models::SubtaskStatus::Done) {
                let t = self.total_time_for(s.id.as_str());
                let p = points_for_duration(t);
                base = base + p;
                dur = dur + t;
                done = done + 1;
                let day_opt = match &s.completed_at {
                    Some(ts) => crate::clock::day_of_timestamp(ts.as_str()),
                    None => None,
                };
                proof {
                    match day_opt {
                        Some(d) => {
                            assert(spec_sub_day(v.subtasks[i as int]) == Some(d as int));
                        },
                        None => {
                            assert(spec_sub_day(v.subtasks[i as int]) is None);
                        },
                    }
                }
                match day_opt {
                    Some(d) => {
                        if start <= d && d <= today {
                            let idx = (d - start) as usize;
                            day_pts[idx] = day_pts[idx] + p;
                            day_cnt[idx] = day_cnt[idx] + 1;
                            proof {
                                let idx = idx as int;
                                assert forall|dd: int| 0 <= dd < 7 implies #[trigger] day_pts@[dd]
                                    == spec_daily_sub_points(
                                    v.subtasks.take(i + 1),
                                    v.sessions,
                                    start + dd,
                                ) && day_cnt@[dd] == spec_daily_sub_count(
                                    v.subtasks.take(i + 1),
                                    start + dd,
                                ) by {
                                    if dd != idx {
                                        assert(day_pts@[dd] == pts0[dd]);
                                        assert(spec_sub_day(v.subtasks[i as int]) != Some(
                                            start + dd,
                                        ));
                                    }
                                }
                            }
                        }
                    },
                    None => {},
                }
            }
            i = i + 1;
        }
        proof {
            assert(v.subtasks.take(ns as int) =~= v.subtasks);
        }
        // task bonuses: totals and daily buckets
        let nt = self.tasks.len();
        let mut bonus_sum: i64 = 0;
        let mut tasks_done: i64 = 0;
        let mut j: usize = 0;
        proof {
            assert(v.tasks.take(0) =~= Seq::<TaskV>::empty());
        }
        while j < nt
            invariant
                self.wf(),
                v == self@,
                j <= nt,
                nt == self.tasks@.len(),
                nt <= MAX_RECORDS,
                ns == self.subtasks@.len(),
                ns <= MAX_RECORDS,
                6 <= today <= 2_932_896,
                start == today - 6,
                bonus_sum == spec_total_bonus(v.tasks.take(j as int), v.subtasks),
                tasks_done == spec_count_tasks_done(v.tasks.take(j as int)),
                0 <= tasks_done <= j,
                0 <= bonus_sum <= j * 20,
                day_pts@.len() == 7,
                day_cnt@.len() == 7,
                forall|d: int|
                    0 <= d < 7 ==> #[trigger] day_pts@[d] == spec_daily_sub_points(
                        v.subtasks,
                        v.sessions,
                        start + d,
                    ) + spec_daily_task_bonus(v.tasks.take(j as int), v.subtasks, start + d) && 0
                        <= day_pts@[d] <= ns * 15 + j * 20,
                forall|d: int|
                    0 <= d < 7 ==> #[trigger] day_cnt@[d] == spec_daily_sub_count(
                        v.subtasks,
                        start + d,
                    ) && 0 <= day_cnt@[d] <= ns,
            decreases nt - j,
        {
            proof {
                assert(v.tasks.take(j + 1).drop_last() =~= v.tasks.take(j as int));
                assert(v.tasks.take(j + 1).last() == v.tasks[j as int]);
            }
            let ghost pts0 = day_pts@;
            let tk = &self.tasks[j];
            if matches!(tk.status, crate::models::TaskStatus::Done) {
                tasks_done = tasks_done + 1;
            }
            let counts = self.count_subtasks_of(tk.id.as_str());
            if counts.0 >= COMPLEXITY_MIN_SUBTASKS && counts.1 == counts.0 {
                bonus_sum = bonus_sum + COMPLEXITY_BONUS;
                let day_opt = match &tk.completed_at {
                    Some(ts) => crate::clock::day_of_timestamp(ts.as_str()),
                    None => None,
                };
                proof {
                    match day_opt {
                        Some(d) => {
                            assert(spec_task_day(v.tasks[j as int]) == Some(d as int));
                        },
                        None => {
                            assert(spec_task_day(v.tasks[j as int]) is None);
                        },
                    }
                }
                match day_opt {
                    Some(d) => {
                        if start <= d && d <= today {
                            let idx = (d - start) as usize;
                            day_pts[idx] = day_pts[idx] + COMPLEXITY_BONUS;
                            proof {
                                let idx = idx as int;
                                assert forall|dd: int| 0 <= dd < 7 implies #[trigger] day_pts@[dd]
                                    == spec_daily_sub_points(v.subtasks, v.sessions, start + dd)
                                    + spec_daily_task_bonus(
                                    v.tasks.take(j + 1),
                                    v.subtasks,
                                    start + dd,
                                ) by {
                                    if dd != idx {
                                        assert(day_pts@[dd] == pts0[dd]);
                                        assert(spec_task_day(v.tasks[j as int]) != Some(
                                            start + dd,
                                        ));
                                    }
                                }
                            }
                        }
                    },
                    None => {},
                }
            } else {
                proof {
                    assert(spec_task_bonus(v.subtasks, v.tasks[j as int].id) == 0);
                }
            }
            j = j + 1;
        }
        proof {
            assert(v.tasks.take(nt as int) =~= v.tasks);
        }
        // the trailing week, its best day, and the week's points
        let mut series: Vec<DailyPoints> = Vec::new();
        let mut best: Option<DailyPoints> = None;
        let mut week: i64 = 0;
        let mut k: usize = 0;
        while k < 7
            invariant
                v == self@,
                k <= 7,
                6 <= today <= 2_932_896,
                start == today - 6,
                day_pts@.len() == 7,
                day_cnt@.len() == 7,
                forall|d: int|
                    0 <= d < 7 ==> #[trigger] day_pts@[d] == spec_daily_points(v, start + d) && 0
                        <= day_pts@[d] <= 3_500_000_000,
                forall|d: int|
                    0 <= d < 7 ==> #[trigger] day_cnt@[d] == spec_daily_sub_count(
                        v.subtasks,
                        start + d,
                    ) && 0 <= day_cnt@[d] <= 100_000_000,
                series@.len() == k,
                forall|q: int|
                    0 <= q < k ==> daily_entry_ok(v, start + q, #[trigger] series@[q]),
                week == spec_week_points(v, today as int, k as int),
                0 <= week <= k * 3_500_000_000,
                (best is None ==> forall|q: int|
                    0 <= q < k ==> (#[trigger] series@[q]).points <= 0),
                (best matches Some(b) ==> {
                    &&& b.points > 0
                    &&& (exists|q: int| 0 <= q < k && #[trigger] series@[q] == b)
                    &&& (forall|q: int| 0 <= q < k ==> (#[trigger] series@[q]).points <= b.points)
                    &&& (forall|q: int|
                        0 <= q < k && (#[trigger] series@[q]).epoch_day < b.epoch_day
                            ==> series@[q].points < b.points)
                }),
            decreases 7 - k,
        {
            let day = start + (k as i64);
            let date = crate::clock::format_utc_date(day * SECS_PER_DAY);
            let entry = DailyPoints {
                date,
                epoch_day: day,
                points: day_pts[k],
                subtasks_completed: day_cnt[k],
            };
            week = week + entry.points;
            let ghost best0 = best;
            if entry.points > 0 {
                let replace = match &best {
                    Some(b) => b.points < entry.points,
                    None => true,
                };
                if replace {
                    best = Some(clone_daily(&entry));
                }
            }
            let ghost series0 = series@;
            let ghost entry_v = entry;
            series.push(entry);
            proof {
                assert(series@[k as int] == entry_v);
                if best is Some {
                    let b = best->Some_0;
                    if best0 is Some && best == best0 {
                        let bq = choose|q: int| 0 <= q < k && #[trigger] series0[q] == b;
                        assert(series@[bq] == b);
                        assert(daily_entry_ok(v, start + bq, series@[bq]));
                        assert(b.epoch_day == start + bq);
                        assert(b.epoch_day < start + k);
                    } else {
                        assert(b == entry_v);
                    }
                }
            }
            k = k + 1;
        }
        let points_today = day_pts[6];
        let average = if done > 0 {
            dur / done
        } else {
            0
        };
        let out = GeneralMetrics {
            total_points: base + bonus_sum,
            points_today,
            points_this_week: week,
            points_last_7_days: series,
            best_day: best,
            total_tasks_completed: tasks_done,
            total_subtasks_completed: done,
            average_completion_time_seconds: average,
        };
        proof {
            let today_i = today as int;
            assert(start + 6 == today);
            assert(out.total_points == spec_total_base_points(v.subtasks, v.sessions)
                + spec_total_bonus(v.tasks, v.subtasks));
            assert(out.total_subtasks_completed == spec_count_done_all(v.subtasks));
            assert(out.total_tasks_completed == spec_count_tasks_done(v.tasks));
            assert(out.points_last_7_days@.len() == 7);
            assert forall|k: int| 0 <= k < 7 implies daily_entry_ok(
                v,
                today_i - 6 + k,
                #[trigger] out.points_last_7_days@[k],
            ) by {
                assert(daily_entry_ok(v, start + k, series@[k]));
            }
            assert(out.points_today == spec_daily_points(v, today_i));
            assert(out.points_this_week == spec_week_points(v, today_i, 7));
            if out.best_day is Some {
                let b = out.best_day->Some_0;
                assert(b.points > 0);
                assert(exists|q: int| 0 <= q < 7 && #[trigger] out.points_last_7_days@[q] == b);
            }
            assert(general_metrics_matches(v, today_i, out));
        }
        out
    }

    /// Derived statistics across every task, computed for the current day.
    /// Fails only when the wall clock reads outside the years this library
    /// renders as dates.
    pub fn get_general_metrics(&self) -> (r: Result<GeneralMetrics, StoreError>)
        requires
            self.wf(),
        ensures
            r matches Err(e) ==> e == StoreError::StoreUnavailable,
            r matches Ok(m) ==> (exists|today: int|
                #[trigger] general_metrics_matches(self@, today, m)),
            r matches Ok(m) ==> {
                &&& m.total_points == spec_total_base_points(self@.subtasks, self@.sessions)
                    + spec_total_bonus(self@.tasks, self@.subtasks)
                &&& m.total_subtasks_completed == spec_count_done_all(self@.subtasks)
                &&& m.total_tasks_completed == spec_count_tasks_done(self@.tasks)
                &&& m.points_last_7_days@.len() == 7
            },
    {
        let now_secs = crate::clock::now_utc_secs();
        if now_secs < 6 * SECS_PER_DAY || now_secs > crate::clock::MAX_RENDERED_SECS {
            return Err(StoreError::StoreUnavailable);
        }
        let m = self.get_general_metrics_at(now_secs);
        Ok(m)
    }

    /// One task with every one of its subtasks, each carrying its
    /// historical time total.
    pub fn get_task_with_subtasks(&self, task_id: &str) -> (r: Result<
        TaskWithSubtasks,
        StoreError,
    >)
        requires
            self.wf(),
        ensures
            r is Ok <==> task_exists(self@.tasks, task_id@),
            r matches Err(e) ==> e == StoreError::NotFound,
            r matches Ok(w) ==> {
                let t = self@.tasks[task_index_of(self@.tasks, task_id@)];
                let subs = self@.subtasks.filter(|s: SubtaskV| s.task_id == task_id@);
                &&& w.id@ == t.id
                &&& w.title@ == t.title
                &&& opt_text(w.description) == t.description
                &&& w.status == t.status
                &&& w.created_at@ == t.created_at
                &&& w.updated_at@ == t.updated_at
                &&& opt_text(w.completed_at) == t.completed_at
                &&& w.subtasks@.len() == subs.len()
                &&& forall|k: int|
                    0 <= k < subs.len() ==> (#[trigger] w.subtasks@[k])@ == with_time(
                        subs[k],
                        spec_session_time(self@.sessions, subs[k].id),
                    )
            },
    {
        let ti = match self.find_task(task_id) {
            Some(i) => i,
            None => {
                return Err(StoreError::NotFound);
            },
        };
        proof {
            lemma_task_index_of(self@.tasks, ti as int);
        }
        let ghost v = self@;
        let ghost tid = task_id@;
        let ghost pred = |s: SubtaskV| s.task_id == tid;
        let n = self.subtasks.len();
        let mut subs: Vec<Subtask> = Vec::new();
        let mut i: usize = 0;
        proof {
            assert(v.subtasks.take(0).filter(pred) =~= Seq::<SubtaskV>::empty());
        }
        while i < n
            invariant
                self.wf(),
                v == self@,
                tid == task_id@,
                pred == (|s: SubtaskV| s.task_id == tid),
                i <= n,
                n == self.subtasks@.len(),
                subs@.len() == v.subtasks.take(i as int).filter(pred).len(),
                forall|k: int|
                    0 <= k < subs@.len() ==> (#[trigger] subs@[k])@ == with_time(
                        v.subtasks.take(i as int).filter(pred)[k],
                        spec_session_time(v.sessions, v.subtasks.take(i as int).filter(pred)[k].id),
                    ),
            decreases n - i,
        {
            proof {
                lemma_filter_take_step(v.subtasks, pred, i as int);
            }
            let s = &self.subtasks[i];
            if str_eq(s.task_id.as_str(), task_id) {
                let t = self.total_time_for(s.id.as_str());
                let mut sub = clone_subtask(s);
                sub.total_time_seconds = Some(t);
                subs.push(sub);
            }
            i = i + 1;
        }
        proof {
            assert(v.subtasks.take(n as int) =~= v.subtasks);
        }
        let task = &self.tasks[ti];
        Ok(TaskWithSubtasks {
            id: task.id.clone(),
            title: task.title.clone(),
            description: clone_opt_text(&task.description),
            status: task.status,
            created_at: task.created_at.clone(),
            updated_at: task.updated_at.clone(),
            completed_at: clone_opt_text(&task.completed_at),
            subtasks: subs,
        })
    }

    /// One subtask with its historical total filled in, and its running
    /// session if one is open.
    pub fn get_subtask_with_session(&self, subtask_id: &str) -> (r: Result<
        (Subtask, Option<TimeSession>),
        StoreError,
    >)
        requires
            self.wf(),
        ensures
            r is Ok <==> crate::store::subtask_exists(self@.subtasks, subtask_id@),
            r matches Err(e) ==> e == StoreError::NotFound,
            r matches Ok(p) ==> {
                let si = crate::store::subtask_index_of(self@.subtasks, subtask_id@);
                &&& p.0@ == with_time(
                    self@.subtasks[si],
                    spec_session_time(self@.sessions, subtask_id@),
                )
                &&& (crate::store::active_exists(self@.sessions, subtask_id@) ==> p.1 is Some
                    && p.1->Some_0@ == self@.sessions[crate::store::active_index_of(
                    self@.sessions,
                    subtask_id@,
                )])
                &&& (!crate::store::active_exists(self@.sessions, subtask_id@) ==> p.1 is None)
            },
    {
        let si = match self.find_subtask(subtask_id) {
            Some(i) => i,
            None => {
                return Err(StoreError::NotFound);
            },
        };
        proof {
            crate::store::lemma_subtask_index_of(self@.subtasks, si as int);
        }
        let t = self.total_time_for(subtask_id);
        let mut sub = clone_subtask(&self.subtasks[si]);
        sub.total_time_seconds = Some(t);
        let session = match self.find_active_session(subtask_id) {
            Some(ai) => {
                proof {
                    crate::store::lemma_active_index_of(self@.sessions, ai as int);
                }
                Some(crate::store::clone_session(&self.sessions[ai]))
            },
            None => None,
        };
        Ok((sub, session))
    }

    /// One task with every one of its subtasks, each carrying its
    /// historical total and its running session if one is open.
    pub fn get_task_with_subtasks_and_sessions(&self, task_id: &str) -> (r: Result<
        TaskWithSubtasksAndSessions,
        StoreError,
    >)
        requires
            self.wf(),
        ensures
            r is Ok <==> task_exists(self@.tasks, task_id@),
            r matches Err(e) ==> e == StoreError::NotFound,
            r matches Ok(w) ==> {
                let t = self@.tasks[task_index_of(self@.tasks, task_id@)];
                let subs = self@.subtasks.filter(|s: SubtaskV| s.task_id == task_id@);
                &&& w.id@ == t.id
                &&& w.title@ == t.title
                &&& opt_text(w.description) == t.description
                &&& w.status == t.status
                &&& w.created_at@ == t.created_at
                &&& w.updated_at@ == t.updated_at
                &&& opt_text(w.completed_at) == t.completed_at
                &&& w.subtasks_with_sessions@.len() == subs.len()
                &&& forall|k: int|
                    0 <= k < subs.len() ==> sws_entry_ok(
                        self@,
                        #[trigger] w.subtasks_with_sessions@[k],
                        subs[k],
                    )
            },
    {
        let ti = match self.find_task(task_id) {
            Some(i) => i,
            None => {
                return Err(StoreError::NotFound);
            },
        };
        proof {
            lemma_task_index_of(self@.tasks, ti as int);
        }
        let ghost v = self@;
        let ghost tid = task_id@;
        let ghost pred = |s: SubtaskV| s.task_id == tid;
        let n = self.subtasks.len();
        let mut entries: Vec<SubtaskWithSession> = Vec::new();
        let mut i: usize = 0;
        proof {
            assert(v.subtasks.take(0).filter(pred) =~= Seq::<SubtaskV>::empty());
        }
        while i < n
            invariant
                self.wf(),
                v == self@,
                tid == task_id@,
                pred == (|s: SubtaskV| s.task_id == tid),
                i <= n,
                n == self.subtasks@.len(),
                entries@.len() == v.subtasks.take(i as int).filter(pred).len(),
                forall|k: int|
                    0 <= k < entries@.len() ==> sws_entry_ok(
                        v,
                        #[trigger] entries@[k],
                        v.subtasks.take(i as int).filter(pred)[k],
                    ),
            decreases n - i,
        {
            proof {
                lemma_filter_take_step(v.subtasks, pred, i as int);
            }
            let s = &self.subtasks[i];
            if str_eq(s.task_id.as_str(), task_id) {
                let t = self.total_time_for(s.id.as_str());
                let mut sub = clone_subtask(s);
                sub.total_time_seconds = Some(t);
                let session = match self.find_active_session(s.id.as_str()) {
                    Some(ai) => {
                        proof {
                            crate::store::lemma_active_index_of(v.sessions, ai as int);
                        }
                        Some(crate::store::clone_session(&self.sessions[ai]))
                    },
                    None => None,
                };
                entries.push(SubtaskWithSession { subtask: sub, session });
            }
            i = i + 1;
        }
        proof {
            assert(v.subtasks.take(n as int) =~= v.subtasks);
        }
        let task = &self.tasks[ti];
        Ok(TaskWithSubtasksAndSessions {
            id: task.id.clone(),
            title: task.title.clone(),
            description: clone_opt_text(&task.description),
            status: task.status,
            created_at: task.created_at.clone(),
            updated_at: task.updated_at.clone(),
            completed_at: clone_opt_text(&task.completed_at),
            subtasks_with_sessions: entries,
        })
    }

    /// The first in-progress subtask of a task, by stored order.
    fn find_first_active_sub(&self, task_id: &str) -> (r: Option<usize>)
        ensures
            (match spec_first_active_sub(self@.subtasks, task_id@) {
                None => r is None,
                Some(i) => r is Some && r->Some_0 as int == i,
            }),
    {
        proof {
            lemma_first_active_sub(self@.subtasks, task_id@);
        }
        let n = self.subtasks.len();
        let mut i: usize = 0;
        while i < n
            invariant
                i <= n,
                n == self.subtasks@.len(),
                forall|k: int|
                    0 <= k < i ==> !((#[trigger] self@.subtasks[k]).task_id == task_id@
                        && self@.subtasks[k].status is InProgress),
                (match spec_first_active_sub(self@.subtasks, task_id@) {
                    None => forall|k: int|
                        0 <= k < n ==> !((#[trigger] self@.subtasks[k]).task_id == task_id@
                            && self@.subtasks[k].status is InProgress),
                    Some(fi) => 0 <= fi < n && self@.subtasks[fi].task_id == task_id@
                        && self@.subtasks[fi].status is InProgress && forall|k: int|
                        0 <= k < fi ==> !((#[trigger] self@.subtasks[k]).task_id == task_id@
                            && self@.subtasks[k].status is InProgress),
                }),
            decreases n - i,
        {
            let s = &self.subtasks[i];
            if matches!(s.status, crate::models::SubtaskStatus::InProgress) {
                if str_eq(s.task_id.as_str(), task_id) {
                    proof {
                        let ii = i as int;
                        assert(self@.subtasks[ii].task_id == task_id@ && self@.subtasks[ii].status
                            is InProgress);
                        match spec_first_active_sub(self@.subtasks, task_id@) {
                            None => {
                                assert(!(self@.subtasks[ii].task_id == task_id@
                                    && self@.subtasks[ii].status is InProgress));
                            },
                            Some(fi) => {
                                if fi < ii {
                                    assert(!(self@.subtasks[fi].task_id == task_id@
                                        && self@.subtasks[fi].status is InProgress));
                                }
                                if fi > ii {
                                    assert(!(self@.subtasks[ii].task_id == task_id@
                                        && self@.subtasks[ii].status is InProgress));
                                }
                            },
                        }
                    }
                    return Some(i);
                }
            }
            i = i + 1;
        }
        None
    }

    /// Every task passing the status filter, most recently created first,
    /// each with a summary of its first in-progress subtask: its time total
    /// and the running session's approximate elapsed seconds, read against
    /// the given wall-clock instant.
    pub fn list_tasks_with_active_subtasks_at(
        &self,
        status_filter: Option<&str>,
        now_secs: i64,
    ) -> (r: Vec<TaskWithActiveSubtask>)
        requires
            self.wf(),
        ensures
            ({
                let kept = self@.tasks.filter(
                    |t: TaskV| spec_keep_task(spec_filter_view(status_filter), t),
                );
                &&& r@.len() == kept.len()
                &&& forall|k: int|
                    0 <= k < kept.len() ==> twa_entry_ok(
                        self@,
                        now_secs,
                        #[trigger] r@[k],
                        kept[kept.len() - 1 - k],
                    )
            }),
    {
        let ghost v = self@;
        let ghost f = spec_filter_view(status_filter);
        let ghost pred = |t: TaskV| spec_keep_task(f, t);
        let n = self.tasks.len();
        let mut tmp: Vec<TaskWithActiveSubtask> = Vec::new();
        let mut i: usize = 0;
        proof {
            assert(v.tasks.take(0).filter(pred) =~= Seq::<TaskV>::empty());
        }
        while i < n
            invariant
                self.wf(),
                v == self@,
                f == spec_filter_view(status_filter),
                pred == (|t: TaskV| spec_keep_task(f, t)),
                i <= n,
                n == self.tasks@.len(),
                tmp@.len() == v.tasks.take(i as int).filter(pred).len(),
                forall|k: int|
                    0 <= k < tmp@.len() ==> twa_entry_ok(
                        v,
                        now_secs,
                        #[trigger] tmp@[k],
                        v.tasks.take(i as int).filter(pred)[k],
                    ),
            decreases n - i,
        {
            proof {
                lemma_filter_take_step(v.tasks, pred, i as int);
            }
            let task = &self.tasks[i];
            let keep = match status_filter {
                Some(fs) => str_eq(task.status.as_str(), fs),
                None => true,
            };
            if keep {
                let active_subtask = match self.find_first_active_sub(task.id.as_str()) {
                    Some(u) => {
                        proof {
                            lemma_first_active_sub(v.subtasks, v.tasks[i as int].id);
                        }
                        let s = &self.subtasks[u];
                        let t = self.total_time_for(s.id.as_str());
                        let ai = match self.find_active_session(s.id.as_str()) {
                            Some(a) => a,
                            None => {
                                proof {
                                    assert(crate::store::active_exists(
                                        v.sessions,
                                        v.subtasks[u as int].id,
                                    ));
                                }
                                vstd::pervasive::unreached()
                            },
                        };
                        proof {
                            crate::store::lemma_active_index_of(v.sessions, ai as int);
                        }
                        let current = match crate::clock::parse_timestamp_secs(
                            self.sessions[ai].started_at.as_str(),
                        ) {
                            Some(st) => now_secs.checked_sub(st),
                            None => None,
                        };
                        Some(ActiveSubtaskInfo {
                            id: s.id.clone(),
                            title: s.title.clone(),
                            total_time_seconds: t,
                            current_session_time: current,
                        })
                    },
                    None => None,
                };
                let entry = TaskWithActiveSubtask {
                    id: task.id.clone(),
                    title: task.title.clone(),
                    description: clone_opt_text(&task.description),
                    status: task.status,
                    created_at: task.created_at.clone(),
                    updated_at: task.updated_at.clone(),
                    completed_at: clone_opt_text(&task.completed_at),
                    active_subtask,
                };
                tmp.push(entry);
            }
            i = i + 1;
        }
        proof {
            assert(v.tasks.take(n as int) =~= v.tasks);
        }
        // newest first: reverse the built list
        let total = tmp.len();
        let ghost tmpv = tmp@;
        let mut out: Vec<TaskWithActiveSubtask> = Vec::new();
        while tmp.len() > 0
            invariant
                tmpv.len() == total,
                out@.len() + tmp@.len() == total,
                tmp@ == tmpv.take(tmp@.len() as int),
                forall|k: int| 0 <= k < out@.len() ==> #[trigger] out@[k] == tmpv[total - 1 - k],
            decreases tmp.len(),
        {
            proof {
                assert(tmp@[tmp@.len() - 1] == tmpv[tmp@.len() - 1]);
            }
            let e = match tmp.pop() {
                Some(e) => e,
                None => {
                    proof {
                        assert(false);
                    }
                    vstd::pervasive::unreached()
                },
            };
            out.push(e);
            proof {
                assert(tmp@ =~= tmpv.take(tmp@.len() as int));
            }
        }
        out
    }

    /// Every task passing the status filter, most recently created first,
    /// each with a summary of its first in-progress subtask, read against
    /// the wall clock.
    pub fn list_tasks_with_active_subtasks(&self, status_filter: Option<&str>) -> (r: Vec<
        TaskWithActiveSubtask,
    >)
        requires
            self.wf(),
        ensures
            ({
                let kept = self@.tasks.filter(
                    |t: TaskV| spec_keep_task(spec_filter_view(status_filter), t),
                );
                &&& r@.len() == kept.len()
                &&& forall|k: int|
                    0 <= k < kept.len() ==> twa_core_ok(
                        self@,
                        #[trigger] r@[k],
                        kept[kept.len() - 1 - k],
                    )
            }),
    {
        let now_secs = crate::clock::now_utc_secs();
        self.list_tasks_with_active_subtasks_at(status_filter, now_secs)
    }

    /// The historical time total of one subtask: the summed seconds of its
    /// ended sessions.
    pub fn total_time_for(&self, subtask_id: &str) -> (t: i64)
        requires
            self.wf(),
        ensures
            t == spec_session_time(self@.sessions, subtask_id@),
            0 <= t <= MAX_ELAPSED_SECONDS,
    {
        let ghost sid = subtask_id@;
        let n = self.sessions.len();
        let mut total: i64 = 0;
        let mut i: usize = 0;
        proof {
            assert(self@.sessions.take(0) =~= Seq::<SessionV>::empty());
        }
        while i < n
            invariant
                self.wf(),
                i <= n,
                n == self.sessions@.len(),
                sid == subtask_id@,
                total == spec_session_time(self@.sessions.take(i as int), sid),
                0 <= total <= MAX_ELAPSED_SECONDS,
            decreases n - i,
        {
            let ghost pre = self@.sessions.take(i as int);
            proof {
                assert(self@.sessions.take(i + 1).drop_last() =~= pre);
                assert(self@.sessions.take(i + 1).last() == self@.sessions[i as int]);
            }
            let s = &self.sessions[i];
            if s.ended_at.is_some() && str_eq(s.subtask_id.as_str(), subtask_id) {
                proof {
                    // no earlier session of this subtask, so the sum so far is 0
                    assert forall|k: int|
                        0 <= k < pre.len() implies !((#[trigger] pre[k]).subtask_id == sid
                        && pre[k].ended_at is Some) by {
                        assert(pre[k] == self@.sessions[k]);
                        assert(self@.sessions[k].subtask_id != self@.sessions[i as int].subtask_id);
                    }
                    lemma_session_time_zero(pre, sid);
                }
                total = s.duration_seconds;
            }
            i = i + 1;
        }
        proof {
            assert(self@.sessions.take(n as int) =~= self@.sessions);
        }
        total
    }
}

} // verus!
